use speed_rs::{
    DefaultErrorHandler, Handler, HttpRequest, HttpResponse, HttpStatusStruct, Route, Router,
    StepView, run_chain,
};
use speed_rs::message::{ReqView, ResView};

struct Tag(&'static str);

impl Handler for Tag {
    // ghost member of the verified trait; never run
    fn on_call(&self, _: ReqView, _: ResView) -> StepView {
        unreachable!()
    }

    fn handle(
        &self,
        req: HttpRequest,
        mut res: HttpResponse,
    ) -> Result<(HttpRequest, HttpResponse), (HttpRequest, HttpResponse, String)> {
        res.set_status(HttpStatusStruct(200, "OK"));
        res.text(self.0.to_string());
        Ok((req, res))
    }
}

fn request(method: &str, uri: &str) -> HttpRequest {
    HttpRequest::new(vec![format!("{} {} HTTP/1.1", method, uri)], Vec::new()).unwrap()
}

fn two_route_router() -> Router<Tag> {
    let mut router = Router::new();
    router.define_route(Route::all("/a", Tag("h1")));
    router.define_route(Route::all("/b", Tag("h2")));
    router
}

#[test]
fn router_dispatches_to_matching_route_only() {
    let handlers = vec![two_route_router()];
    let (_, res) = run_chain(
        &handlers,
        &DefaultErrorHandler,
        request("GET", "/a"),
        HttpResponse::new(),
    );
    assert_eq!(res.status().0, 200);
    assert_eq!(res.body(), b"h1");
}

#[test]
fn router_leaves_unmatched_request_unmodified() {
    let handlers = vec![two_route_router()];
    let (_, res) = run_chain(
        &handlers,
        &DefaultErrorHandler,
        request("GET", "/c"),
        HttpResponse::new(),
    );
    assert_eq!(res.status().0, 404);
    assert!(res.body().is_empty());
}

#[test]
fn router_matches_on_path_without_query() {
    let handlers = vec![two_route_router()];
    let (_, res) = run_chain(
        &handlers,
        &DefaultErrorHandler,
        request("GET", "/b?x=1"),
        HttpResponse::new(),
    );
    assert_eq!(res.body(), b"h2");
}

#[test]
fn router_first_matching_route_wins() {
    let mut router = Router::new();
    router.define_route(Route::all("/a", Tag("first")));
    router.define_route(Route::all("/a", Tag("second")));
    let handlers = vec![router];
    let (_, res) = run_chain(
        &handlers,
        &DefaultErrorHandler,
        request("GET", "/a"),
        HttpResponse::new(),
    );
    assert_eq!(res.body(), b"first");
}

#[test]
fn method_filter_runs_handler_on_matching_method() {
    let mut router = Router::new();
    router.define_route(Route::get("/a", Tag("got")));
    let handlers = vec![router];
    let (_, res) = run_chain(
        &handlers,
        &DefaultErrorHandler,
        request("GET", "/a"),
        HttpResponse::new(),
    );
    assert_eq!(res.body(), b"got");
}

#[test]
fn method_filter_passes_mismatching_method_through() {
    let mut router = Router::new();
    router.define_route(Route::get("/a", Tag("got")));
    let handlers = vec![router];
    let (_, res) = run_chain(
        &handlers,
        &DefaultErrorHandler,
        request("POST", "/a"),
        HttpResponse::new(),
    );
    assert_eq!(res.status().0, 404);
    assert!(res.body().is_empty());
}

#[test]
fn method_filtered_match_still_stops_the_search() {
    // the first path match wins even when its method filter passes the
    // request through: a later route with the same path is not consulted
    let mut router = Router::new();
    router.define_route(Route::get("/a", Tag("got")));
    router.define_route(Route::all("/a", Tag("any")));
    let handlers = vec![router];
    let (_, res) = run_chain(
        &handlers,
        &DefaultErrorHandler,
        request("POST", "/a"),
        HttpResponse::new(),
    );
    assert_eq!(res.status().0, 404);
}

#[test]
fn post_put_patch_delete_filters() {
    for (route, method) in [
        (Route::post("/x", Tag("m")), "POST"),
        (Route::put("/x", Tag("m")), "PUT"),
        (Route::patch("/x", Tag("m")), "PATCH"),
        (Route::delete("/x", Tag("m")), "DELETE"),
    ] {
        let mut router = Router::new();
        router.define_route(route);
        let handlers = vec![router];
        let (_, res) = run_chain(
            &handlers,
            &DefaultErrorHandler,
            request(method, "/x"),
            HttpResponse::new(),
        );
        assert_eq!(res.body(), b"m");
        let handlers2 = handlers;
        let (_, res2) = run_chain(
            &handlers2,
            &DefaultErrorHandler,
            request("HEAD", "/x"),
            HttpResponse::new(),
        );
        assert_eq!(res2.status().0, 404);
    }
}
