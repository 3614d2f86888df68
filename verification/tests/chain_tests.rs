use speed_rs::{
    DefaultErrorHandler, ErrorHandler, Handler, HttpRequest, HttpResponse, HttpStatusStruct,
    CauseView, StepView, run_chain,
};
use speed_rs::message::{ReqView, ResView};

enum TestHandler {
    SetStatus(i32, &'static str),
    SetBody(&'static str),
    Fail(&'static str),
}

impl Handler for TestHandler {
    // ghost member of the verified trait; never run
    fn on_call(&self, _: ReqView, _: ResView) -> StepView {
        unreachable!()
    }

    fn handle(
        &self,
        req: HttpRequest,
        mut res: HttpResponse,
    ) -> Result<(HttpRequest, HttpResponse), (HttpRequest, HttpResponse, String)> {
        match self {
            TestHandler::SetStatus(code, reason) => {
                res.set_status(HttpStatusStruct(*code, reason));
                Ok((req, res))
            }
            TestHandler::SetBody(t) => {
                res.text(t.to_string());
                Ok((req, res))
            }
            TestHandler::Fail(cause) => Err((req, res, cause.to_string())),
        }
    }
}

fn request() -> HttpRequest {
    HttpRequest::new(vec!["GET / HTTP/1.1".to_string()], Vec::new()).unwrap()
}

#[test]
fn chain_runs_handlers_in_order() {
    let handlers = vec![
        TestHandler::SetStatus(200, "OK"),
        TestHandler::SetBody("ok"),
    ];
    let (_, res) = run_chain(&handlers, &DefaultErrorHandler, request(), HttpResponse::new());
    assert_eq!(res.status().0, 200);
    assert_eq!(res.status().1, "OK");
    assert_eq!(res.body(), b"ok");
}

#[test]
fn empty_chain_yields_default_404() {
    let handlers: Vec<TestHandler> = Vec::new();
    let (_, res) = run_chain(&handlers, &DefaultErrorHandler, request(), HttpResponse::new());
    assert_eq!(res.status().0, 404);
    assert_eq!(res.status().1, "Not Found");
    assert!(res.body().is_empty());
    assert_eq!(res.headers().len(), 0);
}

#[test]
fn failing_handler_triggers_default_error_handler() {
    let handlers = vec![TestHandler::Fail("boom")];
    let (_, res) = run_chain(&handlers, &DefaultErrorHandler, request(), HttpResponse::new());
    assert_eq!(res.status().0, 500);
    assert_eq!(res.status().1, "Internal Server Error");
    assert_eq!(res.headers().get("Content-Type").unwrap(), "text/plain");
    let body = res.body_string().unwrap();
    assert!(body.contains("boom"));
    assert_eq!(body, "Unhandled exception: boom");
}

#[test]
fn chain_continues_after_recovered_failure() {
    let handlers = vec![
        TestHandler::Fail("boom"),
        TestHandler::SetStatus(200, "OK"),
    ];
    let (_, res) = run_chain(&handlers, &DefaultErrorHandler, request(), HttpResponse::new());
    // the later handler ran on the recovered pair
    assert_eq!(res.status().0, 200);
    // and the recovered diagnostic body was carried forward
    assert!(res.body_string().unwrap().contains("boom"));
}

struct TeapotRecovery;

impl ErrorHandler for TeapotRecovery {
    // ghost member of the verified trait; never run
    fn on_error(&self, _: ReqView, _: ResView, _: CauseView) -> (ReqView, ResView) {
        unreachable!()
    }

    fn handle_error(
        &self,
        req: HttpRequest,
        mut res: HttpResponse,
        _cause: String,
    ) -> (HttpRequest, HttpResponse) {
        res.set_status(HttpStatusStruct(418, "I'm a teapot"));
        (req, res)
    }
}

#[test]
fn error_handler_is_swappable() {
    let handlers = vec![TestHandler::Fail("boom")];
    let (_, res) = run_chain(&handlers, &TeapotRecovery, request(), HttpResponse::new());
    assert_eq!(res.status().0, 418);
}
