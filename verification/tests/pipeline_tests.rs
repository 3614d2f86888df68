use speed_rs::{
    DefaultErrorHandler, Handler, HttpParseError, HttpRequest, HttpResponse, HttpStatusStruct,
    StepView, process_connection,
};
use speed_rs::message::{ReqView, ResView};

enum Step {
    Ok200WithBody(&'static str),
    EchoBodyLength,
    Fail(&'static str),
}

impl Handler for Step {
    // ghost member of the verified trait; never run
    fn on_call(&self, _: ReqView, _: ResView) -> StepView {
        unreachable!()
    }

    fn handle(
        &self,
        req: HttpRequest,
        mut res: HttpResponse,
    ) -> Result<(HttpRequest, HttpResponse), (HttpRequest, HttpResponse, String)> {
        match self {
            Step::Ok200WithBody(t) => {
                res.set_status(HttpStatusStruct(200, "OK"));
                res.insert_header("Content-Type".to_string(), "text/plain".to_string());
                res.text(t.to_string());
                Ok((req, res))
            }
            Step::EchoBodyLength => {
                res.set_status(HttpStatusStruct(200, "OK"));
                res.text(format!("{}", req.body().len()));
                Ok((req, res))
            }
            Step::Fail(cause) => Err((req, res, cause.to_string())),
        }
    }
}

fn lines(v: &[&str]) -> Vec<String> {
    v.iter().map(|s| s.to_string()).collect()
}

#[test]
fn pipeline_empty_chain_serializes_the_404_sentinel() {
    let handlers: Vec<Step> = Vec::new();
    let (head, body) = process_connection(
        lines(&["GET / HTTP/1.1"]),
        Vec::new(),
        &handlers,
        &DefaultErrorHandler,
    )
    .unwrap();
    assert_eq!(
        head,
        "HTTP/1.1 404 Not Found\nContent-Type: application/octet-stream\nContent-Length: 0\n\n"
    );
    assert!(body.is_empty());
}

#[test]
fn pipeline_handler_response_is_serialized() {
    let handlers = vec![Step::Ok200WithBody("hi")];
    let (head, body) = process_connection(
        lines(&["GET /x HTTP/1.1"]),
        Vec::new(),
        &handlers,
        &DefaultErrorHandler,
    )
    .unwrap();
    assert_eq!(
        head,
        "HTTP/1.1 200 OK\nContent-Type: text/plain\nContent-Length: 2\n\n"
    );
    assert_eq!(body, b"hi");
}

#[test]
fn pipeline_hands_body_bytes_to_handlers() {
    let handlers = vec![Step::EchoBodyLength];
    let (_, body) = process_connection(
        lines(&["POST / HTTP/1.1", "Content-Length: 3"]),
        b"abc".to_vec(),
        &handlers,
        &DefaultErrorHandler,
    )
    .unwrap();
    assert_eq!(body, b"3");
}

#[test]
fn pipeline_recovers_handler_failure() {
    let handlers = vec![Step::Fail("boom")];
    let (head, body) = process_connection(
        lines(&["GET / HTTP/1.1"]),
        Vec::new(),
        &handlers,
        &DefaultErrorHandler,
    )
    .unwrap();
    assert!(head.contains("HTTP/1.1 500 Internal Server Error\n"));
    assert!(head.contains("Content-Type: text/plain\n"));
    assert_eq!(body, b"Unhandled exception: boom");
}

#[test]
fn pipeline_rejects_empty_headlines() {
    let handlers: Vec<Step> = Vec::new();
    let r = process_connection(Vec::new(), Vec::new(), &handlers, &DefaultErrorHandler);
    assert!(matches!(r, Err(HttpParseError::MissingRequestLine)));
}

#[test]
fn pipeline_rejects_short_request_line() {
    let handlers: Vec<Step> = Vec::new();
    let r = process_connection(
        lines(&["BROKEN"]),
        Vec::new(),
        &handlers,
        &DefaultErrorHandler,
    );
    assert!(matches!(r, Err(HttpParseError::MalformedRequestLine)));
}
