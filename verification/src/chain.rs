//! The handler chain: handlers run strictly in registration order, each
//! feeding its output to the next; a failing handler is recovered by the
//! error handler and the chain then continues with the recovered pair.

use vstd::prelude::*;
use vstd::string::*;
use vstd::utf8::encode_utf8;
use crate::HttpStatusStruct;
use crate::message::{HttpRequest, HttpResponse, ReqView, ResView, insert_entry};

verus! {

/// What one handler did with the pair it was given.
pub ghost enum StepView {
    /// The handler succeeded and handed this pair on.
    Proceed { req: ReqView, res: ResView },
    /// The handler failed with a cause; the error handler recovers.
    Failed { req: ReqView, res: ResView, cause: Seq<char> },
}

/// A unit of request-processing logic: a pure function of the pair it is
/// given, succeeding with a new pair or failing with a cause.
pub trait Handler: Sized {
    /// What this handler turns a pair into.
    spec fn on_call(&self, req: ReqView, res: ResView) -> StepView;

    /// Run the handler on a pair.
    fn handle(&self, req: HttpRequest, res: HttpResponse) -> (r: Result<
        (HttpRequest, HttpResponse),
        (HttpRequest, HttpResponse, String),
    >)
        ensures
            match r {
                Ok(p) => self.on_call(req@, res@) == (StepView::Proceed { req: p.0@, res: p.1@ }),
                Err(t) => self.on_call(req@, res@) == (StepView::Failed {
                    req: t.0@,
                    res: t.1@,
                    cause: t.2@,
                }),
            },
    ;
}

/// The abstract value of a failure cause.
pub ghost struct CauseView {
    pub chars: Seq<char>,
}

/// The single swappable recovery function run on a failed handler.
pub trait ErrorHandler: Sized {
    /// The pair the recovery turns a failure into.
    spec fn on_error(&self, req: ReqView, res: ResView, cause: CauseView) -> (ReqView, ResView);

    /// Recover from a handler failure.
    fn handle_error(&self, req: HttpRequest, res: HttpResponse, cause: String) -> (r: (
        HttpRequest,
        HttpResponse,
    ))
        ensures
            (r.0@, r.1@) == self.on_error(req@, res@, (CauseView { chars: cause@ })),
    ;
}

/// A handler's outcome with a failure already recovered.
pub open spec fn step_result<E: ErrorHandler>(eh: E, step: StepView) -> (ReqView, ResView) {
    match step {
        StepView::Proceed { req, res } => (req, res),
        StepView::Failed { req, res, cause } => eh.on_error(req, res, CauseView { chars: cause }),
    }
}

/// The pair a chain turns an initial pair into: handlers run in order,
/// each one's (recovered) output feeding the next.
pub open spec fn chain_result<H: Handler, E: ErrorHandler>(
    handlers: Seq<H>,
    eh: E,
    req: ReqView,
    res: ResView,
) -> (ReqView, ResView)
    decreases handlers.len(),
{
    if handlers.len() == 0 {
        (req, res)
    } else {
        let next = step_result(eh, handlers[0].on_call(req, res));
        chain_result(handlers.drop_first(), eh, next.0, next.1)
    }
}

/// Run every handler in order, recovering failures with the error handler.
pub fn run_chain<H: Handler, E: ErrorHandler>(
    handlers: &Vec<H>,
    error_handler: &E,
    req: HttpRequest,
    res: HttpResponse,
) -> (r: (HttpRequest, HttpResponse))
    ensures
        (r.0@, r.1@) == chain_result(handlers@, *error_handler, req@, res@),
{
    let ghost r0 = req@;
    let ghost s0 = res@;
    let n = handlers.len();
    let mut req = req;
    let mut res = res;
    let mut i: usize = 0;
    proof {
        assert(handlers@.skip(0) =~= handlers@);
    }
    while i < n
        invariant
            n == handlers@.len(),
            i <= n,
            chain_result(handlers@, *error_handler, r0, s0) == chain_result(
                handlers@.skip(i as int),
                *error_handler,
                req@,
                res@,
            ),
        decreases n - i,
    {
        proof {
            assert(handlers@.skip(i as int)[0] == handlers@[i as int]);
            assert(handlers@.skip(i as int).drop_first() =~= handlers@.skip(i as int + 1));
        }
        match handlers[i].handle(req, res) {
            Ok(p) => {
                req = p.0;
                res = p.1;
            },
            Err(t) => {
                let rec = error_handler.handle_error(t.0, t.1, t.2);
                req = rec.0;
                res = rec.1;
            },
        }
        i = i + 1;
    }
    proof {
        assert(handlers@.skip(n as int) =~= Seq::<H>::empty());
    }
    (req, res)
}

/// An empty chain leaves its pair untouched: with the default response in,
/// the 404 "nothing matched" sentinel is what comes out.
pub proof fn lemma_empty_chain<H: Handler, E: ErrorHandler>(
    handlers: Seq<H>,
    eh: E,
    req: ReqView,
    res: ResView,
)
    requires
        handlers.len() == 0,
    ensures
        chain_result(handlers, eh, req, res) == (req, res),
{
}

/// The chain runs strictly in order and survives failures: the first
/// handler's outcome, with a failure recovered by the error handler, is
/// what the rest of the chain starts from; a failing handler never aborts
/// the handlers after it.
pub proof fn lemma_chain_step<H: Handler, E: ErrorHandler>(
    handlers: Seq<H>,
    eh: E,
    req: ReqView,
    res: ResView,
)
    requires
        handlers.len() > 0,
    ensures
        chain_result(handlers, eh, req, res) == chain_result(
            handlers.drop_first(),
            eh,
            step_result(eh, handlers[0].on_call(req, res)).0,
            step_result(eh, handlers[0].on_call(req, res)).1,
        ),
{
}

/// A chain of a status-setting handler and then a body-setting handler
/// yields, from any starting pair, a response with that status and that
/// body, everything else as the second handler left it.
pub proof fn lemma_status_then_body_chain<H: Handler, E: ErrorHandler>(
    h1: H,
    h2: H,
    eh: E,
    code: int,
    reason: Seq<char>,
    body: Seq<u8>,
    req: ReqView,
    res: ResView,
)
    requires
        forall|q: ReqView, s: ResView| #[trigger] h1.on_call(q, s) == (StepView::Proceed {
            req: q,
            res: ResView { headers: s.headers, body: s.body, code: code, reason: reason },
        }),
        forall|q: ReqView, s: ResView| #[trigger] h2.on_call(q, s) == (StepView::Proceed {
            req: q,
            res: ResView { headers: s.headers, body: body, code: s.code, reason: s.reason },
        }),
    ensures
        chain_result(seq![h1, h2], eh, req, res) == ((
            req,
            ResView { headers: res.headers, body: body, code: code, reason: reason },
        )),
{
    let hs = seq![h1, h2];
    let mid = ResView { headers: res.headers, body: res.body, code: code, reason: reason };
    assert(hs[0] == h1);
    assert(hs.drop_first() =~= seq![h2]);
    assert(seq![h2][0] == h2);
    assert(seq![h2].drop_first() =~= Seq::<H>::empty());
    assert(h1.on_call(req, res) == (StepView::Proceed { req, res: mid }));
    assert(chain_result(hs, eh, req, res) == chain_result(seq![h2], eh, req, mid));
    let fin = ResView { headers: mid.headers, body: body, code: mid.code, reason: mid.reason };
    assert(h2.on_call(req, mid) == (StepView::Proceed { req, res: fin }));
    assert(chain_result(seq![h2], eh, req, mid) == chain_result(Seq::<H>::empty(), eh, req, fin));
    assert(chain_result(Seq::<H>::empty(), eh, req, fin) == (req, fin));
}

/// A handler that fails is recovered by the default error handler — a 500
/// response whose body names the cause — and the chain proceeds to the
/// handlers after it with that recovered pair.
pub proof fn lemma_failure_recovered_and_chain_continues<H: Handler>(
    handlers: Seq<H>,
    req: ReqView,
    res: ResView,
    q2: ReqView,
    s2: ResView,
    cause: Seq<char>,
)
    requires
        handlers.len() > 0,
        handlers[0].on_call(req, res) == (StepView::Failed { req: q2, res: s2, cause }),
    ensures
        chain_result(handlers, DefaultErrorHandler, req, res) == chain_result(
            handlers.drop_first(),
            DefaultErrorHandler,
            q2,
            ResView {
                headers: insert_entry(s2.headers, "Content-Type"@, "text/plain"@),
                body: default_error_body(cause),
                code: 500,
                reason: "Internal Server Error"@,
            },
        ),
{
    lemma_chain_step(handlers, DefaultErrorHandler, req, res);
}

/// The body the default error handler writes: a diagnostic naming the
/// cause.
pub open spec fn default_error_body(cause: Seq<char>) -> Seq<u8> {
    encode_utf8("Unhandled exception: "@ + cause)
}

/// The built-in recovery: status 500, a plain-text content type, and a
/// diagnostic body that carries the cause.
pub struct DefaultErrorHandler;

impl ErrorHandler for DefaultErrorHandler {
    open spec fn on_error(&self, req: ReqView, res: ResView, cause: CauseView) -> (
        ReqView,
        ResView,
    ) {
        (
            req,
            ResView {
                headers: insert_entry(res.headers, "Content-Type"@, "text/plain"@),
                body: default_error_body(cause.chars),
                code: 500,
                reason: "Internal Server Error"@,
            },
        )
    }

    fn handle_error(&self, req: HttpRequest, res: HttpResponse, cause: String) -> (r: (
        HttpRequest,
        HttpResponse,
    )) {
        let mut res = res;
        res.set_status(HttpStatusStruct(500, "Internal Server Error"));
        res.insert_header(String::from_str("Content-Type"), String::from_str("text/plain"));
        let mut t = String::from_str("Unhandled exception: ");
        t.append(cause.as_str());
        res.text(t);
        (req, res)
    }
}

/// The default error body always ends in the encoded cause: recovering a
/// failure never loses what the failing handler reported.
pub proof fn lemma_default_error_body_carries_cause(cause: Seq<char>)
    ensures
        default_error_body(cause) == encode_utf8("Unhandled exception: "@) + encode_utf8(cause),
{
    lemma_encode_utf8_concat("Unhandled exception: "@, cause);
}

/// UTF-8 encoding distributes over concatenation.
pub proof fn lemma_encode_utf8_concat(a: Seq<char>, b: Seq<char>)
    ensures
        encode_utf8(a + b) == encode_utf8(a) + encode_utf8(b),
    decreases a.len(),
{
    if a.len() == 0 {
        assert(a + b =~= b);
        assert(encode_utf8(a) + encode_utf8(b) =~= encode_utf8(b));
    } else {
        lemma_encode_utf8_concat(a.drop_first(), b);
        assert((a + b).drop_first() =~= a.drop_first() + b);
        assert((a + b)[0] == a[0]);
        assert(encode_utf8(a) + encode_utf8(b) =~= encode_utf8(a + b));
    }
}

} // verus!
