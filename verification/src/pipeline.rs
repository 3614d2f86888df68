//! Per-connection orchestration: what happens to one connection's bytes
//! after they are read — decode into a request, run the handler chain from
//! the default response, encode the response for writing back.

use vstd::prelude::*;
use crate::chain::{ErrorHandler, Handler, chain_result, run_chain};
use crate::codec::{HttpParseError, encode_response, encoded_head, headers_of};
use crate::message::{HttpRequest, HttpResponse, ReqView, default_res_view};
use crate::text::split_on;

verus! {

/// Whether headlines hold a parseable request line: at least method, URI
/// and version, split on single spaces.
pub open spec fn decode_ok(lines: Seq<Seq<char>>) -> bool {
    lines.len() > 0 && split_on(lines[0], ' ').len() >= 3
}

/// The request that headlines and body bytes decode into.
pub open spec fn decoded_request(lines: Seq<Seq<char>>, body: Seq<u8>) -> ReqView {
    ReqView {
        headers: headers_of(lines.skip(1)),
        body: body,
        method: split_on(lines[0], ' ')[0],
        uri: split_on(lines[0], ' ')[1],
        version: split_on(lines[0], ' ')[2],
    }
}

/// One connection's computation: decode the headlines and body into a
/// request, run every handler in order from the default 404 response, and
/// serialize the outcome — the head as text, the body as the bytes to
/// write after it. Fails exactly when no request line can be parsed.
pub fn process_connection<H: Handler, E: ErrorHandler>(
    headlines: Vec<String>,
    body: Vec<u8>,
    handlers: &Vec<H>,
    error_handler: &E,
) -> (r: Result<(String, Vec<u8>), HttpParseError>)
    ensures
        r is Ok <==> decode_ok(headlines.deep_view()),
        (r matches Ok(out) ==> {
            let pair = chain_result(
                handlers@,
                *error_handler,
                decoded_request(headlines.deep_view(), body@),
                default_res_view(),
            );
            &&& out.0@ == encoded_head(pair.0.version, pair.1)
            &&& out.1@ == pair.1.body
        }),
        (r matches Err(e) ==> {
            &&& (e == HttpParseError::MissingRequestLine <==> headlines.deep_view().len() == 0)
            &&& (e == HttpParseError::MalformedRequestLine <==> headlines.deep_view().len() > 0
                && !decode_ok(headlines.deep_view()))
        }),
{
    let ghost dv = headlines.deep_view();
    let ghost bv = body@;
    let req = match HttpRequest::new(headlines, body) {
        Ok(q) => q,
        Err(e) => {
            return Err(e);
        },
    };
    proof {
        assert(req@ == decoded_request(dv, bv));
    }
    let res = HttpResponse::new();
    let (q, s) = run_chain(handlers, error_handler, req, res);
    let out = encode_response(q.version(), s);
    Ok(out)
}

} // verus!
