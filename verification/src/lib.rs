//! A small, embeddable HTTP/1.x server engine with a verified core: the
//! wire codec, the request/response model, the handler chain, and the
//! routing and static-file helpers are specified and proved here. The
//! listening socket, the worker threads and the file reads stand outside
//! the library and hand it plain values.

pub mod chain;
pub mod codec;
pub mod message;
pub mod pipeline;
pub mod router;
pub mod static_files;
pub mod text;
pub mod uri;

pub use chain::{CauseView, DefaultErrorHandler, ErrorHandler, Handler, StepView, run_chain};
pub use codec::{HttpParseError, content_length, encode_response, split_header_line};
pub use message::{HttpRequest, HttpResponse, StringMap};
pub use pipeline::process_connection;
pub use router::{MethodFilter, Route, Router, Routing};
pub use static_files::{ServeStatic, apply_static_file, static_file_target};
pub use uri::{MoreDetailsRequest, break_request_uri};

use vstd::prelude::*;

verus! {

/// HTTP status: a code paired with its reason phrase.
pub struct HttpStatusStruct(pub i32, pub &'static str);

} // verus!
