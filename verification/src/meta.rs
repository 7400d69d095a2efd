use vstd::prelude::*;

verus! {

/// HTTP request method, captured as a plain value at construction time.
#[derive(Clone, PartialEq, Eq, Debug)]
pub enum Method {
    Get,
    Post,
    Put,
    Delete,
    Head,
    Options,
    Patch,
    Trace,
    Connect,
    Other(String),
}

/// HTTP protocol version, captured as a plain value at construction time.
#[derive(Clone, Copy, PartialEq, Eq, Structural, Debug)]
pub enum Version {
    Http09,
    Http10,
    Http11,
    H2,
    H3,
}

/// Request metadata copied out of the incoming request before any extraction
/// step consumes the request's internal parts; immutable afterwards. Header
/// names may repeat: the collection is multi-valued.
pub struct RequestMetadata {
    pub headers: Vec<(String, String)>,
    pub method: Method,
    pub uri: String,
    pub version: Version,
}

} // verus!
