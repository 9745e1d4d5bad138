//! The request and response model the downloader core works on.
//!
//! A request carries a URL, a method, explicit headers, at most one tagged
//! body variant, and a metadata map of string keys to JSON-typed values.
//! Metadata is opaque to the transport layer except for the reserved proxy
//! directive key. A response carries the transport's outcome together with
//! the originally submitted URL and the request's metadata, echoed back.

use vstd::prelude::*;

verus! {

/// `serde_json::Value` carries JSON-typed request bodies and metadata values
/// through the core; the core never looks inside one.
#[verifier::external_type_specification]
#[verifier::external_body]
pub struct ExJsonValue(serde_json::Value);

/// The HTTP methods a request can carry.
#[derive(Clone, Copy, Debug, PartialEq, Eq, Structural)]
pub enum Method {
    Get,
    Post,
    Put,
    Delete,
    Head,
    Options,
    Connect,
    Patch,
    Trace,
}

impl Method {
    /// The method's standard name on the wire.
    pub open spec fn spec_name(self) -> Seq<char> {
        match self {
            Method::Get => "GET"@,
            Method::Post => "POST"@,
            Method::Put => "PUT"@,
            Method::Delete => "DELETE"@,
            Method::Head => "HEAD"@,
            Method::Options => "OPTIONS"@,
            Method::Connect => "CONNECT"@,
            Method::Patch => "PATCH"@,
            Method::Trace => "TRACE"@,
        }
    }

    /// Returns the method's standard name.
    pub fn name(&self) -> (r: &'static str)
        ensures
            r@ == self.spec_name(),
    {
        match self {
            Method::Get => "GET",
            Method::Post => "POST",
            Method::Put => "PUT",
            Method::Delete => "DELETE",
            Method::Head => "HEAD",
            Method::Options => "OPTIONS",
            Method::Connect => "CONNECT",
            Method::Patch => "PATCH",
            Method::Trace => "TRACE",
        }
    }
}

/// A metadata value: either a plain string or an arbitrary JSON value. Only
/// string values can act as directives (such as the proxy directive).
#[derive(Debug)]
pub enum MetaValue {
    Str(String),
    Json(serde_json::Value),
}

/// A request body is exactly one of three encodings: a JSON value, a flat
/// form key-value map, or raw bytes attached without reinterpretation.
#[derive(Debug)]
pub enum Body {
    Json(serde_json::Value),
    Form(Vec<(String, String)>),
    Bytes(Vec<u8>),
}

/// What the downloader consumes: one HTTP exchange to perform.
#[derive(Debug)]
pub struct Request {
    pub url: String,
    pub method: Method,
    pub headers: Vec<(String, String)>,
    pub body: Option<Body>,
    pub meta: Vec<(String, MetaValue)>,
}

/// What the downloader produces on success. `url` is the final resolved URL
/// after any redirects the transport followed; `request_url` always reflects
/// the URL that was submitted. `cached` is always false here: caching is an
/// external collaborator layered on top of this core.
#[derive(Debug)]
pub struct Response {
    pub url: String,
    pub status: u16,
    pub headers: Vec<(String, String)>,
    pub body: Vec<u8>,
    pub request_url: String,
    pub meta: Vec<(String, MetaValue)>,
    pub cached: bool,
}

/// A status code is valid when it lies in the range a well-formed HTTP
/// status line can carry.
pub open spec fn valid_status(status: u16) -> bool {
    100 <= status <= 999
}

impl Response {
    /// Every response this core assembles carries a valid status code and is
    /// never marked as served from a cache.
    pub open spec fn wf(self) -> bool {
        valid_status(self.status) && !self.cached
    }
}

/// The reserved metadata key that demands a one-off proxied client.
pub open spec fn spec_proxy_key() -> Seq<char> {
    "proxy"@
}

/// The proxy directive a metadata map carries: the string value under the
/// reserved key, taken from the first entry with that key, if that entry's
/// value is a string.
pub open spec fn spec_proxy_directive(meta: Seq<(String, MetaValue)>) -> Option<Seq<char>>
    decreases meta.len(),
{
    if meta.len() == 0 {
        None
    } else if meta[0].0@ == spec_proxy_key() {
        match meta[0].1 {
            MetaValue::Str(s) => Some(s@),
            MetaValue::Json(_) => None,
        }
    } else {
        spec_proxy_directive(meta.drop_first())
    }
}

/// Extracts the proxy directive from a metadata map, if one is present.
pub fn proxy_directive(meta: &Vec<(String, MetaValue)>) -> (r: Option<String>)
    ensures
        match r {
            Some(s) => spec_proxy_directive(meta@) == Some(s@),
            None => spec_proxy_directive(meta@) is None,
        },
{
    let key: String = String::from_str("proxy");
    let n = meta.len();
    let mut i: usize = 0;
    proof {
        assert(meta@.skip(0) =~= meta@);
    }
    while i < n
        invariant
            n == meta@.len(),
            i <= n,
            spec_proxy_directive(meta@) == spec_proxy_directive(meta@.skip(i as int)),
            key@ == spec_proxy_key(),
        decreases n - i,
    {
        proof {
            assert(meta@.skip(i as int).len() > 0);
            assert(meta@.skip(i as int)[0] == meta@[i as int]);
            assert(meta@.skip(i as int).drop_first() =~= meta@.skip(i as int + 1));
        }
        if meta[i].0 == key {
            match &meta[i].1 {
                MetaValue::Str(s) => {
                    return Some(s.clone());
                },
                MetaValue::Json(_) => {
                    return None;
                },
            }
        }
        i = i + 1;
    }
    proof {
        assert(meta@.skip(n as int).len() == 0);
    }
    None
}

} // verus!
