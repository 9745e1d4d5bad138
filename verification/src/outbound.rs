//! Building the outgoing request.
//!
//! Given a request, exactly one body-encoding strategy applies, decided once
//! from the tagged body variant: a JSON body is serialized, a form body is
//! form-encoded, raw bytes are attached as-is, and an absent body stays
//! absent. The body variant derives a default content header; explicit
//! request headers take precedence over that default for an overlapping
//! name. If the request's metadata demands a proxy, a one-off proxied client
//! replaces the pooled client for this call only, and a proxy client that
//! cannot be built fails the call — the request never silently falls back to
//! the pooled client.

use vstd::prelude::*;

use crate::errors::DownloadError;
use crate::form::{encode_form, spec_form_encoding};
use crate::headers::{has_header_name, spec_has_header_name};
use crate::model::{spec_proxy_directive, Body, Method, Request};
use crate::pool::{build_proxy_client, clone_client, parse_host, proxy_url_accepted, url_parse_ok};

verus! {

/// What `serde_json::to_vec` produces for a JSON value: a function of the
/// value alone.
pub uninterp spec fn json_encoding_of(v: serde_json::Value) -> Seq<u8>;

/// Relies on `serde_json::to_vec` applied to a `serde_json::Value`: the
/// encoding depends on the value alone, and serializing a JSON value into a
/// byte vector does not fail.
#[verifier::external_body]
pub(crate) fn encode_json(v: &serde_json::Value) -> (r: Vec<u8>)
    ensures
        r@ == json_encoding_of(*v),
{
    serde_json::to_vec(v).expect("serializing a JSON value does not fail")
}

/// The bytes the outgoing request carries for each body variant: the JSON
/// encoding, the form encoding, the raw bytes unchanged, or no body at all.
pub open spec fn spec_body_bytes(body: Option<Body>) -> Option<Seq<u8>> {
    match body {
        None => None,
        Some(Body::Json(v)) => Some(json_encoding_of(v)),
        Some(Body::Form(ps)) => Some(spec_form_encoding(ps@)),
        Some(Body::Bytes(bs)) => Some(bs@),
    }
}

/// The content header a body variant derives: JSON and form bodies name
/// their encoding; raw bytes and an absent body derive none.
pub open spec fn spec_default_content_type(body: Option<Body>) -> Option<Seq<char>> {
    match body {
        Some(Body::Json(_)) => Some("application/json"@),
        Some(Body::Form(_)) => Some("application/x-www-form-urlencoded"@),
        _ => None,
    }
}

/// Encodes the request body once, by its tag. A request without a body
/// yields no bytes.
pub fn encode_body(body: &Option<Body>) -> (r: Option<Vec<u8>>)
    ensures
        match r {
            Some(bs) => spec_body_bytes(*body) == Some(bs@),
            None => spec_body_bytes(*body) is None,
        },
{
    match body {
        None => None,
        Some(Body::Json(v)) => Some(encode_json(v)),
        Some(Body::Form(ps)) => Some(encode_form(ps)),
        Some(Body::Bytes(bs)) => {
            let mut out: Vec<u8> = Vec::new();
            let n = bs.len();
            let mut i: usize = 0;
            while i < n
                invariant
                    n == bs@.len(),
                    i <= n,
                    out@ == bs@.take(i as int),
                decreases n - i,
            {
                out.push(bs[i]);
                proof {
                    assert(bs@.take(i as int + 1) =~= bs@.take(i as int).push(bs@[i as int]));
                }
                i = i + 1;
            }
            proof {
                assert(bs@.take(n as int) =~= bs@);
            }
            Some(out)
        },
    }
}

/// How the outgoing header collection relates to the request's explicit
/// headers: the explicit headers stand unchanged, and the body-derived
/// content header is appended exactly when the body derives one and no
/// explicit header already carries that name (up to ASCII case).
pub open spec fn headers_built(
    out: Seq<(String, String)>,
    req_headers: Seq<(String, String)>,
    body: Option<Body>,
) -> bool {
    match spec_default_content_type(body) {
        Some(ct) => if spec_has_header_name(req_headers, "content-type"@) {
            out == req_headers
        } else {
            out.len() == req_headers.len() + 1 && out.take(req_headers.len() as int)
                == req_headers && out.last().0@ == "content-type"@ && out.last().1@ == ct
        },
        None => out == req_headers,
    }
}

/// Assembles the outgoing headers: the caller's headers, with the
/// body-derived content header appended unless a caller-supplied header of
/// the same name overrides it.
pub fn outgoing_headers(req_headers: &Vec<(String, String)>, body: &Option<Body>) -> (r: Vec<
    (String, String),
>)
    ensures
        headers_built(r@, req_headers@, *body),
{
    let mut out: Vec<(String, String)> = Vec::new();
    let n = req_headers.len();
    let mut i: usize = 0;
    while i < n
        invariant
            n == req_headers@.len(),
            i <= n,
            out@ == req_headers@.take(i as int),
        decreases n - i,
    {
        let e = &req_headers[i];
        out.push((e.0.clone(), e.1.clone()));
        proof {
            assert(req_headers@.take(i as int + 1) =~= req_headers@.take(i as int).push(
                req_headers@[i as int],
            ));
        }
        i = i + 1;
    }
    proof {
        assert(req_headers@.take(n as int) =~= req_headers@);
    }
    let ct_value: Option<String> = match body {
        Some(Body::Json(_)) => Some(String::from_str("application/json")),
        Some(Body::Form(_)) => Some(String::from_str("application/x-www-form-urlencoded")),
        _ => None,
    };
    match ct_value {
        Some(ct) => {
            let ct_name = String::from_str("content-type");
            if !has_header_name(req_headers, &ct_name) {
                let ghost before = out@;
                out.push((ct_name, ct));
                proof {
                    assert(out@.take(req_headers@.len() as int) =~= before);
                    assert(out@.last().0@ == "content-type"@);
                }
            }
            out
        },
        None => out,
    }
}

/// One exchange, ready for the transport: the client to use, the wire parts
/// of the request, and whether the client is a one-off proxied client rather
/// than the pooled one.
#[derive(Debug)]
pub struct PreparedRequest {
    pub client: reqwest::Client,
    pub uses_proxy: bool,
    pub method: Method,
    pub url: String,
    pub headers: Vec<(String, String)>,
    pub body: Option<Vec<u8>>,
}

/// Builds the outgoing exchange for a request against the client resolved
/// from the host pool. A URL that does not parse is rejected with the
/// URL-parse error. A proxy directive in the metadata replaces the pooled
/// client with a one-off proxied client for this call only, and a proxy
/// client that cannot be built fails the call with a transport error — the
/// pooled client is never used as a fallback.
pub fn prepare(req: &Request, pooled: &reqwest::Client, timeout_ms: u64) -> (r: Result<
    PreparedRequest,
    DownloadError,
>)
    ensures
        !url_parse_ok(req.url@) ==> (r matches Err(e) && e is UrlParse),
        url_parse_ok(req.url@) && spec_proxy_directive(req.meta@) is None ==> r is Ok,
        r matches Err(e) ==> !url_parse_ok(req.url@) || (spec_proxy_directive(req.meta@) is Some
            && e is Transport),
        r matches Ok(p) ==> {
            &&& p.uses_proxy == (spec_proxy_directive(req.meta@) is Some)
            &&& !p.uses_proxy ==> p.client == *pooled
            &&& p.uses_proxy ==> proxy_url_accepted(spec_proxy_directive(req.meta@)->Some_0)
            &&& p.method == req.method
            &&& p.url@ == req.url@
            &&& headers_built(p.headers@, req.headers@, req.body)
            &&& match p.body {
                Some(bs) => spec_body_bytes(req.body) == Some(bs@),
                None => spec_body_bytes(req.body) is None,
            }
        },
{
    if parse_host(&req.url).is_none() {
        return Err(DownloadError::UrlParse(String::from_str("invalid request URL")));
    }
    let (client, uses_proxy): (reqwest::Client, bool) = match crate::model::proxy_directive(
        &req.meta,
    ) {
        Some(p) => match build_proxy_client(&p, timeout_ms) {
            Ok(c) => (c, true),
            Err(e) => {
                return Err(e);
            },
        },
        None => (clone_client(pooled), false),
    };
    let body = encode_body(&req.body);
    let headers = outgoing_headers(&req.headers, &req.body);
    Ok(
        PreparedRequest {
            client,
            uses_proxy,
            method: req.method,
            url: req.url.clone(),
            headers,
            body,
        },
    )
}

} // verus!
