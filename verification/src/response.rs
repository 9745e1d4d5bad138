//! Normalizing a transport outcome into the response model.
//!
//! On a successful exchange the transport reports the final resolved URL
//! (after any redirects), a numeric status code, the response headers, and
//! the fully buffered body. This module re-validates the status code and
//! assembles the response together with the originally submitted URL and the
//! request's metadata, echoed back unchanged.

use vstd::prelude::*;

use crate::errors::DownloadError;
use crate::model::{valid_status, MetaValue, Response};

verus! {

/// Checks that a status code lies in the valid range; the distinct
/// invalid-status error carries the offending value.
pub fn validate_status(status: u16) -> (r: Result<u16, DownloadError>)
    ensures
        r is Ok <==> valid_status(status),
        r matches Ok(s) ==> s == status,
        r matches Err(e) ==> e matches DownloadError::InvalidStatus(s) && s == status,
{
    if 100 <= status && status <= 999 {
        Ok(status)
    } else {
        Err(DownloadError::InvalidStatus(status))
    }
}

/// Assembles the response for one exchange. The submitted URL and the
/// metadata pass through unchanged whatever the transport resolved, the
/// result is never marked cached, and an out-of-range status value is
/// rejected with the invalid-status error instead of producing a malformed
/// response.
pub fn normalize_response(
    request_url: String,
    meta: Vec<(String, MetaValue)>,
    resolved_url: String,
    status: u16,
    headers: Vec<(String, String)>,
    body: Vec<u8>,
) -> (r: Result<Response, DownloadError>)
    ensures
        r is Ok <==> valid_status(status),
        r matches Ok(resp) ==> resp.wf() && resp.request_url@ == request_url@ && resp.meta
            == meta && resp.url@ == resolved_url@ && resp.status == status && resp.headers
            == headers && resp.body == body && !resp.cached,
        r matches Err(e) ==> e matches DownloadError::InvalidStatus(s) && s == status,
{
    let status = match validate_status(status) {
        Ok(s) => s,
        Err(e) => {
            return Err(e);
        },
    };
    Ok(
        Response {
            url: resolved_url,
            status,
            headers,
            body,
            request_url,
            meta,
            cached: false,
        },
    )
}

} // verus!
