//! The typed failures a download can surface.

use vstd::prelude::*;

verus! {

/// One download fails in exactly one of four ways, each kept distinct so a
/// caller can inspect which stage failed: parsing the request URL, the
/// transport exchange itself (connection, protocol, or proxy-client
/// construction), a status code outside the valid range, or reading the
/// response body after the headers arrived.
#[derive(Debug)]
pub enum DownloadError {
    /// The request's URL string cannot be parsed as a URL.
    UrlParse(String),
    /// Connection, protocol, or proxy-client construction failure.
    Transport(String),
    /// The transport reported a status code outside the valid range.
    InvalidStatus(u16),
    /// Failure while reading the response body.
    BodyIo(String),
}

impl DownloadError {
    /// A short stable label for the error kind, usable where the error is
    /// reported as text.
    pub fn kind_label(&self) -> (r: &'static str)
        ensures
            r@ == self.spec_kind_label(),
    {
        match self {
            DownloadError::UrlParse(_) => "url parse error",
            DownloadError::Transport(_) => "transport error",
            DownloadError::InvalidStatus(_) => "invalid status code",
            DownloadError::BodyIo(_) => "body read error",
        }
    }

    /// The label each kind carries.
    pub open spec fn spec_kind_label(&self) -> Seq<char> {
        match self {
            DownloadError::UrlParse(_) => "url parse error"@,
            DownloadError::Transport(_) => "transport error"@,
            DownloadError::InvalidStatus(_) => "invalid status code"@,
            DownloadError::BodyIo(_) => "body read error"@,
        }
    }
}

} // verus!
