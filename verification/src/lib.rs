//! Core of a pooled HTTP downloader for a web-crawling engine.
//!
//! The library holds the verified logic of one HTTP exchange: deciding which
//! transport client a request uses (a shared per-host pool with double-check
//! insertion, or a one-off proxied client demanded by request metadata),
//! encoding the tagged request body (JSON, form, raw bytes) together with its
//! derived content header, and normalizing the transport's outcome into one
//! response type or a typed error. The asynchronous transport itself stands
//! outside the library; it receives plain prepared values and hands plain
//! values back.

pub mod errors;
pub mod form;
pub mod headers;
pub mod model;
pub mod outbound;
pub mod pool;
pub mod response;
