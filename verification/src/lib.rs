//! A verified core for a URL-shortening service.
//!
//! A monotone counter allocates one integer per shortened URL, a reversible
//! hashids encoding turns that integer into a short identifier, and a record
//! store keeps the issued records together with per-redirect analytics
//! events. The identifier-allocation path and the analytics rollup are
//! verified; the HTTP routing and the physical database connection are
//! collaborators outside this crate.

pub mod analytics;
mod clock;
pub mod codec;
pub mod config;
pub mod request;
pub mod shortener;
pub mod store;
pub mod url;
