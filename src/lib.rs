//! Resilient HTTP access to a package registry: backoff, retry
//! classification, a response cache with HTTP freshness rules, the request
//! pipeline that composes them, and the client that binds a registry URL.
pub mod backoff;
pub mod retry;
pub mod cache;
pub mod pipeline;
pub mod client;
pub mod directives;
