//! Authorisation core of a multi-tenant proxy in front of a time-series
//! metrics store.
//!
//! A request carries an opaque bearer token and names a metric. The token is
//! resolved to a registered client, the client's allow-list of glob patterns
//! decides whether the metric may be touched, and the caller is told either to
//! answer at once or to forward the request to the store and relay its reply.

pub mod config;
pub mod digest;
pub mod matching;
pub mod proxy;
