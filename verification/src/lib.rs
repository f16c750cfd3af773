//! A caching DNS resolver library: domain-name normalization, suffix
//! filtering, TTL policy, positive/negative caching with a two-hit negative
//! policy, local zone lookup, a wire codec for cached answers, and the
//! decision logic of the query-processing pipeline.
pub mod cache;
pub mod config;
pub mod dname;
pub mod filters;
pub mod forwarder;
pub mod handler;
pub mod ipparse;
pub mod recursor;
pub mod store;
pub mod wire;
pub mod zones;
