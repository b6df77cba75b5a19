//! A fixed-size worker pool whose dispatch and shutdown decisions are
//! verified, and the request routing of a single-file HTTP server built on it.
pub mod http;
pub mod pool;
