//! Verified core of a window-usage tracker: the parsers, decision rules and
//! aggregations behind the tracking daemon and its HTTP API.
pub mod text;
pub mod paths;
pub mod server;
pub mod daemon;
