//! A small HTTP/1.0 probe: URL splitting, request text, response
//! splitting and the statistics gathered over repeated probes.
pub mod text;
pub mod url;
pub mod response;
pub mod status;
pub mod stats;
