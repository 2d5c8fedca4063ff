//! The admin endpoint of a cache benchmark: request parsing, routing, response
//! framing, the Prometheus exposition text, metric snapshots and the decisions
//! of the snapshot recorder.

pub mod text;
pub mod request;
pub mod response;
pub mod exposition;
pub mod labels;
pub mod registry;
pub mod scrape;
pub mod snapshot;
pub mod recorder;
pub mod server;
