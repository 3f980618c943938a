//! A small HTTP liveness responder: request parsing, header validation,
//! routing, the per-connection read machines and worker dispatch, each with
//! a verified contract. Sockets, threads and clocks stay with the caller.
pub mod connection;
pub mod pool;
pub mod request;
pub mod response;
pub mod text;

pub use connection::{body_timeout_duration, BodyDrain, BodyStep, HeaderReader, HeaderStep, ReadEvent};
pub use pool::{compute_pool_size, drop_notice, Dispatcher, Offer, WorkQueue};
pub use request::{
    client_address, extract_content_length, has_chunked_transfer_encoding, inspect, log_entry,
    parse_request_line, HeaderError, Verdict,
};
pub use response::{route, Reply, Route, Status};
pub use text::sanitize;
