//! The Pub/Sub interface: requests, responses and how they are checked and answered.
pub mod effect_laws;
pub mod message_laws;
pub mod page_laws;
pub mod parser;
pub mod proto;
pub mod publisher;
pub mod request_laws;
pub mod resources;
pub mod round_trip_laws;
pub mod service_laws;
pub mod status;
pub mod streaming;
pub mod streaming_laws;
pub mod subscriber;
pub mod topic_lists;
