//! Pushing messages to HTTP endpoints.
pub mod metrics;
pub mod push_loop;
pub mod registry;
