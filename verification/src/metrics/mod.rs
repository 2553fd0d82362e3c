//! The metrics that the server exposes.
pub mod encoder;
pub mod http;
pub mod render;
pub mod render_laws;
pub mod service;
