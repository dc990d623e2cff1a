//! Routing: compiled path patterns and registered endpoints.

pub mod pattern;
pub mod endpoint;
