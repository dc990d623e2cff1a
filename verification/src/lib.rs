//! A from-scratch HTTP/1.1 server core: a path-pattern compiler, an ordered
//! route table, a request-head parser, and the per-connection dispatch state
//! machine, each with a verified contract.

pub mod dispatch;
pub mod error;
pub mod middleware;
pub mod request;
pub mod router;
pub mod routing;
pub mod status_code;
pub mod text;
