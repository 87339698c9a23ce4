//! A small HTTP server runtime's decision logic: path-pattern routing,
//! request parsing, response framing and the worker pool's protocol.

pub mod dispatch;
pub mod matcher;
pub mod request;
pub mod response;
pub mod router;
pub mod text;
pub mod thread_pool;
