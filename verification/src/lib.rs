//! An interface compiler: it derives a remote-call contract from marked
//! declarations spread over a namespace graph, and emits two synchronized
//! artifacts — a namespace-preserving client surface of call stubs, and a
//! flat server-side dispatch table — that agree on every 64-bit identifier
//! without any shared registry.

pub mod api;
pub mod ast;
pub mod dispatch;
pub mod ident;
pub mod resolve;
pub mod surface;

pub use api::build_api;
pub use surface::server;
