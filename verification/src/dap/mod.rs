//! The debug adapter: the Debug Adapter Protocol over a debug target that may be
//! a recording under replay.
pub mod backend;
pub mod laws;
pub mod protocol;
pub mod render;
pub mod render_laws;
pub mod replay_backend;
pub mod request_laws;
pub mod server;
pub mod stub;
pub mod transport;
