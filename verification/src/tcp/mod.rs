//! The wire protocol and the server that speaks it.

pub mod frame;
pub mod protocol;
pub mod server;
