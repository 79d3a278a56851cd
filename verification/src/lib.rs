//! A persistent key/value store served over TCP: the bookkeeping of a
//! log-structured storage engine and the binary wire protocol between
//! client and server, with every function proved against its contract.

pub mod cli_commands;
pub mod engine;
pub mod error;
pub mod growth;
pub mod kv_store;
pub mod log;
pub mod sled_store;
pub mod tcp;

pub use cli_commands::CLICommands;
pub use engine::KvsEngine;
pub use error::{KVSError, Result};
pub use kv_store::KvStore;
pub use log::{DBInsertion, ItemPosition};
pub use tcp::protocol::{DBCommands, ServerResponse};
pub use tcp::server::KvsServer;
