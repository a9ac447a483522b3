//! A persistent key-value store with a log-structured engine.
//!
//! The library holds what the store decides and computes: the written form
//! of commands and responses, the index and the counters of the log engine,
//! recovery from a log, compaction, the rule that picks a server's engine,
//! and the answer to each request. Files and sockets are the caller's: the
//! log engine says which bytes to append and which to read, and is proved
//! over the log that results. `MemoryStore` is the log engine with its log
//! in memory, where nothing is left to the caller.

pub mod bytes;
pub mod client;
pub mod codec;
pub mod command;
pub mod engine;
pub mod engines;
pub mod error;
mod index;
pub mod json;
pub mod live;
pub mod log;
pub mod pieces;
pub mod server;
pub mod text;
pub mod wire;

pub use crate::command::{Command, ServerResponse};
pub use crate::engine::{EngineType, KvsEngine};
pub use crate::engines::kvs::{KvStore, SetOutcome};
pub use crate::engines::memory::MemoryStore;
pub use crate::engines::sled::SledKvsEngine;
pub use crate::error::KvsError;
pub use crate::log::CommandPos;
