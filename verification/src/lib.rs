//! A memory-image engine: an in-memory domain model whose only durable form
//! is an append-only log of the commands that produced it.
//!
//! The engine owns the live state and an event log.  On construction it
//! replays every logged command against a fresh state; afterwards each
//! command is applied to a shadow copy of the state, appended to the log,
//! and only then promoted to be the new live state.  Queries read the live
//! state and never touch the log.
//!
//! The `bank` and `bank_storage` modules carry an example domain (accounts,
//! deposits, transfers) together with its line codec.

mod error;
mod processor;
mod storage;

pub mod bank;
pub mod bank_storage;

pub use error::FailureOutcome;
pub use error::MemImgError;
pub use processor::Command;
pub use processor::MemImgProcessor;
pub use processor::Query;
pub use processor::lemma_query_idempotent;
pub use processor::lemma_replay_determinism;
pub use processor::query_outcome;
pub use processor::replay_fold;
pub use storage::EventStorage;
pub use storage::ExactClone;
pub use storage::LineSink;
pub use storage::MemoryEventStorage;
pub use storage::TextConverter;
pub use storage::TextEventStorage;
pub use storage::blank_line;
pub use storage::spec_decode_lines;
