//! A command-line client's core for a partitioned, append-only stream service:
//! batching of line-delimited input into bounded write requests, and the
//! state machine that tails one shard through successive polls.

pub mod digits;
pub mod seqs;
pub mod batch;
pub mod command;
pub mod decode;
pub mod partition;
pub mod shard;
pub mod tail;
