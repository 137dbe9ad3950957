//! The operations that the client offers, with their arguments.

use vstd::prelude::*;

verus! {

/// An invocation: the service region to talk to, if given, and the operation.
pub struct KinesisCommand {
    pub region: Option<String>,
    pub subcommand: KinesisSubcommands,
}

/// The operations on streams.
pub enum KinesisSubcommands {
    /// Creates a stream with the given number of shards.
    Create { stream_name: String, num_shards: usize },
    /// Deletes a stream.
    Delete { stream_name: String },
    /// Lists the streams.
    List,
    /// Lists the shards of a stream.
    ListShards { stream_name: String },
    /// Writes the lines of the standard input to a stream.
    Push { stream_name: String },
    /// Splits a shard of a stream.
    ScaleUp { stream_name: String },
    /// Merges two shards of a stream.
    ScaleDown { stream_name: String },
    /// Prints the records of one shard as they arrive.
    Tail { stream_name: String, shard_id: usize },
}

} // verus!
