//! The service's textual shard identifiers.

use vstd::prelude::*;

use crate::digits::{decimal, push_decimal, decimal_len, push_zeros, zeros};

verus! {

/// Width to which a shard index is zero-padded.
pub const SHARD_DIGITS: usize = 12;

/// The literal that every shard identifier starts with.
pub open spec fn shard_prefix() -> Seq<char> {
    seq!['s', 'h', 'a', 'r', 'd', 'I', 'd', '-']
}

/// The decimal digits of `id`, padded with leading zeros to twelve digits.
pub open spec fn padded_index(id: nat) -> Seq<char> {
    let d = decimal(id);
    if d.len() < SHARD_DIGITS {
        zeros((SHARD_DIGITS - d.len()) as nat) + d
    } else {
        d
    }
}

/// The identifier of the shard with index `id`.
pub open spec fn shard_id_text(id: nat) -> Seq<char> {
    shard_prefix() + padded_index(id)
}

/// The service's identifier for the shard with index `id`: the prefix
/// `shardId-` followed by the index in decimal, zero-padded to twelve digits.
pub fn make_shard_id(id: usize) -> (r: String)
    ensures
        r@ == shard_id_text(id as nat),
{
    proof {
        reveal_strlit("shardId-");
    }
    let mut s = String::from_str("shardId-");
    let len = decimal_len(id);
    if len < SHARD_DIGITS {
        push_zeros(&mut s, SHARD_DIGITS - len);
    }
    push_decimal(&mut s, id as u64);
    assert(s@ =~= shard_id_text(id as nat));
    s
}

} // verus!
