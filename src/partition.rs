//! Partition keys: a fixed-width hexadecimal rendering of a payload's hash.

use vstd::prelude::*;

use crate::digits::{hex_fixed, push_hex_fixed};

verus! {

/// Number of hexadecimal digits in a partition key.
pub const KEY_DIGITS: usize = 16;

/// The value of seahash's `hash` on the given bytes.
pub uninterp spec fn seahash_of(bytes: Seq<u8>) -> u64;

/// Relies on `seahash::hash`: a hash of the buffer under a fixed seed, so
/// that the result depends on the bytes alone.
#[verifier::external_body]
fn seahash_hash(bytes: &[u8]) -> (r: u64)
    ensures
        r == seahash_of(bytes@),
{
    seahash::hash(bytes)
}

/// The partition key of a payload: its hash as sixteen lower-case
/// hexadecimal digits.
pub open spec fn partition_key_of(payload: Seq<u8>) -> Seq<char> {
    hex_fixed(seahash_of(payload) as nat, KEY_DIGITS as nat)
}

/// Computes the partition key of `payload`.
pub fn partition_key(payload: &[u8]) -> (r: String)
    ensures
        r@ == partition_key_of(payload@),
{
    let h = seahash_hash(payload);
    hex_key(h)
}

/// Renders a hash value as a partition key.
pub fn hex_key(h: u64) -> (r: String)
    ensures
        r@ == hex_fixed(h as nat, KEY_DIGITS as nat),
        r@.len() == KEY_DIGITS,
{
    let mut s = String::new();
    push_hex_fixed(&mut s, h, KEY_DIGITS);
    proof {
        lemma_hex_fixed_len(h as nat, KEY_DIGITS as nat);
    }
    s
}

/// A fixed-width rendering has exactly `width` digits.
pub proof fn lemma_hex_fixed_len(n: nat, width: nat)
    ensures
        hex_fixed(n, width).len() == width,
    decreases width,
{
    if width > 0 {
        lemma_hex_fixed_len(n / 16, (width - 1) as nat);
    }
}

} // verus!
