//! Concatenation of sequences of sequences.

use vstd::prelude::*;

verus! {

/// The elements of the given sequences, one sequence after another.
pub open spec fn concat_all<A>(parts: Seq<Seq<A>>) -> Seq<A>
    decreases parts.len(),
{
    if parts.len() == 0 {
        Seq::empty()
    } else {
        concat_all(parts.drop_last()) + parts.last()
    }
}

pub proof fn lemma_concat_all_push<A>(parts: Seq<Seq<A>>, p: Seq<A>)
    ensures
        concat_all(parts.push(p)) == concat_all(parts) + p,
{
    assert(parts.push(p).drop_last() =~= parts);
}

} // verus!
