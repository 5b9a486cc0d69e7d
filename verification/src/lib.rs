//! A recursive line-matching search pipeline.
//!
//! A directory walker and a file scanner cooperate over shared work queues:
//! the walker drains a FIFO queue of pending directories and feeds newly
//! discovered subdirectories and files back into the queues; the scanner
//! drains the file queue, tests each line of a file against a match
//! predicate, and records the matching lines per file. All queue updates and
//! match decisions live here with their contracts; directory enumeration,
//! file reading and console output are left to the surrounding binary.

pub mod pattern;
pub mod search_directory;
pub mod search_file;
pub mod state;

use vstd::prelude::*;

verus! {

/// A sequence of strings seen as the sequence of their character sequences.
pub open spec fn views_of(v: Seq<String>) -> Seq<Seq<char>> {
    v.map_values(|s: String| s@)
}

/// Viewing a sequence of strings distributes over appending one string.
pub proof fn lemma_views_of_push(v: Seq<String>, x: String)
    ensures
        views_of(v.push(x)) =~= views_of(v).push(x@),
{
    assert forall|k: int| 0 <= k < v.len() + 1 implies views_of(v.push(x))[k] == views_of(
        v,
    ).push(x@)[k] by {
        if k < v.len() {
            assert(v.push(x)[k] == v[k]);
        } else {
            assert(v.push(x)[k] == x);
        }
    }
}

} // verus!
