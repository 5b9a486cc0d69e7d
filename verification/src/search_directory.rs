//! The directory-walking stage: applying one successful enumeration of the
//! head directory to the work queues. Enumerating the directory itself is
//! I/O and is done by the caller; on enumeration failure the caller drops
//! the head with `SearchState::remove_head_directory` instead.

use crate::state::SearchState;
use crate::views_of;
use vstd::prelude::*;

verus! {

/// One successful walker iteration over the head directory: the
/// subdirectories found among its children join the tail of the directory
/// queue, the regular files join the file queue, and the enumerated
/// directory leaves the head — a directory is removed exactly once, at the
/// end of its iteration. Results are untouched; the walker never writes
/// them.
pub fn search_directory(state: &mut SearchState, subdirs: Vec<String>, files: Vec<String>)
    requires
        old(state).dirs().len() > 0,
    ensures
        final(state).dirs() == old(state).dirs().drop_first() + views_of(subdirs@),
        final(state).files() == old(state).files() + views_of(files@),
        final(state).results() == old(state).results(),
        final(state).wf() == old(state).wf(),
{
    state.remove_head_directory();
    state.enqueue_directories(subdirs);
    state.enqueue_files(files);
}

} // verus!
