//! The shared mutable state of one search: the directory queue (FIFO), the
//! file queue (no ordering contract; drained from the tail) and the results
//! gathered so far. Both workers act on one value of this type; the
//! surrounding binary serializes their accesses.

use crate::search_file::FileResult;
use crate::views_of;
use std::collections::VecDeque;
use vstd::prelude::*;

verus! {

/// The two work queues and the append-only result collection.
pub struct SearchState {
    directories: VecDeque<String>,
    pending_files: Vec<String>,
    results: Vec<FileResult>,
}

impl SearchState {
    /// The pending directories, head first.
    pub closed spec fn dirs(&self) -> Seq<Seq<char>> {
        views_of(self.directories@)
    }

    /// The pending files.
    pub closed spec fn files(&self) -> Seq<Seq<char>> {
        views_of(self.pending_files@)
    }

    /// The per-file results recorded so far, in completion order.
    pub closed spec fn results(&self) -> Seq<FileResult> {
        self.results@
    }

    /// Every recorded result is well formed: it holds at least one matching
    /// line, under strictly increasing line indices.
    pub open spec fn wf(&self) -> bool {
        forall|k: int| 0 <= k < self.results().len() ==> (#[trigger] self.results()[k]).wf()
    }

    /// A fresh search with nothing queued and nothing found.
    pub fn new() -> (s: SearchState)
        ensures
            s.dirs().len() == 0,
            s.files().len() == 0,
            s.results().len() == 0,
            s.wf(),
    {
        SearchState { directories: VecDeque::new(), pending_files: Vec::new(), results: Vec::new() }
    }

    /// Append one directory at the tail of the directory queue; the seed of
    /// a search is enqueued this way.
    pub fn enqueue_directory(&mut self, path: String)
        ensures
            final(self).dirs() == old(self).dirs().push(path@),
            final(self).files() == old(self).files(),
            final(self).results() == old(self).results(),
            final(self).wf() == old(self).wf(),
    {
        self.directories.push_back(path);
        proof {
            assert(self.dirs() =~= old(self).dirs().push(path@));
        }
    }

    /// Look at the head of the directory queue without removing it: the
    /// directory the walker will enumerate next, if any is pending.
    pub fn next_directory(&self) -> (r: Option<String>)
        ensures
            match r {
                Some(d) => self.dirs().len() > 0 && d@ == self.dirs()[0],
                None => self.dirs().len() == 0,
            },
    {
        if self.directories.len() > 0 {
            Some(self.directories[0].clone())
        } else {
            None
        }
    }

    /// Remove one pending file from the file queue, if any; which one is
    /// drained is not part of the queue's contract (here: the tail).
    pub fn take_file(&mut self) -> (r: Option<String>)
        ensures
            final(self).dirs() == old(self).dirs(),
            final(self).results() == old(self).results(),
            final(self).wf() == old(self).wf(),
            match r {
                Some(f) => old(self).files().len() > 0 && f@ == old(self).files().last()
                    && final(self).files() == old(self).files().drop_last(),
                None => old(self).files().len() == 0 && final(self).files() == old(self).files(),
            },
    {
        let r = self.pending_files.pop();
        proof {
            if old(self).pending_files@.len() > 0 {
                assert(self.files() =~= old(self).files().drop_last());
            }
        }
        r
    }

    /// Append many directories at the tail of the directory queue, in the
    /// order they were discovered.
    pub fn enqueue_directories(&mut self, paths: Vec<String>)
        ensures
            final(self).dirs() == old(self).dirs() + views_of(paths@),
            final(self).files() == old(self).files(),
            final(self).results() == old(self).results(),
            final(self).wf() == old(self).wf(),
    {
        let n = paths.len();
        let mut i: usize = 0;
        proof {
            assert(self.dirs() =~= old(self).dirs() + views_of(paths@.take(0)));
        }
        while i < n
            invariant
                i <= n,
                n == paths@.len(),
                self.dirs() == old(self).dirs() + views_of(paths@.take(i as int)),
                self.files() == old(self).files(),
                self.results() == old(self).results(),
            decreases n - i,
        {
            let p = paths[i].clone();
            let ghost pg = p;
            let ghost pre = self.directories@;
            self.directories.push_back(p);
            proof {
                crate::lemma_views_of_push(pre, pg);
                assert(self.dirs() =~= views_of(pre).push(pg@));
                assert(paths@.take(i + 1) =~= paths@.take(i as int).push(paths@[i as int]));
                crate::lemma_views_of_push(paths@.take(i as int), paths@[i as int]);
                assert(self.dirs() =~= old(self).dirs() + views_of(paths@.take(i + 1)));
            }
            i = i + 1;
        }
        proof {
            assert(paths@.take(n as int) =~= paths@);
        }
    }

    /// Append many files to the file queue, in the order they were
    /// discovered.
    pub fn enqueue_files(&mut self, paths: Vec<String>)
        ensures
            final(self).dirs() == old(self).dirs(),
            final(self).files() == old(self).files() + views_of(paths@),
            final(self).results() == old(self).results(),
            final(self).wf() == old(self).wf(),
    {
        let n = paths.len();
        let mut i: usize = 0;
        proof {
            assert(self.files() =~= old(self).files() + views_of(paths@.take(0)));
        }
        while i < n
            invariant
                i <= n,
                n == paths@.len(),
                self.dirs() == old(self).dirs(),
                self.files() == old(self).files() + views_of(paths@.take(i as int)),
                self.results() == old(self).results(),
            decreases n - i,
        {
            let p = paths[i].clone();
            let ghost pg = p;
            let ghost pre = self.pending_files@;
            self.pending_files.push(p);
            proof {
                crate::lemma_views_of_push(pre, pg);
                assert(self.files() =~= views_of(pre).push(pg@));
                assert(paths@.take(i + 1) =~= paths@.take(i as int).push(paths@[i as int]));
                crate::lemma_views_of_push(paths@.take(i as int), paths@[i as int]);
                assert(self.files() =~= old(self).files() + views_of(paths@.take(i + 1)));
            }
            i = i + 1;
        }
        proof {
            assert(paths@.take(n as int) =~= paths@);
        }
    }

    /// Drop the head of the directory queue: the walker removes a directory
    /// exactly once, at the end of its iteration, whether or not the
    /// enumeration succeeded. Sibling directories, the file queue and the
    /// results gathered so far are untouched, so one unreadable directory
    /// never aborts the rest of the search.
    pub fn remove_head_directory(&mut self)
        requires
            old(self).dirs().len() > 0,
        ensures
            final(self).dirs() == old(self).dirs().drop_first(),
            final(self).files() == old(self).files(),
            final(self).results() == old(self).results(),
            final(self).wf() == old(self).wf(),
    {
        self.directories.pop_front();
        proof {
            assert(self.dirs() =~= old(self).dirs().drop_first());
        }
    }

    /// Append one per-file result; the scanner calls this only for a file
    /// with at least one matching line.
    pub fn record_result(&mut self, result: FileResult)
        ensures
            final(self).dirs() == old(self).dirs(),
            final(self).files() == old(self).files(),
            final(self).results() == old(self).results().push(result),
            old(self).wf() && result.wf() ==> final(self).wf(),
    {
        let ghost rg = result;
        self.results.push(result);
        proof {
            if old(self).wf() && rg.wf() {
                assert forall|k: int| 0 <= k < self.results().len() implies (#[trigger] self.results()[k]).wf() by {
                    if k < old(self).results().len() {
                        assert(self.results()[k] == old(self).results()[k]);
                    } else {
                        assert(self.results()[k] == rg);
                    }
                }
            }
        }
    }

    /// Hand the gathered results to the output stage, consuming the state:
    /// the result collection is read exactly once, after both workers have
    /// finished.
    pub fn into_results(self) -> (r: Vec<FileResult>)
        ensures
            r@ == self.results(),
    {
        self.results
    }

    /// The walker stops once the directory queue is empty.
    pub fn walker_done(&self) -> (r: bool)
        ensures
            r == (self.dirs().len() == 0),
    {
        self.directories.len() == 0
    }

    /// The scanner stops only once both queues are empty: it must outlive
    /// the walker, which may still be producing files.
    pub fn scanner_done(&self) -> (r: bool)
        ensures
            r == (self.dirs().len() == 0 && self.files().len() == 0),
    {
        self.directories.len() == 0 && self.pending_files.len() == 0
    }
}

} // verus!
