//! The file-scanning stage: testing a file's lines against the match
//! predicate and gathering the matching (line index, line text) pairs.

use crate::pattern::MatchPredicate;
use crate::state::SearchState;
use crate::views_of;
use vstd::prelude::*;
use vstd::utf8::encode_utf8;

verus! {

/// The matching lines of one file: the file's path and every matching
/// (zero-based line index, full line text) pair, in ascending index order.
pub struct FileResult {
    pub path: String,
    pub lines: Vec<(usize, String)>,
}

/// Matched pairs seen as (line index, characters of the line).
pub open spec fn pairs_view(pairs: Seq<(usize, String)>) -> Seq<(int, Seq<char>)> {
    pairs.map_values(|p: (usize, String)| (p.0 as int, p.1@))
}

/// The line indices of the pairs are strictly increasing.
pub open spec fn indices_increasing(pairs: Seq<(usize, String)>) -> bool {
    forall|k1: int, k2: int| 0 <= k1 < k2 < pairs.len() ==> pairs[k1].0 < pairs[k2].0
}

impl FileResult {
    /// A result is well formed when it holds at least one matching line and
    /// its line indices are strictly increasing.
    pub open spec fn wf(&self) -> bool {
        self.lines@.len() > 0 && indices_increasing(self.lines@)
    }
}

/// The matching (index, line) pairs among the first `n` lines, in ascending
/// index order. A line matches when its UTF-8 bytes satisfy the predicate.
pub open spec fn matched_up_to(p: MatchPredicate, lines: Seq<Seq<char>>, n: int) -> Seq<
    (int, Seq<char>),
>
    decreases n,
{
    if n <= 0 {
        Seq::empty()
    } else if p.line_matches(encode_utf8(lines[n - 1])) {
        matched_up_to(p, lines, n - 1).push((n - 1, lines[n - 1]))
    } else {
        matched_up_to(p, lines, n - 1)
    }
}

/// All matching (index, line) pairs of a file's lines.
pub open spec fn matched_pairs(p: MatchPredicate, lines: Seq<Seq<char>>) -> Seq<(int, Seq<char>)> {
    matched_up_to(p, lines, lines.len() as int)
}

/// The shape of `matched_up_to`: every reported pair is a true match of the
/// line at its index, indices are strictly increasing, and every matching
/// line below `n` is reported.
proof fn lemma_matched_up_to_props(p: MatchPredicate, lines: Seq<Seq<char>>, n: int)
    requires
        0 <= n <= lines.len(),
    ensures
        forall|k: int|
            0 <= k < matched_up_to(p, lines, n).len() ==> {
                let pr = #[trigger] matched_up_to(p, lines, n)[k];
                &&& 0 <= pr.0 < n
                &&& pr.1 == lines[pr.0]
                &&& p.line_matches(encode_utf8(lines[pr.0]))
            },
        forall|k1: int, k2: int|
            0 <= k1 < k2 < matched_up_to(p, lines, n).len() ==> matched_up_to(p, lines, n)[k1].0
                < matched_up_to(p, lines, n)[k2].0,
        forall|i: int|
            0 <= i < n && p.line_matches(encode_utf8(lines[i])) ==> exists|k: int|
                0 <= k < matched_up_to(p, lines, n).len() && #[trigger] matched_up_to(
                    p,
                    lines,
                    n,
                )[k].0 == i,
    decreases n,
{
    if n > 0 {
        lemma_matched_up_to_props(p, lines, n - 1);
        let prev = matched_up_to(p, lines, n - 1);
        let cur = matched_up_to(p, lines, n);
        if p.line_matches(encode_utf8(lines[n - 1])) {
            assert(cur[cur.len() - 1].0 == n - 1);
            assert(forall|i: int|
                0 <= i < n - 1 && p.line_matches(encode_utf8(lines[i])) ==> exists|k: int|
                    0 <= k < cur.len() && #[trigger] cur[k].0 == i) by {
                assert forall|i: int|
                    0 <= i < n - 1 && p.line_matches(encode_utf8(lines[i])) implies exists|k: int|
                    0 <= k < cur.len() && #[trigger] cur[k].0 == i by {
                    let k0 = choose|k: int| 0 <= k < prev.len() && #[trigger] prev[k].0 == i;
                    assert(cur[k0].0 == i);
                }
            }
        }
    }
}

/// Soundness of the matched pairs: each one pairs an in-range line index
/// with the text of that very line, and that line satisfies the predicate.
pub proof fn lemma_scan_sound(p: MatchPredicate, lines: Seq<Seq<char>>)
    ensures
        forall|k: int|
            0 <= k < matched_pairs(p, lines).len() ==> {
                let pr = #[trigger] matched_pairs(p, lines)[k];
                &&& 0 <= pr.0 < lines.len()
                &&& pr.1 == lines[pr.0]
                &&& p.line_matches(encode_utf8(lines[pr.0]))
            },
{
    lemma_matched_up_to_props(p, lines, lines.len() as int);
}

/// Completeness of the matched pairs: every matching line of the file is
/// reported under its index.
pub proof fn lemma_scan_complete(p: MatchPredicate, lines: Seq<Seq<char>>)
    ensures
        forall|i: int|
            0 <= i < lines.len() && p.line_matches(encode_utf8(lines[i])) ==> exists|k: int|
                0 <= k < matched_pairs(p, lines).len() && #[trigger] matched_pairs(p, lines)[k].0
                    == i,
{
    let n = lines.len() as int;
    lemma_matched_up_to_props(p, lines, n);
    assert forall|i: int| 0 <= i < lines.len() && p.line_matches(encode_utf8(lines[i])) implies exists|k: int|
        0 <= k < matched_pairs(p, lines).len() && #[trigger] matched_pairs(p, lines)[k].0 == i by {
        let k0 = choose|k: int|
            0 <= k < matched_up_to(p, lines, n).len() && #[trigger] matched_up_to(p, lines, n)[k].0
                == i;
        assert(matched_pairs(p, lines)[k0].0 == i);
    }
}

/// Order within a file: the matched pairs carry strictly increasing line
/// indices.
pub proof fn lemma_scan_increasing(p: MatchPredicate, lines: Seq<Seq<char>>)
    ensures
        forall|k1: int, k2: int|
            0 <= k1 < k2 < matched_pairs(p, lines).len() ==> matched_pairs(p, lines)[k1].0
                < matched_pairs(p, lines)[k2].0,
{
    lemma_matched_up_to_props(p, lines, lines.len() as int);
}

/// A file with no matching line contributes nothing: its matched-pair
/// sequence is empty, and it is empty only for such a file.
pub proof fn lemma_no_match_empty(p: MatchPredicate, lines: Seq<Seq<char>>)
    ensures
        (matched_pairs(p, lines).len() == 0) <==> (forall|i: int|
            0 <= i < lines.len() ==> !p.line_matches(encode_utf8(#[trigger] lines[i]))),
{
    lemma_matched_up_to_props(p, lines, lines.len() as int);
    if matched_pairs(p, lines).len() > 0 {
        assert(p.line_matches(encode_utf8(lines[matched_pairs(p, lines)[0].0])));
    }
}

/// Idempotence: what a scan of a file reports is a function of the
/// predicate and the file's lines alone, so two scans of an unchanged file
/// report the same pairs.
pub proof fn lemma_scan_deterministic(
    p: MatchPredicate,
    lines: Seq<Seq<char>>,
    r1: Seq<(int, Seq<char>)>,
    r2: Seq<(int, Seq<char>)>,
)
    requires
        r1 == matched_pairs(p, lines),
        r2 == matched_pairs(p, lines),
    ensures
        r1 == r2,
{
}

/// What one file contributes to the result set: its path paired with its
/// matched (index, line) pairs. The first component of `f` is the file's
/// path, the second its lines.
pub open spec fn scan_entry(p: MatchPredicate, f: (Seq<char>, Seq<Seq<char>>)) -> (
    Seq<char>,
    Seq<(int, Seq<char>)>,
) {
    (f.0, matched_pairs(p, f.1))
}

/// Whether a file contributes a result at all: only files with at least one
/// matching line do.
pub open spec fn has_result(p: MatchPredicate, f: (Seq<char>, Seq<Seq<char>>)) -> bool {
    matched_pairs(p, f.1).len() > 0
}

/// The result collection left by scanning the given files in the given
/// order: one entry per file with a matching line, in scan order.
pub open spec fn results_of(p: MatchPredicate, scans: Seq<(Seq<char>, Seq<Seq<char>>)>) -> Seq<
    (Seq<char>, Seq<(int, Seq<char>)>),
>
    decreases scans.len(),
{
    if scans.len() == 0 {
        Seq::empty()
    } else {
        let rest = results_of(p, scans.drop_last());
        if has_result(p, scans.last()) {
            rest.push(scan_entry(p, scans.last()))
        } else {
            rest
        }
    }
}

/// The paths of a sequence of scan inputs.
pub open spec fn paths_of(scans: Seq<(Seq<char>, Seq<Seq<char>>)>) -> Seq<Seq<char>> {
    scans.map_values(|f: (Seq<char>, Seq<Seq<char>>)| f.0)
}

/// The paths of a result collection.
pub open spec fn result_paths(rs: Seq<(Seq<char>, Seq<(int, Seq<char>)>)>) -> Seq<Seq<char>> {
    rs.map_values(|e: (Seq<char>, Seq<(int, Seq<char>)>)| e.0)
}

/// The entry is exactly what some scanned file with a matching line
/// contributes to the result collection.
pub open spec fn from_scan(
    p: MatchPredicate,
    scans: Seq<(Seq<char>, Seq<Seq<char>>)>,
    e: (Seq<char>, Seq<(int, Seq<char>)>),
) -> bool {
    exists|j: int|
        0 <= j < scans.len() && has_result(p, #[trigger] scans[j]) && e == scan_entry(p, scans[j])
}

/// Completeness across files: when no file is scanned twice, every scanned
/// file with at least one matching line appears in the result collection -
/// exactly once, since the result paths carry no duplicate - under its own
/// path with exactly its matched pairs; and nothing else appears.
pub proof fn lemma_results_exact(p: MatchPredicate, scans: Seq<(Seq<char>, Seq<Seq<char>>)>)
    requires
        paths_of(scans).no_duplicates(),
    ensures
        forall|j: int|
            0 <= j < scans.len() && has_result(p, #[trigger] scans[j]) ==> results_of(
                p,
                scans,
            ).contains(scan_entry(p, scans[j])),
        forall|k: int|
            0 <= k < results_of(p, scans).len() ==> from_scan(
                p,
                scans,
                #[trigger] results_of(p, scans)[k],
            ),
        result_paths(results_of(p, scans)).no_duplicates(),
    decreases scans.len(),
{
    if scans.len() > 0 {
        let prefix = scans.drop_last();
        let rest = results_of(p, prefix);
        let cur = results_of(p, scans);
        let last = scans.len() - 1;
        assert(paths_of(prefix) =~= paths_of(scans).drop_last());
        assert(paths_of(prefix).no_duplicates());
        lemma_results_exact(p, prefix);
        assert forall|j: int|
            0 <= j < scans.len() && has_result(p, #[trigger] scans[j]) implies cur.contains(
            scan_entry(p, scans[j]),
        ) by {
            if j < last {
                assert(prefix[j] == scans[j]);
                let k0 = choose|k: int| 0 <= k < rest.len() && rest[k] == scan_entry(p, prefix[j]);
                assert(cur[k0] == scan_entry(p, scans[j]));
            } else {
                assert(cur[cur.len() - 1] == scan_entry(p, scans[last]));
            }
        }
        assert forall|k: int| 0 <= k < results_of(p, scans).len() implies from_scan(
            p,
            scans,
            #[trigger] results_of(p, scans)[k],
        ) by {
            if k < rest.len() {
                assert(from_scan(p, prefix, results_of(p, prefix)[k]));
                let j0 = choose|j: int|
                    0 <= j < prefix.len() && has_result(p, #[trigger] prefix[j]) && rest[k]
                        == scan_entry(p, prefix[j]);
                assert(scans[j0] == prefix[j0]);
                assert(0 <= j0 < scans.len() && has_result(p, scans[j0]) && results_of(p, scans)[k]
                    == scan_entry(p, scans[j0]));
            } else {
                assert(0 <= last < scans.len() && has_result(p, scans[last]) && results_of(
                    p,
                    scans,
                )[k] == scan_entry(p, scans[last]));
            }
        }
        assert forall|k1: int, k2: int|
            0 <= k1 < k2 < result_paths(cur).len() implies result_paths(cur)[k1] != result_paths(
            cur,
        )[k2] by {
            assert(from_scan(p, scans, results_of(p, scans)[k1]));
            assert(from_scan(p, scans, results_of(p, scans)[k2]));
            let j1 = choose|j: int|
                0 <= j < scans.len() && has_result(p, #[trigger] scans[j]) && cur[k1]
                    == scan_entry(p, scans[j]);
            let j2 = choose|j: int|
                0 <= j < scans.len() && has_result(p, #[trigger] scans[j]) && cur[k2]
                    == scan_entry(p, scans[j]);
            assert(result_paths(cur)[k1] == paths_of(scans)[j1]);
            assert(result_paths(cur)[k2] == paths_of(scans)[j2]);
            if j1 == j2 {
                if k2 < rest.len() {
                    assert(result_paths(rest)[k1] != result_paths(rest)[k2]);
                    assert(false);
                } else {
                    // cur[k1] and cur[k2] would both be the entry of one
                    // scan, yet cur[k1] stands in rest, whose every entry
                    // comes from the prefix; its path would then repeat in
                    // the scan paths.
                    assert(from_scan(p, prefix, results_of(p, prefix)[k1]));
                    let j0 = choose|j: int|
                        0 <= j < prefix.len() && has_result(p, #[trigger] prefix[j]) && rest[k1]
                            == scan_entry(p, prefix[j]);
                    assert(paths_of(scans)[j0] == paths_of(scans)[last]);
                    assert(false);
                }
            }
        }
    } else {
        assert(results_of(p, scans).len() == 0);
    }
}

/// One more scan extends the modelled result collection exactly as one
/// `search_file` call extends the recorded results: by one entry when some
/// line matches, not at all otherwise.
pub proof fn lemma_results_of_step(
    p: MatchPredicate,
    scans: Seq<(Seq<char>, Seq<Seq<char>>)>,
    f: (Seq<char>, Seq<Seq<char>>),
)
    ensures
        has_result(p, f) ==> results_of(p, scans.push(f)) == results_of(p, scans).push(
            scan_entry(p, f),
        ),
        !has_result(p, f) ==> results_of(p, scans.push(f)) == results_of(p, scans),
{
    assert(scans.push(f).drop_last() =~= scans);
    assert(scans.push(f).last() == f);
}

/// Taking one scan out of the order takes exactly its contribution out of
/// the result collection, seen as a multiset.
proof fn lemma_results_of_remove(p: MatchPredicate, scans: Seq<(Seq<char>, Seq<Seq<char>>)>, i: int)
    requires
        0 <= i < scans.len(),
    ensures
        results_of(p, scans).to_multiset() =~= if has_result(p, scans[i]) {
            results_of(p, scans.remove(i)).to_multiset().insert(scan_entry(p, scans[i]))
        } else {
            results_of(p, scans.remove(i)).to_multiset()
        },
    decreases scans.len(),
{
    broadcast use vstd::seq_lib::group_to_multiset_ensures;

    if i == scans.len() - 1 {
        assert(scans.remove(i) =~= scans.drop_last());
    } else {
        let shorter = scans.drop_last();
        lemma_results_of_remove(p, shorter, i);
        assert(scans.remove(i).drop_last() =~= shorter.remove(i));
        assert(scans.remove(i).last() == scans.last());
        assert(scans.remove(i).len() > 0);
    }
}

/// Set-equivalence under concurrency: however the scheduler interleaves the
/// two workers, the scanner ends up scanning the same files, only in
/// another order; and two scan orders that are permutations of one another
/// leave the same collection of (path, matched pairs) results, as a
/// multiset. Only the emission order across files may differ.
pub proof fn lemma_schedule_independent(
    p: MatchPredicate,
    s1: Seq<(Seq<char>, Seq<Seq<char>>)>,
    s2: Seq<(Seq<char>, Seq<Seq<char>>)>,
)
    requires
        s1.to_multiset() == s2.to_multiset(),
    ensures
        results_of(p, s1).to_multiset() == results_of(p, s2).to_multiset(),
    decreases s1.len(),
{
    broadcast use vstd::seq_lib::group_to_multiset_ensures;

    if s1.len() == 0 {
        assert(s1.to_multiset().len() == s1.len());
        assert(s2.to_multiset().len() == s2.len());
        assert(s2.len() == 0);
    } else {
        let last = s1.len() - 1;
        let x = s1[last];
        assert(s1.contains(x));
        assert(s2.to_multiset().count(x) > 0);
        assert(s2.contains(x));
        let i = choose|i: int| 0 <= i < s2.len() && s2[i] == x;
        lemma_results_of_remove(p, s1, last);
        lemma_results_of_remove(p, s2, i);
        assert(s1.remove(last).to_multiset() =~= s1.to_multiset().remove(x));
        assert(s2.remove(i).to_multiset() =~= s2.to_multiset().remove(x));
        lemma_schedule_independent(p, s1.remove(last), s2.remove(i));
        assert(results_of(p, s1).to_multiset() =~= results_of(p, s2).to_multiset());
    }
}

/// Scan a file's lines in order, starting at index zero, and report every
/// matching (index, line) pair.
pub fn scan_lines(pred: &MatchPredicate, lines: &Vec<String>) -> (r: Vec<(usize, String)>)
    ensures
        pairs_view(r@) == matched_pairs(*pred, views_of(lines@)),
{
    let ghost lv = views_of(lines@);
    let mut r: Vec<(usize, String)> = Vec::new();
    proof {
        assert(pairs_view(r@) =~= matched_up_to(*pred, lv, 0));
    }
    let mut i: usize = 0;
    while i < lines.len()
        invariant
            i <= lines.len(),
            lv == views_of(lines@),
            pairs_view(r@) == matched_up_to(*pred, lv, i as int),
        decreases lines.len() - i,
    {
        let line: &String = &lines[i];
        assert(line@ == lv[i as int]);
        if pred.is_match(line.as_str()) {
            let ghost r_old = r@;
            r.push((i, line.clone()));
            proof {
                assert(pairs_view(r@) =~= pairs_view(r_old).push((i as int, lv[i as int])));
                assert(pairs_view(r@) =~= matched_up_to(*pred, lv, i + 1));
            }
        }
        i = i + 1;
    }
    proof {
        assert(matched_up_to(*pred, lv, lines@.len() as int) == matched_pairs(
            *pred,
            views_of(lines@),
        ));
    }
    r
}

/// One scanner iteration over a file already popped from the file queue and
/// read into lines: scan the lines in order, and append one result exactly
/// when some line matches. The queues are untouched; a file with no
/// matching line leaves no trace.
pub fn search_file(state: &mut SearchState, pred: &MatchPredicate, path: String, lines: &Vec<String>)
    ensures
        final(state).dirs() == old(state).dirs(),
        final(state).files() == old(state).files(),
        ({
            let pairs = matched_pairs(*pred, views_of(lines@));
            &&& pairs.len() == 0 ==> final(state).results() == old(state).results()
            &&& pairs.len() > 0 ==> {
                &&& final(state).results().len() == old(state).results().len() + 1
                &&& final(state).results().drop_last() == old(state).results()
                &&& final(state).results().last().path@ == path@
                &&& pairs_view(final(state).results().last().lines@) == pairs
                &&& final(state).results().last().wf()
            }
        }),
        old(state).wf() ==> final(state).wf(),
{
    let ghost lv = views_of(lines@);
    let pairs = scan_lines(pred, lines);
    if pairs.len() > 0 {
        proof {
            lemma_scan_increasing(*pred, lv);
            assert forall|k1: int, k2: int|
                0 <= k1 < k2 < pairs@.len() implies pairs@[k1].0 < pairs@[k2].0 by {
                assert(pairs_view(pairs@)[k1] == (pairs@[k1].0 as int, pairs@[k1].1@));
                assert(pairs_view(pairs@)[k2] == (pairs@[k2].0 as int, pairs@[k2].1@));
            }
        }
        let fr = FileResult { path, lines: pairs };
        assert(fr.wf());
        state.record_result(fr);
        proof {
            assert(state.results().drop_last() =~= old(state).results());
        }
    }
}

} // verus!
