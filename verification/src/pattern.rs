//! The match predicate: decides whether a line of text satisfies the search
//! pattern. A literal pattern matches anywhere in the line as a plain
//! substring; a regex pattern delegates to the `regex` crate.

use vstd::prelude::*;
use vstd::slice::slice_to_vec;
use vstd::string::StringSliceAdditionalSpecFns;

verus! {

#[verifier::external_type_specification]
#[verifier::external_body]
pub struct ExRegex(regex::Regex);

/// Whether the `regex` crate accepts the pattern text: with its default
/// configuration, `regex::Regex::new` rejects a pattern exactly when the
/// syntax is invalid or the compiled form would exceed the size limit,
/// both functions of the pattern text alone.
pub uninterp spec fn regex_valid(pattern: Seq<u8>) -> bool;

/// What `regex::Regex::is_match` answers for a pattern and a line.
pub uninterp spec fn regex_match(pattern: Seq<u8>, line: Seq<u8>) -> bool;

/// A compiled regex paired with the pattern text it was compiled from. The
/// fields are private, so the pairing is made only by `CompiledRegex::new`.
struct CompiledRegex {
    text: Vec<u8>,
    re: regex::Regex,
}

impl CompiledRegex {
    /// The pattern the regex was compiled from, as UTF-8 bytes.
    closed spec fn pattern(&self) -> Seq<u8> {
        self.text@
    }

    /// Relies on `regex::Regex::new`: compiles the pattern text, returning
    /// `Err` exactly on the patterns the crate rejects, with the crate's
    /// description of the fault.
    #[verifier::external_body]
    fn new(pattern: &str) -> (r: Result<CompiledRegex, String>)
        ensures
            (r is Ok) == regex_valid(pattern.spec_bytes()),
            r is Ok ==> (r->Ok_0).pattern() == pattern.spec_bytes(),
    {
        match regex::Regex::new(pattern) {
            Ok(re) => Ok(CompiledRegex { text: pattern.as_bytes().to_vec(), re }),
            Err(e) => Err(e.to_string()),
        }
    }

    /// Relies on `regex::Regex::is_match`: the answer is a function of the
    /// compiled pattern and the haystack alone.
    #[verifier::external_body]
    fn is_match(&self, line: &str) -> (r: bool)
        ensures
            r == regex_match(self.pattern(), line.spec_bytes()),
    {
        self.re.is_match(line)
    }
}

/// Which mode a predicate runs in, with what it needs for that mode.
enum PredicateKind {
    Literal(Vec<u8>),
    Re(CompiledRegex),
}

/// An immutable predicate over lines of text, shared by both workers: a
/// literal substring pattern, or a compiled regular expression.
pub struct MatchPredicate {
    kind: PredicateKind,
}

impl MatchPredicate {
    /// Whether the predicate is in regex mode.
    pub closed spec fn is_regex(&self) -> bool {
        self.kind is Re
    }

    /// The pattern text, as UTF-8 bytes.
    pub closed spec fn pattern(&self) -> Seq<u8> {
        match self.kind {
            PredicateKind::Literal(v) => v@,
            PredicateKind::Re(c) => c.pattern(),
        }
    }

    /// What it means for a line (as UTF-8 bytes) to satisfy the predicate.
    pub open spec fn line_matches(&self, line: Seq<u8>) -> bool {
        if self.is_regex() {
            regex_match(self.pattern(), line)
        } else {
            contains_sub(line, self.pattern())
        }
    }

    /// A predicate that matches every line containing the pattern anywhere
    /// as a literal substring.
    pub fn literal(pattern: &str) -> (p: MatchPredicate)
        ensures
            !p.is_regex(),
            p.pattern() == pattern.spec_bytes(),
    {
        MatchPredicate { kind: PredicateKind::Literal(slice_to_vec(pattern.as_bytes())) }
    }

    /// A predicate that matches lines against the pattern compiled as a
    /// regular expression; `Err` exactly on a pattern the `regex` crate
    /// rejects, carrying its description of the fault.
    pub fn regex(pattern: &str) -> (r: Result<MatchPredicate, String>)
        ensures
            (r is Ok) == regex_valid(pattern.spec_bytes()),
            r is Ok ==> (r->Ok_0).is_regex() && (r->Ok_0).pattern() == pattern.spec_bytes(),
    {
        match CompiledRegex::new(pattern) {
            Ok(c) => Ok(MatchPredicate { kind: PredicateKind::Re(c) }),
            Err(e) => Err(e),
        }
    }

    /// Test one line against the predicate.
    pub fn is_match(&self, line: &str) -> (r: bool)
        ensures
            r == self.line_matches(line.spec_bytes()),
    {
        match &self.kind {
            PredicateKind::Literal(pat) => contains_bytes(line.as_bytes(), pat.as_slice()),
            PredicateKind::Re(c) => c.is_match(line),
        }
    }
}

/// The needle occurs in the haystack starting at byte offset `i`.
pub open spec fn occurs_at(hay: Seq<u8>, needle: Seq<u8>, i: int) -> bool {
    &&& 0 <= i
    &&& i + needle.len() <= hay.len()
    &&& forall|j: int| 0 <= j < needle.len() ==> hay[i + j] == needle[j]
}

/// The needle occurs somewhere in the haystack as a contiguous run of bytes.
pub open spec fn contains_sub(hay: Seq<u8>, needle: Seq<u8>) -> bool {
    exists|i: int| occurs_at(hay, needle, i)
}

/// Naive substring search over bytes.
fn contains_bytes(hay: &[u8], needle: &[u8]) -> (r: bool)
    ensures
        r == contains_sub(hay@, needle@),
{
    let n: usize = hay.len();
    let m: usize = needle.len();
    if m == 0 {
        assert(occurs_at(hay@, needle@, 0));
        return true;
    }
    if m > n {
        assert(forall|i: int| !occurs_at(hay@, needle@, i));
        return false;
    }
    let mut i: usize = 0;
    while i <= n - m
        invariant
            1 <= m <= n,
            n == hay@.len(),
            m == needle@.len(),
            i <= n - m + 1,
            forall|i2: int| 0 <= i2 < i ==> !occurs_at(hay@, needle@, i2),
        decreases n - m + 1 - i,
    {
        let mut j: usize = 0;
        let mut mismatch = false;
        while j < m && !mismatch
            invariant
                1 <= m <= n,
                n == hay@.len(),
                m == needle@.len(),
                i + m <= n,
                0 <= j <= m,
                !mismatch ==> forall|j2: int| 0 <= j2 < j ==> hay@[i + j2] == needle@[j2],
                mismatch ==> !occurs_at(hay@, needle@, i as int),
            decreases m - j + (if mismatch { 0int } else { 1int }),
        {
            if hay[i + j] != needle[j] {
                assert(!occurs_at(hay@, needle@, i as int));
                mismatch = true;
            } else {
                j = j + 1;
            }
        }
        if !mismatch {
            assert(occurs_at(hay@, needle@, i as int));
            return true;
        }
        i = i + 1;
    }
    assert(forall|i2: int| i2 > n - m ==> !occurs_at(hay@, needle@, i2));
    false
}

} // verus!
