//! Patterns that can be searched for in a haystack of bytes.
use std::ops::Range;
use vstd::prelude::*;
use vstd::utf8::encode_utf8;

verus! {

/// The pattern lies in the haystack at offset `at`.
pub open spec fn occurs_at(haystack: Seq<u8>, pattern: Seq<u8>, at: int) -> bool {
    &&& 0 <= at
    &&& at + pattern.len() <= haystack.len()
    &&& haystack.subrange(at, at + pattern.len()) == pattern
}

/// The pattern lies in the haystack at offset `at`, and at no lower offset.
pub open spec fn is_first_occurrence(haystack: Seq<u8>, pattern: Seq<u8>, at: int) -> bool {
    &&& occurs_at(haystack, pattern, at)
    &&& forall|lower: int| 0 <= lower < at ==> !occurs_at(haystack, pattern, lower)
}

/// The offsets `(start, end)` of the lowest occurrence of the pattern in the
/// haystack, if it occurs at all.
pub open spec fn first_occurrence(haystack: Seq<u8>, pattern: Seq<u8>) -> Option<(int, int)> {
    if exists|at: int| is_first_occurrence(haystack, pattern, at) {
        let at = choose|at: int| is_first_occurrence(haystack, pattern, at);
        Some((at, at + pattern.len()))
    } else {
        None
    }
}

/// A range of offsets as a pair of mathematical integers.
pub open spec fn span(found: Option<Range<usize>>) -> Option<(int, int)> {
    match found {
        Some(range) => Some((range.start as int, range.end as int)),
        None => None,
    }
}

/// The lowest occurrence is determined by the haystack and the pattern.
pub proof fn lemma_first_occurrence_is(haystack: Seq<u8>, pattern: Seq<u8>, at: int)
    requires
        is_first_occurrence(haystack, pattern, at),
    ensures
        first_occurrence(haystack, pattern) == Some((at, at + pattern.len())),
{
    let chosen = choose|at: int| is_first_occurrence(haystack, pattern, at);
    if chosen < at {
        assert(!occurs_at(haystack, pattern, chosen));
    } else if at < chosen {
        assert(!occurs_at(haystack, pattern, at));
    }
}

/// Whether `found` is the range of the lowest occurrence of the pattern in
/// the haystack, or `None` where the pattern occurs nowhere in it.
pub open spec fn finds_first_occurrence(
    found: Option<Range<usize>>,
    haystack: Seq<u8>,
    pattern: Seq<u8>,
) -> bool {
    match found {
        Some(range) => is_first_occurrence(haystack, pattern, range.start as int) && range.end
            == range.start + pattern.len(),
        None => forall|at: int| !occurs_at(haystack, pattern, at),
    }
}

/// Below an occurrence there is a lowest one.
pub proof fn lemma_lowest_occurrence_exists(haystack: Seq<u8>, pattern: Seq<u8>, at: int)
    requires
        occurs_at(haystack, pattern, at),
    ensures
        exists|lowest: int| lowest <= at && is_first_occurrence(haystack, pattern, lowest),
    decreases at,
{
    if exists|lower: int| 0 <= lower < at && occurs_at(haystack, pattern, lower) {
        let lower = choose|lower: int| 0 <= lower < at && occurs_at(haystack, pattern, lower);
        lemma_lowest_occurrence_exists(haystack, pattern, lower);
    } else {
        assert(is_first_occurrence(haystack, pattern, at));
    }
}

/// The lowest occurrence is an occurrence with none below it, and there is
/// none exactly where the pattern occurs nowhere.
pub proof fn lemma_first_occurrence(haystack: Seq<u8>, pattern: Seq<u8>)
    ensures
        match first_occurrence(haystack, pattern) {
            Some((start, end)) => is_first_occurrence(haystack, pattern, start) && end == start
                + pattern.len(),
            None => forall|at: int| !occurs_at(haystack, pattern, at),
        },
{
    if first_occurrence(haystack, pattern) is None {
        assert forall|at: int| !occurs_at(haystack, pattern, at) by {
            if occurs_at(haystack, pattern, at) {
                lemma_lowest_occurrence_exists(haystack, pattern, at);
            }
        }
    }
}

/// Whether the pattern lies in the haystack at offset `at`.
fn matches_at(pattern: &[u8], haystack: &[u8], at: usize) -> (same: bool)
    requires
        at + pattern.len() <= haystack.len(),
    ensures
        same == occurs_at(haystack@, pattern@, at as int),
{
    let mut i: usize = 0;
    while i < pattern.len()
        invariant
            i <= pattern.len(),
            at + pattern.len() <= haystack.len(),
            forall|k: int| 0 <= k < i ==> haystack@[at + k] == pattern@[k],
        decreases pattern@.len() - i,
    {
        if haystack[at + i] != pattern[i] {
            assert(haystack@.subrange(at as int, at + pattern@.len())[i as int]
                != pattern@[i as int]);
            return false;
        }
        i += 1;
    }
    assert(haystack@.subrange(at as int, at + pattern@.len()) =~= pattern@);
    true
}

/// A pattern that can be searched for in a haystack of bytes.
pub trait Needle {
    /// The offsets `(start, end)` of the first match of the pattern in the
    /// haystack, or `None` where it matches nowhere.
    spec fn first_match(&self, haystack: Seq<u8>) -> Option<(int, int)>;

    /// A match lies within the haystack.
    proof fn first_match_in_bounds(&self, haystack: Seq<u8>)
        ensures
            self.first_match(haystack) matches Some((start, end)) ==> 0 <= start <= end
                <= haystack.len(),
    ;

    /// Finds the first occurrence of the pattern in the given haystack.
    /// Returns its range of offsets if found, otherwise `None`.
    fn findin(&self, haystack: &[u8]) -> (found: Option<Range<usize>>)
        ensures
            span(found) == self.first_match(haystack@),
    ;
}

/// A needle whose match does not depend on the bytes that follow it: when it
/// matches within the head of a haystack, it matches in the head alone.
pub open spec fn settled<N: Needle>(needle: N) -> bool {
    forall|head: Seq<u8>, tail: Seq<u8>|
        match #[trigger] needle.first_match(head + tail) {
            Some((start, end)) => end <= head.len() ==> needle.first_match(head) is Some,
            None => true,
        }
}

/// A fixed pattern that lies within the head of a haystack lies in the head
/// alone, and lowest at the same offset.
pub proof fn lemma_first_occurrence_in_head(head: Seq<u8>, tail: Seq<u8>, pattern: Seq<u8>)
    ensures
        match first_occurrence(head + tail, pattern) {
            Some((start, end)) => end <= head.len() ==> first_occurrence(head, pattern) == Some(
                (start, end),
            ),
            None => true,
        },
{
    let whole = head + tail;
    if let Some((start, end)) = first_occurrence(whole, pattern) {
        if end <= head.len() {
            assert(is_first_occurrence(whole, pattern, start));
            assert(head.subrange(start, end) =~= whole.subrange(start, end));
            assert forall|lower: int| 0 <= lower < start implies !occurs_at(
                head,
                pattern,
                lower,
            ) by {
                if occurs_at(head, pattern, lower) {
                    assert(whole.subrange(lower, lower + pattern.len()) =~= head.subrange(
                        lower,
                        lower + pattern.len(),
                    ));
                    assert(occurs_at(whole, pattern, lower));
                }
            }
            lemma_first_occurrence_is(head, pattern, start);
        }
    }
}

/// A needle that finds the lowest occurrence of a fixed pattern is settled.
pub proof fn lemma_literal_is_settled<N: Needle>(needle: N, pattern: Seq<u8>)
    requires
        forall|haystack: Seq<u8>| #[trigger]
            needle.first_match(haystack) == first_occurrence(haystack, pattern),
    ensures
        settled(needle),
{
    assert forall|head: Seq<u8>, tail: Seq<u8>|
        match #[trigger] needle.first_match(head + tail) {
            Some((start, end)) => end <= head.len() ==> needle.first_match(head) is Some,
            None => true,
        } by {
        lemma_first_occurrence_in_head(head, tail, pattern);
    }
}

impl Needle for [u8] {
    open spec fn first_match(&self, haystack: Seq<u8>) -> Option<(int, int)> {
        first_occurrence(haystack, self@)
    }

    proof fn first_match_in_bounds(&self, haystack: Seq<u8>) {
    }

    fn findin(&self, haystack: &[u8]) -> (found: Option<Range<usize>>)
        ensures
            finds_first_occurrence(found, haystack@, self@),
    {
        let width = self.len();
        if width > haystack.len() {
            return None;
        }
        let last = haystack.len() - width;
        let mut at: usize = 0;
        while at < last
            invariant
                at <= last,
                last + width == haystack.len(),
                width == self.len(),
                forall|lower: int| 0 <= lower < at ==> !occurs_at(haystack@, self@, lower),
            decreases last - at,
        {
            if matches_at(self, haystack, at) {
                proof {
                    lemma_first_occurrence_is(haystack@, self@, at as int);
                }
                return Some(at..at + width);
            }
            at += 1;
        }
        if matches_at(self, haystack, at) {
            proof {
                lemma_first_occurrence_is(haystack@, self@, at as int);
            }
            Some(at..at + width)
        } else {
            None
        }
    }
}

impl Needle for &[u8] {
    open spec fn first_match(&self, haystack: Seq<u8>) -> Option<(int, int)> {
        first_occurrence(haystack, self@)
    }

    proof fn first_match_in_bounds(&self, haystack: Seq<u8>) {
    }

    fn findin(&self, haystack: &[u8]) -> (found: Option<Range<usize>>)
        ensures
            finds_first_occurrence(found, haystack@, self@),
    {
        (*self).findin(haystack)
    }
}

impl<const N: usize> Needle for &[u8; N] {
    open spec fn first_match(&self, haystack: Seq<u8>) -> Option<(int, int)> {
        first_occurrence(haystack, self@)
    }

    proof fn first_match_in_bounds(&self, haystack: Seq<u8>) {
    }

    fn findin(&self, haystack: &[u8]) -> (found: Option<Range<usize>>)
        ensures
            finds_first_occurrence(found, haystack@, self@),
    {
        self.as_slice().findin(haystack)
    }
}

impl Needle for Vec<u8> {
    open spec fn first_match(&self, haystack: Seq<u8>) -> Option<(int, int)> {
        first_occurrence(haystack, self@)
    }

    proof fn first_match_in_bounds(&self, haystack: Seq<u8>) {
    }

    fn findin(&self, haystack: &[u8]) -> (found: Option<Range<usize>>)
        ensures
            finds_first_occurrence(found, haystack@, self@),
    {
        self.as_slice().findin(haystack)
    }
}

impl Needle for &str {
    open spec fn first_match(&self, haystack: Seq<u8>) -> Option<(int, int)> {
        first_occurrence(haystack, encode_utf8(self@))
    }

    proof fn first_match_in_bounds(&self, haystack: Seq<u8>) {
    }

    fn findin(&self, haystack: &[u8]) -> (found: Option<Range<usize>>)
        ensures
            finds_first_occurrence(found, haystack@, encode_utf8(self@)),
    {
        self.as_bytes().findin(haystack)
    }
}

impl Needle for String {
    open spec fn first_match(&self, haystack: Seq<u8>) -> Option<(int, int)> {
        first_occurrence(haystack, encode_utf8(self@))
    }

    proof fn first_match_in_bounds(&self, haystack: Seq<u8>) {
    }

    fn findin(&self, haystack: &[u8]) -> (found: Option<Range<usize>>)
        ensures
            finds_first_occurrence(found, haystack@, encode_utf8(self@)),
    {
        self.as_str().findin(haystack)
    }
}

} // verus!
