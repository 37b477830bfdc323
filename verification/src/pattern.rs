//! Regular expressions as needles, matched against raw bytes.
use crate::needle::{span, Needle};
use regex::bytes::Regex;
use std::ops::Range;
use vstd::prelude::*;

verus! {

/// A compiled regular expression of the `regex` crate. Nothing of its inside
/// is known here.
#[verifier::external_type_specification]
#[verifier::external_body]
pub struct ExRegex(Regex);

/// The offsets `(start, end)` that `regex::bytes::Regex::find` returns for
/// this expression and this haystack: those of the leftmost match by the
/// rules of the `regex` crate, or `None` where nothing matches.
pub uninterp spec fn regex_find(regex: Regex, haystack: Seq<u8>) -> Option<(int, int)>;

/// Calls `regex::bytes::Regex::find`. Trusted: the result is the one named
/// by [`regex_find`], and the offsets of a match are in order and lie within
/// the haystack, as the crate documents of `Match::start` and `Match::end`.
#[verifier::external_body]
fn leftmost_match(regex: &Regex, haystack: &[u8]) -> (found: Option<Range<usize>>)
    ensures
        span(found) == regex_find(*regex, haystack@),
        found matches Some(range) ==> range.start <= range.end <= haystack@.len(),
{
    match regex.find(haystack) {
        Some(found) => Some(found.start()..found.end()),
        None => None,
    }
}

/// Whether a pair of offsets is in order and lies within a haystack of
/// `len` bytes.
pub open spec fn within(offsets: (int, int), len: nat) -> bool {
    0 <= offsets.0 <= offsets.1 <= len
}

impl Needle for Regex {
    /// What the `regex` crate finds, so far as it lies within the haystack.
    open spec fn first_match(&self, haystack: Seq<u8>) -> Option<(int, int)> {
        match regex_find(*self, haystack) {
            Some(offsets) if within(offsets, haystack.len()) => Some(offsets),
            _ => None,
        }
    }

    proof fn first_match_in_bounds(&self, haystack: Seq<u8>) {
    }

    fn findin(&self, haystack: &[u8]) -> (found: Option<Range<usize>>)
        ensures
            span(found) == regex_find(*self, haystack@),
    {
        leftmost_match(self, haystack)
    }
}

} // verus!
