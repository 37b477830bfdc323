//! Reading until a needle from a blocking buffered reader.
use crate::needle::Needle;
use crate::scan::{outcome, Event, Fill, Phase, ReadUntilNeedle};
use crate::source::{scan_from, unconsumed, whole_scan};
use vstd::prelude::*;
use vstd::slice::slice_subrange;

verus! {

/// The failure of a reader of `std::io`. Nothing of its inside is known
/// here: it is handed on as it came.
#[verifier::external_type_specification]
#[verifier::external_body]
pub struct ExIoError(std::io::Error);

/// A buffered reader that can be read until a needle.
pub trait UntilNeedleRead {
    /// The answers that the reader will give to successive fills.
    spec fn answers(&self) -> Seq<Event<std::io::Error>>;

    /// Reads from the reader until the `needle` is found or the end of the
    /// stream is reached.
    ///
    /// The bytes in front of the needle are appended to `before` and the
    /// needle itself to `matched`. At the end of the stream without a match,
    /// all that was read is appended to `before`, and `matched` is left as it
    /// was.
    ///
    /// Returns the number of bytes consumed from the reader, the needle
    /// included.
    fn read_until_needle(
        &mut self,
        needle: impl Needle,
        before: &mut Vec<u8>,
        matched: &mut Vec<u8>,
    ) -> (result: Result<usize, std::io::Error>)
        ensures
            final(self).answers() == whole_scan(needle, old(self).answers()).rest,
            final(before)@ == old(before)@ + whole_scan(needle, old(self).answers()).before,
            final(matched)@ == old(matched)@ + whole_scan(needle, old(self).answers()).matched,
            match result {
                Ok(total) => total == whole_scan(needle, old(self).answers()).total && !(
                whole_scan(needle, old(self).answers()).phase is Failed),
                Err(failure) => whole_scan(needle, old(self).answers()).phase == Phase::Failed(
                    failure,
                ),
            },
    ;
}

/// What reading `bytes`, all of them available at once, until a needle
/// comes to: the bytes in front of the match, the match, and the number of
/// bytes consumed. Without a match, and where there are no bytes at all,
/// everything is in front.
pub open spec fn split_at_needle<N: Needle>(needle: N, bytes: Seq<u8>) -> (Seq<u8>, Seq<u8>, int) {
    match needle.first_match(bytes) {
        Some((start, end)) if bytes.len() > 0 => (
            bytes.subrange(0, start),
            bytes.subrange(start, end),
            end,
        ),
        _ => (bytes, Seq::empty(), bytes.len() as int),
    }
}

/// A scan of bytes that are all available at once splits them at the
/// needle.
pub proof fn lemma_whole_scan_of_slice<N: Needle>(needle: N, bytes: Seq<u8>)
    ensures
        ({
            let scanned = whole_scan(needle, unconsumed::<std::io::Error>(bytes, Seq::empty()));
            let (before, matched, total) = split_at_needle(needle, bytes);
            &&& scanned.before == before
            &&& scanned.matched == matched
            &&& scanned.total == total
            &&& 0 <= total <= bytes.len()
            &&& scanned.rest == unconsumed::<std::io::Error>(bytes.skip(total), Seq::empty())
            &&& scanned.phase is Matched || scanned.phase is ExhaustedNoMatch
            &&& scanned.phase is Matched <==> bytes.len() > 0 && needle.first_match(
                bytes,
            ) is Some
        }),
{
    let nothing = Seq::<u8>::empty();
    let source = unconsumed::<std::io::Error>(bytes, Seq::empty());
    let scanned = whole_scan(needle, source);
    needle.first_match_in_bounds(bytes);
    assert(nothing + bytes =~= bytes);
    if bytes.len() > 0 {
        assert(source.drop_first() =~= Seq::empty());
        let step = outcome(needle, nothing, source[0]);
        if step.phase is Scanning {
            assert(step.buffered =~= bytes);
            assert(scanned == scan_from(needle, bytes, source.drop_first()));
            assert(scanned.before =~= bytes);
            assert(bytes.skip(bytes.len() as int) =~= nothing);
        }
    } else {
        assert(scanned.before =~= bytes);
        assert(bytes.skip(0) =~= bytes);
    }
}

impl UntilNeedleRead for &[u8] {
    /// A slice answers with all of itself, and then is at its end.
    open spec fn answers(&self) -> Seq<Event<std::io::Error>> {
        unconsumed(self@, Seq::empty())
    }

    #[verifier::loop_isolation(false)]
    fn read_until_needle(
        &mut self,
        needle: impl Needle,
        before: &mut Vec<u8>,
        matched: &mut Vec<u8>,
    ) -> (result: Result<usize, std::io::Error>)
        ensures
            result is Ok,
            result matches Ok(total) ==> total == split_at_needle(needle, old(self)@).2,
            final(self)@ == old(self)@.skip(split_at_needle(needle, old(self)@).2),
            final(before)@ == old(before)@ + split_at_needle(needle, old(self)@).0,
            final(matched)@ == old(matched)@ + split_at_needle(needle, old(self)@).1,
    {
        proof {
            lemma_whole_scan_of_slice(needle, self@);
        }
        let mut scan = ReadUntilNeedle::new(needle);
        loop
            invariant
                scan.needle() == needle,
                before@ == old(before)@,
                matched@ == old(matched)@,
                scan_from(needle, scan.buffered(), self.answers()) == whole_scan(
                    needle,
                    old(self).answers(),
                ),
            decreases self@.len(),
        {
            let ghost available = self@;
            let step = scan.step(Fill::<std::io::Error>::Available(*self), before, matched);
            *self = slice_subrange(*self, step.consume, self.len());
            proof {
                if available.len() > 0 {
                    let source = seq![Event::<std::io::Error>::Available(available)];
                    assert(source.drop_first() =~= Seq::empty());
                    assert(self@ =~= available.skip(step.consume as int));
                } else {
                    assert(self@ =~= available);
                }
            }
            match step.phase {
                Phase::Scanning => {
                    assert(before@ =~= old(before)@);
                    assert(matched@ =~= old(matched)@);
                },
                Phase::Matched => {
                    return Ok(step.total);
                },
                Phase::ExhaustedNoMatch => {
                    return Ok(step.total);
                },
                Phase::Failed(failure) => {
                    return Err(failure);
                },
            }
        }
    }
}

} // verus!
