//! What a scan comes to on a whole source, and what holds of it.
//!
//! A source is described by the answers it gives to successive fills, each
//! chunk consumed whole before the next fill. When the answers run out the
//! source is at its end.
use crate::needle::{settled, Needle};
use crate::scan::{chunk, outcome, Event, Phase};
use vstd::prelude::*;

verus! {

/// All the bytes that a source holds: its chunks, one after the other.
pub open spec fn content<E>(source: Seq<Event<E>>) -> Seq<u8>
    decreases source.len(),
{
    if source.len() == 0 {
        Seq::empty()
    } else {
        chunk(source[0]) + content(source.drop_first())
    }
}

/// The source that holds `bytes`, not consumed yet, in front of `rest`.
pub open spec fn unconsumed<E>(bytes: Seq<u8>, rest: Seq<Event<E>>) -> Seq<Event<E>> {
    if bytes.len() == 0 {
        rest
    } else {
        seq![Event::Available(bytes)] + rest
    }
}

/// A source that never fails, and that does not report its end before its
/// last chunk.
pub open spec fn runs_to_end<E>(source: Seq<Event<E>>) -> bool {
    forall|i: int|
        0 <= i < source.len() ==> match #[trigger] source[i] {
            Event::Available(bytes) => bytes.len() > 0,
            Event::Interrupted => true,
            Event::Failed(_) => false,
        }
}

/// A whole scan: how it ended, what it has consumed, what it has appended
/// to the two buffers, and the source as it has left it.
pub struct Scanned<E> {
    /// How the scan ended.
    pub phase: Phase<E>,
    /// The number of bytes that the scan has consumed from the source.
    pub total: int,
    /// The bytes that the scan has appended to the before buffer.
    pub before: Seq<u8>,
    /// The bytes that the scan has appended to the matched buffer.
    pub matched: Seq<u8>,
    /// The answers that the source will give to the fills after the scan.
    pub rest: Seq<Event<E>>,
}

/// The scan that has gathered `buffered` so far, carried on by its caller
/// step by step over `source` until a step ends it.
pub open spec fn scan_from<N: Needle, E>(
    needle: N,
    buffered: Seq<u8>,
    source: Seq<Event<E>>,
) -> Scanned<E>
    decreases source.len(),
{
    if source.len() == 0 {
        let last = outcome(needle, buffered, Event::<E>::Available(Seq::empty()));
        Scanned {
            phase: last.phase,
            total: last.total,
            before: last.before,
            matched: last.matched,
            rest: source,
        }
    } else {
        let step = outcome(needle, buffered, source[0]);
        match step.phase {
            Phase::Scanning => scan_from(needle, step.buffered, source.drop_first()),
            _ => Scanned {
                phase: step.phase,
                total: step.total,
                before: step.before,
                matched: step.matched,
                rest: unconsumed(chunk(source[0]).skip(step.consume), source.drop_first()),
            },
        }
    }
}

/// One whole scan of `source` for `needle`, from its first fill to its end.
pub open spec fn whole_scan<N: Needle, E>(needle: N, source: Seq<Event<E>>) -> Scanned<E> {
    scan_from(needle, Seq::empty(), source)
}

/// The source after one scan for each of `needles`, in their order.
pub open spec fn after_scans<N: Needle, E>(needles: Seq<N>, source: Seq<Event<E>>) -> Seq<
    Event<E>,
>
    decreases needles.len(),
{
    if needles.len() == 0 {
        source
    } else {
        whole_scan(needles.last(), after_scans(needles.drop_last(), source)).rest
    }
}

/// The bytes consumed by one scan for each of `needles`, in their order.
pub open spec fn consumed_by_scans<N: Needle, E>(needles: Seq<N>, source: Seq<Event<E>>) -> int
    decreases needles.len(),
{
    if needles.len() == 0 {
        0
    } else {
        consumed_by_scans(needles.drop_last(), source) + whole_scan(
            needles.last(),
            after_scans(needles.drop_last(), source),
        ).total
    }
}

/// The content of two sources in a row is the content of the first, then
/// that of the second.
pub proof fn lemma_content_concat<E>(first: Seq<Event<E>>, second: Seq<Event<E>>)
    ensures
        content(first + second) == content(first) + content(second),
    decreases first.len(),
{
    if first.len() == 0 {
        assert(first + second =~= second);
        assert(content(first) + content(second) =~= content(second));
    } else {
        lemma_content_concat(first.drop_first(), second);
        assert((first + second).drop_first() =~= first.drop_first() + second);
        assert(content(first + second) =~= content(first) + content(second));
    }
}

/// Bytes left in front of a source come first in its content.
pub proof fn lemma_content_unconsumed<E>(bytes: Seq<u8>, rest: Seq<Event<E>>)
    ensures
        content(unconsumed(bytes, rest)) == bytes + content(rest),
{
    if bytes.len() == 0 {
        assert(bytes + content(rest) =~= content(rest));
    } else {
        let front = seq![Event::<E>::Available(bytes)];
        lemma_content_concat(front, rest);
        assert(front.drop_first().len() == 0);
        assert(content(front.drop_first()) =~= Seq::<u8>::empty());
        assert(content(front) =~= bytes);
    }
}

/// A scan consumes the source from its front, and what it appends to the
/// two buffers is taken, in order, from the front of what it had gathered
/// and the source held.
pub proof fn lemma_scan_from_accounts<N: Needle, E>(
    needle: N,
    buffered: Seq<u8>,
    source: Seq<Event<E>>,
)
    ensures
        ({
            let scanned = scan_from(needle, buffered, source);
            let all = buffered + content(source);
            let appended = scanned.before.len() + scanned.matched.len();
            &&& !(scanned.phase is Scanning)
            &&& buffered.len() <= scanned.total <= all.len()
            &&& content(scanned.rest) == all.skip(scanned.total)
            &&& appended <= scanned.total
            &&& scanned.before + scanned.matched == all.take(appended as int)
            &&& scanned.phase is ExhaustedNoMatch ==> scanned.matched.len() == 0 && appended
                == scanned.total
            &&& scanned.phase is Failed ==> appended == 0
        }),
    decreases source.len(),
{
    let scanned = scan_from(needle, buffered, source);
    let all = buffered + content(source);
    let appended = scanned.before.len() + scanned.matched.len();
    if source.len() == 0 {
        assert(all =~= buffered);
        assert(content(scanned.rest) =~= all.skip(scanned.total));
        assert(scanned.before + scanned.matched =~= all.take(appended as int));
    } else {
        let step = outcome(needle, buffered, source[0]);
        let tail = source.drop_first();
        let gathered = buffered + chunk(source[0]);
        assert(all =~= gathered + content(tail));
        needle.first_match_in_bounds(gathered);
        match step.phase {
            Phase::Scanning => {
                assert(step.buffered =~= gathered);
                lemma_scan_from_accounts(needle, step.buffered, tail);
            },
            _ => {
                lemma_content_unconsumed(chunk(source[0]).skip(step.consume), tail);
                assert(content(scanned.rest) =~= all.skip(scanned.total));
                assert(scanned.before + scanned.matched =~= all.take(appended as int));
            },
        }
    }
}

/// With a settled needle, a scan that ends in a match has consumed what it
/// has appended to the two buffers, and no more.
pub proof fn lemma_scan_from_settled<N: Needle, E>(
    needle: N,
    buffered: Seq<u8>,
    source: Seq<Event<E>>,
)
    requires
        settled(needle),
        buffered.len() == 0 || needle.first_match(buffered) is None,
    ensures
        ({
            let scanned = scan_from(needle, buffered, source);
            scanned.phase is Matched ==> scanned.before.len() + scanned.matched.len()
                == scanned.total
        }),
    decreases source.len(),
{
    if source.len() > 0 {
        let step = outcome(needle, buffered, source[0]);
        let gathered = buffered + chunk(source[0]);
        needle.first_match_in_bounds(gathered);
        match step.phase {
            Phase::Scanning => {
                lemma_scan_from_settled(needle, step.buffered, source.drop_first());
            },
            _ => {},
        }
    }
}

/// What a source still holds after a scan is what it held before, less the
/// bytes that the scan reports as consumed: these were taken from its front,
/// and a fill after the scan meets the bytes that follow them. Where the
/// scan ends in a match for a settled needle, the bytes consumed are those
/// in front of the match and the match itself, so that what is left is what
/// followed the match. Where it ends without a match, the bytes consumed are
/// those appended to the before buffer, and a source that runs to its end
/// is left with nothing.
pub proof fn lemma_rest_is_unconsumed<N: Needle, E>(needle: N, source: Seq<Event<E>>)
    ensures
        ({
            let scanned = whole_scan(needle, source);
            &&& 0 <= scanned.total <= content(source).len()
            &&& content(scanned.rest) == content(source).skip(scanned.total)
            &&& scanned.phase is Matched && settled(needle) ==> content(source) == scanned.before
                + scanned.matched + content(scanned.rest)
            &&& scanned.phase is ExhaustedNoMatch ==> content(source) == scanned.before + content(
                scanned.rest,
            )
            &&& scanned.phase is ExhaustedNoMatch && runs_to_end(source) ==> scanned.rest.len()
                == 0
        }),
{
    if runs_to_end(source) {
        lemma_scan_from_runs_to_end(needle, Seq::empty(), source);
    }
    let scanned = whole_scan(needle, source);
    let all = Seq::<u8>::empty() + content(source);
    assert(all =~= content(source));
    lemma_scan_from_accounts(needle, Seq::empty(), source);
    if scanned.phase is Matched && settled(needle) {
        lemma_scan_from_settled(needle, Seq::empty(), source);
        assert(content(source) =~= all.take(scanned.total) + all.skip(scanned.total));
    }
    if scanned.phase is ExhaustedNoMatch {
        assert(scanned.before + scanned.matched =~= scanned.before);
        assert(content(source) =~= all.take(scanned.total) + all.skip(scanned.total));
    }
}

/// A source that runs to its end is left as one by a scan, and is left with
/// nothing where the scan met the end of the stream.
pub proof fn lemma_scan_from_runs_to_end<N: Needle, E>(
    needle: N,
    buffered: Seq<u8>,
    source: Seq<Event<E>>,
)
    requires
        runs_to_end(source),
    ensures
        ({
            let scanned = scan_from(needle, buffered, source);
            &&& runs_to_end(scanned.rest)
            &&& scanned.phase is Matched || scanned.phase is ExhaustedNoMatch
            &&& scanned.phase is ExhaustedNoMatch ==> scanned.rest.len() == 0
        }),
    decreases source.len(),
{
    if source.len() > 0 {
        let step = outcome(needle, buffered, source[0]);
        let tail = source.drop_first();
        assert(source[0] is Available || source[0] is Interrupted);
        assert forall|i: int| 0 <= i < tail.len() implies match #[trigger] tail[i] {
            Event::Available(bytes) => bytes.len() > 0,
            Event::Interrupted => true,
            Event::Failed(_) => false,
        } by {
            assert(tail[i] == source[i + 1]);
        }
        needle.first_match_in_bounds(buffered + chunk(source[0]));
        match step.phase {
            Phase::Scanning => {
                lemma_scan_from_runs_to_end(needle, step.buffered, tail);
            },
            _ => {},
        }
    }
}

/// Where a scan meets the end of the stream without a match, it appends
/// nothing to the matched buffer, and to the before buffer the bytes that it
/// has consumed; of a source that runs to its end these are all the bytes
/// that the source held.
pub proof fn lemma_end_of_stream<N: Needle, E>(needle: N, source: Seq<Event<E>>)
    requires
        whole_scan(needle, source).phase is ExhaustedNoMatch,
    ensures
        whole_scan(needle, source).matched == Seq::<u8>::empty(),
        whole_scan(needle, source).before == content(source).take(
            whole_scan(needle, source).total,
        ),
        runs_to_end(source) ==> whole_scan(needle, source).before == content(source),
{
    let scanned = whole_scan(needle, source);
    let all = Seq::<u8>::empty() + content(source);
    assert(all =~= content(source));
    lemma_scan_from_accounts(needle, Seq::empty(), source);
    assert(scanned.matched =~= Seq::<u8>::empty());
    assert(scanned.before + scanned.matched =~= scanned.before);
    if runs_to_end(source) {
        lemma_scan_from_runs_to_end(needle, Seq::empty(), source);
        lemma_rest_is_unconsumed(needle, source);
        assert(content(scanned.rest) =~= Seq::<u8>::empty());
        assert(scanned.before + content(scanned.rest) =~= scanned.before);
    }
}

/// Scans made one after the other consume the source from its front: what
/// they have consumed and what the source still holds make up what it held.
pub proof fn lemma_scans_account<N: Needle, E>(needles: Seq<N>, source: Seq<Event<E>>)
    ensures
        0 <= consumed_by_scans(needles, source) <= content(source).len(),
        content(after_scans(needles, source)) == content(source).skip(
            consumed_by_scans(needles, source),
        ),
        runs_to_end(source) ==> runs_to_end(after_scans(needles, source)),
    decreases needles.len(),
{
    if needles.len() == 0 {
        assert(content(source).skip(0) =~= content(source));
    } else {
        let earlier = needles.drop_last();
        let between = after_scans(earlier, source);
        lemma_scans_account(earlier, source);
        lemma_rest_is_unconsumed(needles.last(), between);
        if runs_to_end(source) {
            lemma_scan_from_runs_to_end(needles.last(), Seq::empty(), between);
        }
        let scanned = whole_scan(needles.last(), between);
        assert(content(source).skip(consumed_by_scans(earlier, source)).skip(scanned.total)
            =~= content(source).skip(consumed_by_scans(needles, source)));
    }
}

/// Of a source that runs to its end: when the last of a row of scans meets
/// the end of the stream, the scans together have consumed as many bytes as
/// the source held.
pub proof fn lemma_scans_consume_all<N: Needle, E>(needles: Seq<N>, source: Seq<Event<E>>)
    requires
        runs_to_end(source),
        needles.len() > 0,
        whole_scan(
            needles.last(),
            after_scans(needles.drop_last(), source),
        ).phase is ExhaustedNoMatch,
    ensures
        consumed_by_scans(needles, source) == content(source).len(),
{
    let between = after_scans(needles.drop_last(), source);
    lemma_scans_account(needles.drop_last(), source);
    lemma_scans_account(needles, source);
    lemma_scan_from_runs_to_end(needles.last(), Seq::empty(), between);
    assert(after_scans(needles, source).len() == 0);
    assert(content(after_scans(needles, source)).len() == 0);
}

/// An interruption holds no bytes.
pub proof fn lemma_content_interrupted<E>(source: Seq<Event<E>>, at: int)
    requires
        0 <= at <= source.len(),
    ensures
        content(source.insert(at, Event::Interrupted)) == content(source),
{
    let one = seq![Event::<E>::Interrupted];
    assert(source.insert(at, Event::Interrupted) =~= source.take(at) + one + source.skip(at));
    assert(source =~= source.take(at) + source.skip(at));
    lemma_content_concat(source.take(at) + one, source.skip(at));
    lemma_content_concat(source.take(at), one);
    lemma_content_concat(source.take(at), source.skip(at));
    assert(one.drop_first().len() == 0);
    assert(content(one.drop_first()) =~= Seq::<u8>::empty());
    assert(content(one) =~= Seq::<u8>::empty());
    assert(content(source.take(at)) + content(one) =~= content(source.take(at)));
}

/// A scan that is carried on over a source with one more interruption in it
/// ends as it does without the interruption.
pub proof fn lemma_scan_from_interrupted<N: Needle, E>(
    needle: N,
    buffered: Seq<u8>,
    source: Seq<Event<E>>,
    at: int,
)
    requires
        0 <= at <= source.len(),
    ensures
        ({
            let plain = scan_from(needle, buffered, source);
            let other = scan_from(needle, buffered, source.insert(at, Event::Interrupted));
            &&& other.phase == plain.phase
            &&& other.total == plain.total
            &&& other.before == plain.before
            &&& other.matched == plain.matched
            &&& content(other.rest) == content(plain.rest)
            &&& at == 0 ==> other.rest == plain.rest
        }),
    decreases source.len(),
{
    let with = source.insert(at, Event::Interrupted);
    if at == 0 {
        assert(with.drop_first() =~= source);
    } else {
        let step = outcome(needle, buffered, source[0]);
        let tail = source.drop_first();
        assert(with[0] == source[0]);
        assert(with.drop_first() =~= tail.insert(at - 1, Event::Interrupted));
        match step.phase {
            Phase::Scanning => {
                lemma_scan_from_interrupted(needle, step.buffered, tail, at - 1);
            },
            _ => {
                let left = chunk(source[0]).skip(step.consume);
                lemma_content_interrupted(tail, at - 1);
                lemma_content_unconsumed(left, tail);
                lemma_content_unconsumed(left, with.drop_first());
            },
        }
    }
}

/// A source that reports an interruption, wherever among its answers, gives
/// the same scan as the source without it: the same end, the same bytes
/// consumed, the same bytes appended to the two buffers, and the same bytes
/// left in the source. Where the interruption is its first answer, the
/// source is left with the same answers too.
pub proof fn lemma_interruption_is_absorbed<N: Needle, E>(
    needle: N,
    source: Seq<Event<E>>,
    at: int,
)
    requires
        0 <= at <= source.len(),
    ensures
        ({
            let plain = whole_scan(needle, source);
            let other = whole_scan(needle, source.insert(at, Event::Interrupted));
            &&& other.phase == plain.phase
            &&& other.total == plain.total
            &&& other.before == plain.before
            &&& other.matched == plain.matched
            &&& content(other.rest) == content(plain.rest)
            &&& at == 0 ==> other.rest == plain.rest
        }),
{
    lemma_scan_from_interrupted(needle, Seq::empty(), source, at);
}

} // verus!
