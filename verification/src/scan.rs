//! One scan of a buffered source for a needle, as a state machine.
//!
//! The scan does no reading itself. Its caller asks the source to fill its
//! buffer, hands the answer to [`ReadUntilNeedle::step`], marks as consumed
//! what the step says, and goes on until the step reports an end.
use crate::needle::{span, Needle};
use std::ops::Range;
use vstd::prelude::*;
use vstd::slice::slice_subrange;

verus! {

/// What a buffered source answered when it was asked to fill its buffer.
pub enum Fill<'a, E> {
    /// The bytes that the source holds and that were not consumed yet. An
    /// empty slice is the end of the stream.
    Available(&'a [u8]),
    /// The fill was interrupted before it could answer.
    Interrupted,
    /// The fill failed for good.
    Failed(E),
}

/// A [`Fill`] with its bytes as a sequence.
pub enum Event<E> {
    /// The bytes that the source holds and that were not consumed yet; none
    /// at the end of the stream.
    Available(Seq<u8>),
    /// The fill was interrupted.
    Interrupted,
    /// The fill failed for good.
    Failed(E),
}

impl<'a, E> View for Fill<'a, E> {
    type V = Event<E>;

    open spec fn view(&self) -> Event<E> {
        match *self {
            Fill::Available(bytes) => Event::Available(bytes@),
            Fill::Interrupted => Event::Interrupted,
            Fill::Failed(error) => Event::Failed(error),
        }
    }
}

/// The bytes that one answer of a source holds.
pub open spec fn chunk<E>(event: Event<E>) -> Seq<u8> {
    match event {
        Event::Available(bytes) => bytes,
        _ => Seq::empty(),
    }
}

/// Where a scan stands after a step.
#[derive(Debug, PartialEq, Eq)]
pub enum Phase<E> {
    /// The needle was not found yet and the stream has not ended: fill again.
    Scanning,
    /// The needle was found.
    Matched,
    /// The stream ended before the needle was found.
    ExhaustedNoMatch,
    /// The source failed: the scan ends with this failure.
    Failed(E),
}

/// What a step tells the caller of a scan.
#[derive(Debug, PartialEq, Eq)]
pub struct Step<E> {
    /// How many bytes to mark as consumed at the front of what the source
    /// made available.
    pub consume: usize,
    /// How many bytes the scan has consumed since it began, those included.
    pub total: usize,
    /// Whether to fill again, or how the scan has ended.
    pub phase: Phase<E>,
}

/// The effect of one step of a scan.
pub struct Outcome<E> {
    /// The bytes that the scan holds for the next step.
    pub buffered: Seq<u8>,
    /// The bytes that the step appends to the before buffer.
    pub before: Seq<u8>,
    /// The bytes that the step appends to the matched buffer.
    pub matched: Seq<u8>,
    /// The number of bytes to consume at the source.
    pub consume: int,
    /// The number of bytes consumed since the scan began, those included.
    pub total: int,
    /// Where the scan stands after the step.
    pub phase: Phase<E>,
}

/// What a step decides once the needle has been searched. `gathered` is all
/// that the scan has taken from the source, the last `fresh` bytes of it
/// with this step and not consumed yet; `found` is where the needle matches
/// in `gathered`.
///
/// With no fresh bytes the stream has ended: all that was gathered goes to
/// the before buffer. Without a match all fresh bytes are consumed, and
/// what was gathered is held for the next step. With a match the bytes in
/// front of it go to the before buffer, the match to the matched buffer, and
/// the source is consumed up to the end of the match; a match that ends
/// inside what was consumed earlier consumes nothing more.
pub open spec fn decision<E>(gathered: Seq<u8>, fresh: int, found: Option<(int, int)>) -> Outcome<
    E,
> {
    let nothing = Seq::<u8>::empty();
    let held = gathered.len() - fresh;
    if fresh == 0 {
        Outcome {
            buffered: nothing,
            before: gathered,
            matched: nothing,
            consume: 0,
            total: held,
            phase: Phase::ExhaustedNoMatch,
        }
    } else {
        match found {
            Some((start, end)) => {
                let total = if end > held {
                    end
                } else {
                    held
                };
                Outcome {
                    buffered: nothing,
                    before: gathered.subrange(0, start),
                    matched: gathered.subrange(start, end),
                    consume: total - held,
                    total,
                    phase: Phase::Matched,
                }
            },
            None => Outcome {
                buffered: gathered,
                before: nothing,
                matched: nothing,
                consume: fresh,
                total: gathered.len() as int,
                phase: Phase::Scanning,
            },
        }
    }
}

/// What one step does. `buffered` is what the scan has gathered from the
/// source so far, all of it consumed there; `event` is the answer to the
/// fill.
///
/// An interruption and a failure change nothing. Bytes that are available
/// are added to what was gathered, the needle is searched in the whole, and
/// the step is as [`decision`] says; at the end of the stream the needle is
/// not searched.
pub open spec fn outcome<N: Needle, E>(needle: N, buffered: Seq<u8>, event: Event<E>) -> Outcome<
    E,
> {
    let nothing = Seq::<u8>::empty();
    match event {
        Event::Interrupted => Outcome {
            buffered,
            before: nothing,
            matched: nothing,
            consume: 0,
            total: buffered.len() as int,
            phase: Phase::Scanning,
        },
        Event::Failed(error) => Outcome {
            buffered,
            before: nothing,
            matched: nothing,
            consume: 0,
            total: buffered.len() as int,
            phase: Phase::Failed(error),
        },
        Event::Available(available) => {
            let gathered = buffered + available;
            let found = if available.len() == 0 {
                None
            } else {
                needle.first_match(gathered)
            };
            decision(gathered, available.len() as int, found)
        },
    }
}

/// Decides a step once the needle has been searched: appends to the two
/// buffers what the step gives them, and says what to consume and where the
/// scan stands. `gathered`, `fresh` and `found` are as in [`decision`].
pub fn decide<E>(
    gathered: &[u8],
    fresh: usize,
    found: Option<Range<usize>>,
    before: &mut Vec<u8>,
    matched: &mut Vec<u8>,
) -> (step: Step<E>)
    requires
        fresh <= gathered@.len(),
        found matches Some(range) ==> range.start <= range.end <= gathered@.len(),
    ensures
        final(before)@ == old(before)@ + decision::<E>(gathered@, fresh as int, span(found)).before,
        final(matched)@ == old(matched)@ + decision::<E>(
            gathered@,
            fresh as int,
            span(found),
        ).matched,
        step.consume == decision::<E>(gathered@, fresh as int, span(found)).consume,
        step.total == decision::<E>(gathered@, fresh as int, span(found)).total,
        step.phase == decision::<E>(gathered@, fresh as int, span(found)).phase,
        step.consume <= fresh,
        step.total == gathered@.len() - fresh + step.consume,
{
    let held = gathered.len() - fresh;
    if fresh == 0 {
        before.extend_from_slice(gathered);
        assert(before@ =~= old(before)@ + gathered@);
        assert(matched@ =~= old(matched)@ + Seq::<u8>::empty());
        Step { consume: 0, total: held, phase: Phase::ExhaustedNoMatch }
    } else {
        match found {
            Some(range) => {
                before.extend_from_slice(slice_subrange(gathered, 0, range.start));
                matched.extend_from_slice(slice_subrange(gathered, range.start, range.end));
                let total = if range.end > held {
                    range.end
                } else {
                    held
                };
                assert(before@ =~= old(before)@ + gathered@.subrange(0, range.start as int));
                assert(matched@ =~= old(matched)@ + gathered@.subrange(
                    range.start as int,
                    range.end as int,
                ));
                Step { consume: total - held, total, phase: Phase::Matched }
            },
            None => {
                assert(before@ =~= old(before)@ + Seq::<u8>::empty());
                assert(matched@ =~= old(matched)@ + Seq::<u8>::empty());
                Step { consume: fresh, total: gathered.len(), phase: Phase::Scanning }
            },
        }
    }
}

/// A scan in progress: the needle, and what was gathered from the source
/// since the scan began.
pub struct ReadUntilNeedle<N> {
    needle: N,
    buf: Vec<u8>,
}

impl<N: Needle> ReadUntilNeedle<N> {
    /// The pattern that the scan looks for.
    pub closed spec fn needle(&self) -> N {
        self.needle
    }

    /// The bytes gathered so far.
    pub closed spec fn buffered(&self) -> Seq<u8> {
        self.buf@
    }

    /// What a step on `event` does, from where the scan stands.
    pub open spec fn next<E>(&self, event: Event<E>) -> Outcome<E> {
        outcome(self.needle(), self.buffered(), event)
    }

    /// A scan for `needle` that has gathered nothing yet.
    pub fn new(needle: N) -> (scan: Self)
        ensures
            scan.needle() == needle,
            scan.buffered() == Seq::<u8>::empty(),
    {
        ReadUntilNeedle { needle, buf: Vec::new() }
    }

    /// Takes the answer of one fill and decides how the scan goes on. When
    /// the scan ends in a match or at the end of the stream, it is ready to
    /// begin again with nothing gathered.
    pub fn step<E>(
        &mut self,
        fill: Fill<'_, E>,
        before: &mut Vec<u8>,
        matched: &mut Vec<u8>,
    ) -> (step: Step<E>)
        ensures
            final(self).needle() == old(self).needle(),
            final(self).buffered() == old(self).next(fill@).buffered,
            final(before)@ == old(before)@ + old(self).next(fill@).before,
            final(matched)@ == old(matched)@ + old(self).next(fill@).matched,
            step.consume == old(self).next(fill@).consume,
            step.total == old(self).next(fill@).total,
            step.phase == old(self).next(fill@).phase,
            step.consume <= chunk(fill@).len(),
            step.total == old(self).buffered().len() + step.consume,
            !(step.phase is Matched) ==> final(matched)@ == old(matched)@,
    {
        match fill {
            Fill::Interrupted => {
                assert(before@ =~= old(before)@ + Seq::<u8>::empty());
                assert(matched@ =~= old(matched)@ + Seq::<u8>::empty());
                Step { consume: 0, total: self.buf.len(), phase: Phase::Scanning }
            },
            Fill::Failed(error) => {
                assert(before@ =~= old(before)@ + Seq::<u8>::empty());
                assert(matched@ =~= old(matched)@ + Seq::<u8>::empty());
                Step { consume: 0, total: self.buf.len(), phase: Phase::Failed(error) }
            },
            Fill::Available(available) => {
                self.buf.extend_from_slice(available);
                assert(self.buf@ =~= old(self).buf@ + available@);
                let found = if available.len() == 0 {
                    None
                } else {
                    proof {
                        self.needle.first_match_in_bounds(self.buf@);
                    }
                    self.needle.findin(self.buf.as_slice())
                };
                let step = decide(self.buf.as_slice(), available.len(), found, before, matched);
                match step.phase {
                    Phase::Scanning => {},
                    _ => {
                        self.buf.clear();
                    },
                }
                step
            },
        }
    }
}

} // verus!
