//! What a receiver makes of the frames of one message: which frames it takes,
//! what it hands over and how often it clears the sender to send.

use crate::bus::FrameView;
use crate::collect::{
    AnsweringView, ArrivedView, CollectStepView, CollectorView, ListeningView, PartialView,
};
use crate::error::IsoTpError;
use crate::frame::{parsed, PciView};
use crate::pacing::granted;
use vstd::arithmetic::div_mod::{lemma_basic_div, lemma_hoist_over_denominator};
use vstd::prelude::*;

verus! {

/// What became of a run of frames.
pub struct Intake {
    /// The frames that the receiver transmitted meanwhile.
    pub answers: Seq<FrameView>,
    /// The step at which it stands, or what it failed with.
    pub outcome: Result<CollectStepView, IsoTpError>,
    /// The frames that it left unread.
    pub unread: nat,
}

/// The receiver at `step` reads `frames`, and transmits what it wants to
/// transmit, until it is through, fails or has read them all. What it reads or
/// transmits `i` places on is read or transmitted at the reading `at + i` of
/// `clock`.
pub open spec fn intake(
    step: CollectStepView,
    frames: Seq<Seq<u8>>,
    clock: spec_fn(nat) -> nat,
    at: nat,
) -> Intake
    decreases
            frames.len(),
            if step is Transmit {
                1int
            } else {
                0int
            },
{
    match step {
        CollectStepView::Transmit { frame, then } => {
            let rest: Intake = intake(then.proceed(clock(at)), frames, clock, at + 1);
            Intake { answers: seq![frame] + rest.answers, ..rest }
        },
        CollectStepView::Receive { listening } => if frames.len() == 0 {
            Intake { answers: Seq::empty(), outcome: Ok(step), unread: 0 }
        } else {
            match listening.heard(Some(frames[0]), clock(at)) {
                Ok(next) => intake(next, frames.skip(1), clock, at + 1),
                Err(error) => Intake {
                    answers: Seq::empty(),
                    outcome: Err(error),
                    unread: (frames.len() - 1) as nat,
                },
            }
        },
        CollectStepView::Done { arrived } => Intake {
            answers: Seq::empty(),
            outcome: Ok(step),
            unread: frames.len(),
        },
    }
}

/// Whether the receiver handed a message over on reading the last frame.
pub open spec fn completed(intake: Intake) -> bool {
    &&& intake.outcome matches Ok(CollectStepView::Done { arrived })
    &&& intake.unread == 0
}

/// Whether `frames` are consecutive frames numbered from `index` on, modulo
/// sixteen.
pub open spec fn numbered(frames: Seq<Seq<u8>>, index: nat) -> bool {
    forall|i: int|
        0 <= i < frames.len() ==> is_numbered(#[trigger] frames[i], (index + i) as nat)
}

/// Whether `frame` is a consecutive frame with the number `index` modulo sixteen.
pub open spec fn is_numbered(frame: Seq<u8>, index: nat) -> bool {
    parsed(frame) matches Ok(PciView::Consecutive { index: named, data }) && named == index % 16
}

/// What a consecutive frame carries.
pub open spec fn carried(frame: Seq<u8>) -> Seq<u8> {
    match parsed(frame) {
        Ok(PciView::Consecutive { index, data }) => data,
        _ => Seq::empty(),
    }
}

/// What `frames` carry, joined.
pub open spec fn joined(frames: Seq<Seq<u8>>) -> Seq<u8>
    decreases frames.len(),
{
    if frames.len() == 0 {
        Seq::empty()
    } else {
        carried(frames[0]) + joined(frames.skip(1))
    }
}

/// Whether `frames` and no fewer of them bring a message of which `have` bytes
/// are in to `length` bytes.
pub open spec fn brings_to(frames: Seq<Seq<u8>>, have: nat, length: nat) -> bool {
    &&& have + joined(frames).len() >= length
    &&& frames.len() > 0 ==> have + joined(frames.drop_last()).len() < length
}

/// `bytes` without what they have over `length`.
pub open spec fn cut(bytes: Seq<u8>, length: nat) -> Seq<u8> {
    if bytes.len() <= length {
        bytes
    } else {
        bytes.take(length as int)
    }
}

/// The flow controls that a message with `count` consecutive frames takes: one
/// for its first frame, and one more after every full block but at its end.
pub open spec fn flow_controls(block_size: u8, count: nat) -> nat {
    if block_size == 0 || count == 0 {
        1
    } else {
        1 + (count - 1) as nat / block_size as nat
    }
}

/// The flow controls that `count` more frames take where `room` are due before
/// the next one.
spec fn more_flow_controls(block_size: u8, room: Option<u8>, count: nat) -> nat {
    match room {
        Some(left) => if count == 0 {
            0
        } else {
            (count - 1 + block_size - left) as nat / block_size as nat
        },
        None => 0,
    }
}

/// Whether `room` is what a receiver with `block_size` can count.
spec fn room_fits(block_size: u8, room: Option<u8>) -> bool {
    match room {
        Some(left) => 1 <= left <= block_size,
        None => block_size == 0,
    }
}

proof fn joining_splits(frames: Seq<Seq<u8>>)
    requires
        frames.len() > 1,
    ensures
        joined(frames.drop_last()) == carried(frames[0]) + joined(frames.skip(1).drop_last()),
{
    assert(frames.drop_last().skip(1) =~= frames.skip(1).drop_last());
}

proof fn numbering_splits(frames: Seq<Seq<u8>>, index: nat)
    requires
        frames.len() > 0,
    ensures
        numbered(frames, index) <==> is_numbered(frames[0], index) && numbered(
            frames.skip(1),
            index + 1,
        ),
{
    let rest: Seq<Seq<u8>> = frames.skip(1);
    if is_numbered(frames[0], index) && numbered(rest, index + 1) {
        assert forall|i: int| 0 <= i < frames.len() implies is_numbered(
            #[trigger] frames[i],
            (index + i) as nat,
        ) by {
            if i > 0 {
                assert(frames[i] == rest[i - 1]);
                assert(is_numbered(rest[i - 1], (index + 1 + (i - 1)) as nat));
            }
        }
    }
    if numbered(frames, index) {
        assert forall|i: int| 0 <= i < rest.len() implies is_numbered(
            #[trigger] rest[i],
            (index + 1 + i) as nat,
        ) by {
            assert(rest[i] == frames[i + 1]);
            assert(is_numbered(frames[i + 1], (index + (i + 1)) as nat));
        }
        assert(is_numbered(frames[0], (index + 0) as nat));
    }
}

/// One frame into a block that is to be answered, or not, is one less to count.
proof fn counting_on(block_size: u8, left: u8, count: nat)
    requires
        1 <= left <= block_size,
        count > 0,
    ensures
        count == 1 ==> more_flow_controls(block_size, Some(left), count) == 0,
        count > 1 && left == 1 ==> more_flow_controls(block_size, Some(left), count) == 1
            + more_flow_controls(block_size, Some(block_size), (count - 1) as nat),
        count > 1 && left > 1 ==> more_flow_controls(block_size, Some(left), count)
            == more_flow_controls(block_size, Some((left - 1) as u8), (count - 1) as nat),
{
    if count == 1 {
        lemma_basic_div(block_size - left, block_size as int);
    } else if left == 1 {
        lemma_hoist_over_denominator(count - 2, 1, block_size as nat);
    }
}

/// The step at which `end` waits for more of `partial`, from `since` on.
spec fn waiting(end: CollectorView, partial: PartialView, since: nat) -> CollectStepView {
    CollectStepView::Receive { listening: ListeningView { end, since, partial: Some(partial) } }
}

/// What a receiver inside a message makes of the frames that follow.
proof fn rest_of_a_message(
    end: CollectorView,
    partial: PartialView,
    since: nat,
    index: nat,
    frames: Seq<Seq<u8>>,
    clock: spec_fn(nat) -> nat,
    at: nat,
)
    requires
        !partial.whole(),
        partial.expected == index % 16,
        room_fits(end.pacing.block_size, partial.room),
    ensures
        ({
            let taken: Intake = intake(waiting(end, partial, since), frames, clock, at);
            let answers: nat = more_flow_controls(
                end.pacing.block_size,
                partial.room,
                frames.len(),
            );
            &&& completed(taken) <==> numbered(frames, index) && brings_to(
                frames,
                partial.bytes.len(),
                partial.length,
            )
            &&& completed(taken) ==> {
                &&& taken.outcome == Ok::<CollectStepView, IsoTpError>(
                    CollectStepView::Done {
                        arrived: ArrivedView {
                            origin_uri: end.origin,
                            bytes: cut(partial.bytes + joined(frames), partial.length),
                        },
                    },
                )
                &&& taken.answers == Seq::new(answers, |i: int| end.go_ahead())
            }
        }),
    decreases frames.len(),
{
    let step: CollectStepView = waiting(end, partial, since);
    let taken: Intake = intake(step, frames, clock, at);
    if frames.len() > 0 {
        let rest: Seq<Seq<u8>> = frames.skip(1);
        let listening: ListeningView = ListeningView { end, since, partial: Some(partial) };
        let heard: Result<CollectStepView, IsoTpError> = listening.heard(
            Some(frames[0]),
            clock(at),
        );
        numbering_splits(frames, index);
        if is_numbered(frames[0], index) {
            let longer: PartialView = partial.extended(carried(frames[0]));
            if longer.whole() {
                ended_by_one_frame(end, partial, since, index, frames, clock, at);
            } else {
                assert(longer.bytes =~= partial.bytes + carried(frames[0]));
                let answered: bool = longer.room == Some(0u8);
                let next: PartialView = if answered {
                    PartialView { room: granted(end.pacing.block_size), ..longer }
                } else {
                    longer
                };
                if answered {
                    let inner: Intake = intake(
                        waiting(end, next, clock(at + 1)),
                        rest,
                        clock,
                        at + 2,
                    );
                    rest_of_a_message(end, next, clock(at + 1), index + 1, rest, clock, at + 2);
                    assert(heard == Ok::<CollectStepView, IsoTpError>(end.answer(next)));
                    assert((AnsweringView { end, partial: next }).proceed(clock(at + 1)) == waiting(
                        end,
                        next,
                        clock(at + 1),
                    ));
                    assert(intake(end.answer(next), rest, clock, at + 1) == (Intake {
                        answers: seq![end.go_ahead()] + inner.answers,
                        ..inner
                    }));
                    assert(taken == intake(end.answer(next), rest, clock, at + 1));
                } else {
                    rest_of_a_message(end, next, clock(at), index + 1, rest, clock, at + 1);
                    assert(heard == Ok::<CollectStepView, IsoTpError>(
                        waiting(end, next, clock(at)),
                    ));
                    assert(taken == intake(waiting(end, next, clock(at)), rest, clock, at + 1));
                }
                assert(joined(frames) == carried(frames[0]) + joined(rest));
                if rest.len() > 0 {
                    joining_splits(frames);
                    assert(joined(frames.drop_last()).len() == carried(frames[0]).len() + joined(
                        rest.drop_last(),
                    ).len());
                    match partial.room {
                        Some(left) => counting_on(end.pacing.block_size, left, frames.len()),
                        None => {},
                    }
                }
                assert(partial.bytes + joined(frames) =~= next.bytes + joined(rest));
                assert(brings_to(frames, partial.bytes.len(), partial.length) <==> brings_to(
                    rest,
                    next.bytes.len(),
                    next.length,
                ));
                if completed(taken) {
                    assert(rest.len() > 0);
                    let answers: nat = more_flow_controls(
                        end.pacing.block_size,
                        partial.room,
                        frames.len(),
                    );
                    assert(taken.answers =~= Seq::new(answers, |i: int| end.go_ahead()));
                }
            }
        }
    } else {
        assert(taken.outcome == Ok::<CollectStepView, IsoTpError>(step));
    }
}

proof fn ended_by_one_frame(
    end: CollectorView,
    partial: PartialView,
    since: nat,
    index: nat,
    frames: Seq<Seq<u8>>,
    clock: spec_fn(nat) -> nat,
    at: nat,
)
    requires
        !partial.whole(),
        partial.expected == index % 16,
        room_fits(end.pacing.block_size, partial.room),
        frames.len() > 0,
        is_numbered(frames[0], index),
        partial.extended(carried(frames[0])).whole(),
    ensures
        ({
            let taken: Intake = intake(waiting(end, partial, since), frames, clock, at);
            &&& completed(taken) <==> frames.len() == 1
            &&& brings_to(frames, partial.bytes.len(), partial.length) <==> frames.len() == 1
            &&& taken.outcome == Ok::<CollectStepView, IsoTpError>(
                CollectStepView::Done {
                    arrived: ArrivedView {
                        origin_uri: end.origin,
                        bytes: partial.extended(carried(frames[0])).bytes,
                    },
                },
            )
            &&& frames.len() == 1 ==> partial.extended(carried(frames[0])).bytes == cut(
                partial.bytes + joined(frames),
                partial.length,
            )
            &&& frames.len() == 1 ==> more_flow_controls(
                end.pacing.block_size,
                partial.room,
                1,
            ) == 0
            &&& taken.answers == Seq::<FrameView>::empty()
        }),
{
    let rest: Seq<Seq<u8>> = frames.skip(1);
    let longer: PartialView = partial.extended(carried(frames[0]));
    let listening: ListeningView = ListeningView { end, since, partial: Some(partial) };
    assert(listening.heard(Some(frames[0]), clock(at)) == Ok::<CollectStepView, IsoTpError>(
        end.advance(longer, clock(at)),
    ));
    assert(intake(waiting(end, partial, since), frames, clock, at) == intake(
        end.advance(longer, clock(at)),
        rest,
        clock,
        at + 1,
    ));
    if frames.len() == 1 {
        assert(joined(rest) =~= Seq::<u8>::empty());
        assert(joined(frames) =~= carried(frames[0]));
        assert(joined(frames.drop_last()) =~= Seq::<u8>::empty());
        assert(longer.bytes =~= cut(partial.bytes + joined(frames), partial.length));
        match partial.room {
            Some(left) => counting_on(end.pacing.block_size, left, 1),
            None => {},
        }
    } else {
        joining_splits(frames);
    }
}

/// A receiver that hears a first frame and then `frames` hands a message over on
/// the last of them exactly where they are consecutive frames, the one at place
/// `i`, counted from one, numbered `i` modulo sixteen, and where they and no
/// fewer of them bring the message to the length that the first frame
/// announced. The message is then what the first frame and the others carry,
/// joined and cut to that length; and the receiver has transmitted its flow
/// control once for the first frame and once after every full block but at the
/// end of the message, and nothing else. All this holds whenever the wait began
/// and whatever the clock reads at each step.
pub proof fn a_message_is_its_frames_joined(
    end: CollectorView,
    since: nat,
    opening: Seq<u8>,
    length: nat,
    data: Seq<u8>,
    frames: Seq<Seq<u8>>,
    clock: spec_fn(nat) -> nat,
    at: nat,
)
    requires
        parsed(opening) == Ok::<PciView, IsoTpError>(PciView::First { length, data }),
    ensures
        ({
            let taken: Intake = intake(end.open(since), seq![opening] + frames, clock, at);
            let answers: nat = flow_controls(end.pacing.block_size, frames.len());
            &&& completed(taken) <==> numbered(frames, 1) && brings_to(frames, data.len(), length)
            &&& completed(taken) ==> {
                &&& taken.outcome == Ok::<CollectStepView, IsoTpError>(
                    CollectStepView::Done {
                        arrived: ArrivedView {
                            origin_uri: end.origin,
                            bytes: cut(data + joined(frames), length),
                        },
                    },
                )
                &&& taken.answers == Seq::new(answers, |i: int| end.go_ahead())
            }
        }),
{
    let all: Seq<Seq<u8>> = seq![opening] + frames;
    let block_size: u8 = end.pacing.block_size;
    let partial: PartialView = PartialView::begun(length, data, block_size);
    let listening: ListeningView = ListeningView { end, since, partial: None };
    let answered: nat = clock(at + 1);
    let taken: Intake = intake(end.open(since), all, clock, at);
    let inner: Intake = intake(end.advance(partial, answered), frames, clock, at + 2);
    assert(all.skip(1) =~= frames);
    assert(listening.heard(Some(all[0]), clock(at)) == Ok::<CollectStepView, IsoTpError>(
        end.answer(partial),
    ));
    assert((AnsweringView { end, partial }).proceed(answered) == end.advance(partial, answered));
    assert(intake(end.answer(partial), frames, clock, at + 1) == (Intake {
        answers: seq![end.go_ahead()] + inner.answers,
        ..inner
    }));
    assert(taken == intake(end.answer(partial), frames, clock, at + 1));
    if partial.whole() {
        assert(inner.answers =~= Seq::<FrameView>::empty());
        if frames.len() == 0 {
            assert(joined(frames) =~= Seq::<u8>::empty());
            assert(data + joined(frames) =~= data);
        }
        assert(taken.answers =~= Seq::new(1, |i: int| end.go_ahead()));
    } else {
        rest_of_a_message(end, partial, answered, 1, frames, clock, at + 2);
        if completed(taken) {
            assert(frames.len() > 0);
            let answers: nat = flow_controls(block_size, frames.len());
            assert(taken.answers =~= Seq::new(answers, |i: int| end.go_ahead()));
        }
    }
}

/// `step` as if its wait, where it is one, had begun at zero.
pub open spec fn undated(step: CollectStepView) -> CollectStepView {
    match step {
        CollectStepView::Receive { listening } => CollectStepView::Receive {
            listening: ListeningView { since: 0, ..listening },
        },
        _ => step,
    }
}

/// The clock decides nothing about the frames that a receiver hears: whatever it
/// reads at each step, the receiver transmits the same frames, leaves the same
/// unread and comes to the same step or the same failure. Only when the last
/// wait began is another matter.
pub proof fn the_clock_only_dates_the_wait(
    step: CollectStepView,
    other: CollectStepView,
    frames: Seq<Seq<u8>>,
    clock: spec_fn(nat) -> nat,
    other_clock: spec_fn(nat) -> nat,
    at: nat,
)
    requires
        undated(step) == undated(other),
    ensures
        ({
            let taken: Intake = intake(step, frames, clock, at);
            let again: Intake = intake(other, frames, other_clock, at);
            &&& taken.answers == again.answers
            &&& taken.unread == again.unread
            &&& match (taken.outcome, again.outcome) {
                (Ok(one), Ok(two)) => undated(one) == undated(two),
                (Err(one), Err(two)) => one == two,
                _ => false,
            }
        }),
    decreases
            frames.len(),
            if step is Transmit {
                1int
            } else {
                0int
            },
{
    match step {
        CollectStepView::Transmit { frame, then } => {
            the_clock_only_dates_the_wait(
                then.proceed(clock(at)),
                then.proceed(other_clock(at)),
                frames,
                clock,
                other_clock,
                at + 1,
            );
        },
        CollectStepView::Receive { listening } => {
            if frames.len() > 0 {
                let twin: ListeningView = other->listening;
                assert(twin.end == listening.end && twin.partial == listening.partial);
                let heard: Result<CollectStepView, IsoTpError> = listening.heard(
                    Some(frames[0]),
                    clock(at),
                );
                let heard_again: Result<CollectStepView, IsoTpError> = twin.heard(
                    Some(frames[0]),
                    other_clock(at),
                );
                if heard is Ok {
                    assert(heard_again is Ok);
                    assert(undated(heard->Ok_0) == undated(heard_again->Ok_0));
                    the_clock_only_dates_the_wait(
                        heard->Ok_0,
                        heard_again->Ok_0,
                        frames.skip(1),
                        clock,
                        other_clock,
                        at + 1,
                    );
                }
            }
        },
        CollectStepView::Done { arrived } => {},
    }
}

} // verus!
