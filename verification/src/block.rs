//! What one flow control lets through: a block of frames, with the gaps that
//! the receiver asked for.

use crate::bus::FrameView;
use crate::deliver::{ClearanceView, DeliverStepView, DeliveryView, OutgoingView};
use crate::error::IsoTpError;
use crate::frame::{consecutive_frame, parsed, FlowStatus, PciView, CONSECUTIVE_DATA};
use crate::pacing::{granted, one_taken};
use vstd::prelude::*;

verus! {

/// What the sender does on the bus.
pub enum Emission {
    /// It transmits a frame.
    Transmitted(FrameView),
    /// It lets this many milliseconds go by.
    Paused(u8),
}

/// The steps that can follow `step` before the sender waits or is through,
/// at most.
pub open spec fn steps_left(step: DeliverStepView) -> nat {
    match step {
        DeliverStepView::Transmit { frame, then } => steps_after(then) + 1,
        DeliverStepView::Pause { millis, then } => steps_after(then) + 1,
        _ => 0,
    }
}

/// See [`steps_left`].
pub open spec fn steps_after(delivery: DeliveryView) -> nat {
    match delivery {
        DeliveryView::Opened { out } => 0,
        DeliveryView::Sent { out, room, separation } => 3 * bytes_left(out) + 1,
        DeliveryView::Paused { out, room, separation } => 3 * bytes_left(out),
    }
}

/// The payload bytes that are not out.
pub open spec fn bytes_left(out: OutgoingView) -> nat {
    if out.more() {
        (out.payload.len() - out.next()) as nat
    } else {
        0
    }
}

/// What the sender does from `step` on until it waits for flow control or is
/// through. What it does `i` places on is done at the reading `at + i` of
/// `clock`.
pub open spec fn emissions(step: DeliverStepView, clock: spec_fn(nat) -> nat, at: nat) -> Seq<
    Emission,
>
    decreases steps_left(step),
{
    match step {
        DeliverStepView::Transmit { frame, then } => seq![Emission::Transmitted(frame)]
            + emissions(then.proceed(clock(at)), clock, at + 1),
        DeliverStepView::Pause { millis, then } => seq![Emission::Paused(millis)] + emissions(
            then.proceed(clock(at)),
            clock,
            at + 1,
        ),
        _ => Seq::empty(),
    }
}

/// The step at which it waits or is through.
pub open spec fn settled(
    step: DeliverStepView,
    clock: spec_fn(nat) -> nat,
    at: nat,
) -> DeliverStepView
    decreases steps_left(step),
{
    match step {
        DeliverStepView::Transmit { frame, then } => settled(
            then.proceed(clock(at)),
            clock,
            at + 1,
        ),
        DeliverStepView::Pause { millis, then } => settled(
            then.proceed(clock(at)),
            clock,
            at + 1,
        ),
        _ => step,
    }
}

/// Where the sender with `out` stands once what it had to do is done: it waits,
/// from `now` on, or is through.
pub open spec fn waits_or_is_through(out: OutgoingView, now: nat) -> DeliverStepView {
    if out.more() {
        out.wait(now)
    } else {
        DeliverStepView::Done
    }
}

/// The frames among `emissions`.
pub open spec fn transmitted(emissions: Seq<Emission>) -> Seq<FrameView>
    decreases emissions.len(),
{
    if emissions.len() == 0 {
        Seq::empty()
    } else {
        match emissions[0] {
            Emission::Transmitted(frame) => seq![frame] + transmitted(emissions.skip(1)),
            Emission::Paused(_) => transmitted(emissions.skip(1)),
        }
    }
}

/// The gap of `separation` milliseconds; zero is none.
pub open spec fn gap(separation: u8) -> Seq<Emission> {
    if separation == 0 {
        Seq::empty()
    } else {
        seq![Emission::Paused(separation)]
    }
}

/// `frames` with a gap of `separation` milliseconds before each of them but,
/// where `opens` says so, the one at the very start.
pub open spec fn spaced(frames: Seq<FrameView>, separation: u8, opens: bool) -> Seq<Emission>
    decreases frames.len(),
{
    if frames.len() == 0 {
        Seq::empty()
    } else {
        let before: Seq<Emission> = if opens {
            Seq::empty()
        } else {
            gap(separation)
        };
        before + seq![Emission::Transmitted(frames[0])] + spaced(
            frames.skip(1),
            separation,
            false,
        )
    }
}

/// What the sender does for a block of `frames`: the frames, spaced, and after
/// the last one of a message the gap again.
pub open spec fn block_done(
    frames: Seq<FrameView>,
    separation: u8,
    opens: bool,
    more: bool,
) -> Seq<Emission> {
    spaced(frames, separation, opens) + if more {
        Seq::empty()
    } else {
        gap(separation)
    }
}

/// The consecutive frames that are still to go.
pub open spec fn frames_left(out: OutgoingView) -> nat {
    (bytes_left(out) + CONSECUTIVE_DATA as nat - 1) as nat / CONSECUTIVE_DATA as nat
}

/// The frames of the block that `room` lets through.
pub open spec fn block_length(out: OutgoingView, room: Option<u8>) -> nat {
    match room {
        Some(left) => if left < frames_left(out) {
            left as nat
        } else {
            frames_left(out)
        },
        None => frames_left(out),
    }
}

/// The next `length` frames of `out`, numbered on from those that are out.
pub open spec fn next_frames(out: OutgoingView, length: nat) -> Seq<FrameView> {
    Seq::new(
        length,
        |i: int|
            FrameView::under(
                out.id,
                consecutive_frame(
                    (out.sent + i + 1) as nat,
                    (OutgoingView { sent: (out.sent + i) as nat, ..out }).chunk(),
                ),
            ),
    )
}

proof fn transmitted_after(first: Emission, rest: Seq<Emission>)
    ensures
        transmitted(seq![first] + rest) == match first {
            Emission::Transmitted(frame) => seq![frame] + transmitted(rest),
            Emission::Paused(_) => transmitted(rest),
        },
{
    assert((seq![first] + rest).skip(1) =~= rest);
}

proof fn next_frames_after(out: OutgoingView, length: nat)
    ensures
        next_frames(out, length + 1) == seq![
            FrameView::under(out.id, consecutive_frame(out.sent + 1, out.chunk())),
        ] + next_frames(OutgoingView { sent: out.sent + 1, ..out }, length),
{
    let next: OutgoingView = OutgoingView { sent: out.sent + 1, ..out };
    let head: FrameView = FrameView::under(out.id, consecutive_frame(out.sent + 1, out.chunk()));
    let whole: Seq<FrameView> = next_frames(out, length + 1);
    assert(out == (OutgoingView { sent: (out.sent + 0) as nat, ..out }));
    assert(whole[0] == head);
    assert forall|i: int| 0 < i < whole.len() implies whole[i] == (seq![head] + next_frames(
        next,
        length,
    ))[i] by {
        assert((OutgoingView { sent: (next.sent + (i - 1)) as nat, ..next }) == (OutgoingView {
            sent: (out.sent + i) as nat,
            ..out
        }));
    }
    assert(whole =~= seq![head] + next_frames(next, length));
}

/// A gap before a block that opens with a frame makes one that opens with a gap.
proof fn spaced_after_gap(frames: Seq<FrameView>, separation: u8, more: bool)
    requires
        frames.len() > 0,
    ensures
        gap(separation) + block_done(frames, separation, true, more) == block_done(
            frames,
            separation,
            false,
            more,
        ),
{
    assert(gap(separation) + spaced(frames, separation, true) =~= spaced(
        frames,
        separation,
        false,
    ));
    assert(gap(separation) + block_done(frames, separation, true, more) =~= block_done(
        frames,
        separation,
        false,
        more,
    ));
}

/// A frame before a block that opens with a gap makes a longer one.
proof fn spaced_after_frame(
    frame: FrameView,
    frames: Seq<FrameView>,
    separation: u8,
    more: bool,
)
    ensures
        seq![Emission::Transmitted(frame)] + block_done(frames, separation, false, more)
            == block_done(seq![frame] + frames, separation, true, more),
{
    let all: Seq<FrameView> = seq![frame] + frames;
    assert(all.skip(1) =~= frames);
    assert(seq![Emission::Transmitted(frame)] + spaced(frames, separation, false) =~= spaced(
        all,
        separation,
        true,
    ));
    assert(seq![Emission::Transmitted(frame)] + block_done(frames, separation, false, more)
        =~= block_done(all, separation, true, more));
}

/// One frame more is one frame less of the block.
proof fn block_shrinks(out: OutgoingView, room: Option<u8>)
    requires
        out.more(),
        room != Some(0u8),
    ensures
        block_length(out, room) == block_length(
            OutgoingView { sent: out.sent + 1, ..out },
            one_taken(room),
        ) + 1,
        bytes_left(OutgoingView { sent: out.sent + 1, ..out }) < bytes_left(out),
{
    let next: OutgoingView = OutgoingView { sent: out.sent + 1, ..out };
    assert(next.next() == out.next() + CONSECUTIVE_DATA);
    assert(frames_left(out) == frames_left(next) + 1);
}

proof fn block_follows(
    out: OutgoingView,
    room: Option<u8>,
    separation: u8,
    clock: spec_fn(nat) -> nat,
    at: nat,
)
    requires
        out.more() ==> room != Some(0u8),
    ensures
        ({
            let step: DeliverStepView = out.advance(room, separation);
            let length: nat = block_length(out, room);
            let after: OutgoingView = OutgoingView { sent: out.sent + length, ..out };
            let done: Seq<Emission> = emissions(step, clock, at);
            &&& transmitted(done) == next_frames(out, length)
            &&& out.more() ==> done == block_done(
                next_frames(out, length),
                separation,
                true,
                after.more(),
            )
            &&& out.more() ==> done.len() > 0
            &&& settled(step, clock, at) == waits_or_is_through(
                after,
                clock((at + done.len() - 1) as nat),
            )
        }),
    decreases bytes_left(out),
{
    let step: DeliverStepView = out.advance(room, separation);
    let length: nat = block_length(out, room);
    if out.more() {
        let left: Option<u8> = one_taken(room);
        let next: OutgoingView = OutgoingView { sent: out.sent + 1, ..out };
        let sent: DeliveryView = DeliveryView::Sent { out: next, room: left, separation };
        let head: FrameView = FrameView::under(
            out.id,
            consecutive_frame(out.sent + 1, out.chunk()),
        );
        let follow: DeliverStepView = sent.proceed(clock(at));
        let rest: Seq<Emission> = emissions(follow, clock, at + 1);
        block_shrinks(out, room);
        assert(emissions(step, clock, at) == seq![Emission::Transmitted(head)] + rest);
        assert(settled(step, clock, at) == settled(follow, clock, at + 1));
        transmitted_after(Emission::Transmitted(head), rest);
        next_frames_after(out, (length - 1) as nat);
        let after: OutgoingView = OutgoingView { sent: out.sent + length, ..out };
        let tail: Seq<FrameView> = next_frames(next, (length - 1) as nat);
        assert(after == (OutgoingView { sent: next.sent + (length - 1) as nat, ..next }));
        spaced_after_frame(head, tail, separation, after.more());
        if left == Some(0u8) && next.more() {
            assert(rest =~= Seq::<Emission>::empty());
            assert(length == 1);
            assert(block_done(tail, separation, false, true) =~= rest);
            assert(next_frames(next, 0) =~= Seq::<FrameView>::empty());
            assert(transmitted(rest) =~= Seq::<FrameView>::empty());
            assert(settled(follow, clock, at + 1) == next.wait(clock(at)));
        } else {
            if next.more() {
                block_shrinks(next, left);
                spaced_after_gap(tail, separation, after.more());
            } else {
                assert(tail =~= Seq::<FrameView>::empty());
                assert(block_done(tail, separation, false, false) =~= gap(separation));
            }
            if separation != 0 {
                let advanced: DeliverStepView = next.advance(left, separation);
                let inner: Seq<Emission> = emissions(advanced, clock, at + 2);
                block_follows(next, left, separation, clock, at + 2);
                assert(rest == seq![Emission::Paused(separation)] + inner);
                assert(settled(follow, clock, at + 1) == settled(advanced, clock, at + 2));
                transmitted_after(Emission::Paused(separation), inner);
                assert(next.more() || rest =~= gap(separation));
            } else {
                block_follows(next, left, separation, clock, at + 1);
                assert(follow == next.advance(left, separation));
                assert(gap(separation) + rest =~= rest);
            }
        }
    } else {
        assert(transmitted(emissions(step, clock, at)) =~= next_frames(out, length));
    }
}

/// A sender that is cleared to send transmits exactly one block, as the
/// receiver sized it: the next frames of the payload, in order, as many as
/// the block size says or as are left where that is fewer or says no limit. It
/// leaves the gap the receiver asked for before every frame but the first of
/// the message, and after the last one, and no other. Then it waits for the next clearance, from the reading at which
/// its last frame was out, or is through if nothing is left. All this holds
/// whatever the clock reads at each step.
pub proof fn a_clearance_lets_one_block_through(
    waiting: ClearanceView,
    frame: Seq<u8>,
    block_size: u8,
    separation: u8,
    clock: spec_fn(nat) -> nat,
    at: nat,
)
    requires
        waiting.out.more(),
        parsed(frame) == Ok::<PciView, IsoTpError>(
            PciView::Flow { status: FlowStatus::Continue, block_size, separation },
        ),
    ensures
        ({
            let heard: Result<DeliverStepView, IsoTpError> = waiting.heard(
                Some(frame),
                clock(at),
            );
            let done: Seq<Emission> = emissions(heard->Ok_0, clock, at + 1);
            let length: nat = block_length(waiting.out, granted(block_size));
            let after: OutgoingView = OutgoingView {
                sent: waiting.out.sent + length,
                ..waiting.out
            };
            &&& heard is Ok
            &&& transmitted(done) == next_frames(waiting.out, length)
            &&& done == block_done(
                next_frames(waiting.out, length),
                separation,
                waiting.out.sent == 0,
                after.more(),
            )
            &&& done.len() > 0
            &&& settled(heard->Ok_0, clock, at + 1) == waits_or_is_through(
                after,
                clock(at + done.len()),
            )
        }),
{
    let room: Option<u8> = granted(block_size);
    let step: DeliverStepView = waiting.out.advance(room, separation);
    let length: nat = block_length(waiting.out, room);
    let after: OutgoingView = OutgoingView { sent: waiting.out.sent + length, ..waiting.out };
    let frames: Seq<FrameView> = next_frames(waiting.out, length);
    block_shrinks(waiting.out, room);
    spaced_after_gap(frames, separation, after.more());
    if waiting.out.sent != 0 && separation != 0 {
        let rest: DeliverStepView = waiting.out.rest(room, separation);
        let inner: Seq<Emission> = emissions(step, clock, at + 2);
        block_follows(waiting.out, room, separation, clock, at + 2);
        assert(emissions(rest, clock, at + 1) == gap(separation) + inner);
        assert(settled(rest, clock, at + 1) == settled(step, clock, at + 2));
        transmitted_after(Emission::Paused(separation), inner);
    } else {
        let inner: Seq<Emission> = emissions(step, clock, at + 1);
        block_follows(waiting.out, room, separation, clock, at + 1);
        assert(separation == 0 ==> gap(separation) + inner =~= inner);
    }
}

} // verus!
