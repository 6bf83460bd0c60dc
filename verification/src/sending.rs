//! What a sender makes of the clearances of any receiver: which frames go out,
//! how many clearances it reads, and when it is through.

use crate::block::{
    a_clearance_lets_one_block_through, block_done, block_length, emissions, frames_left,
    next_frames, settled, steps_left, transmitted, Emission,
};
use crate::bus::FrameView;
use crate::deliver::{opening_frame, ClearanceView, DeliverStepView, OutgoingView};
use crate::error::IsoTpError;
use crate::frame::{parsed, FlowStatus, PciView, CONSECUTIVE_DATA, SINGLE_MAX};
use crate::message::flow_controls;
use crate::pacing::granted;
use vstd::arithmetic::div_mod::{lemma_basic_div, lemma_hoist_over_denominator};
use vstd::prelude::*;

verus! {

/// What became of a run of a sender.
pub struct Sending {
    /// What the sender did on the bus.
    pub done: Seq<Emission>,
    /// The step at which it stands, or what it failed with.
    pub outcome: Result<DeliverStepView, IsoTpError>,
    /// The frames that it left unread.
    pub unread: nat,
}

/// The sender at `step` does what it wants to do, and reads one of `frames`
/// whenever it waits, until it is through, fails or waits with all of them
/// read. What it does or reads `i` places on is done or read at the reading
/// `at + i` of `clock`.
pub open spec fn sending(
    step: DeliverStepView,
    frames: Seq<Seq<u8>>,
    clock: spec_fn(nat) -> nat,
    at: nat,
) -> Sending
    decreases frames.len(), steps_left(step),
{
    match step {
        DeliverStepView::Transmit { frame, then } => {
            let rest: Sending = sending(then.proceed(clock(at)), frames, clock, at + 1);
            Sending { done: seq![Emission::Transmitted(frame)] + rest.done, ..rest }
        },
        DeliverStepView::Pause { millis, then } => {
            let rest: Sending = sending(then.proceed(clock(at)), frames, clock, at + 1);
            Sending { done: seq![Emission::Paused(millis)] + rest.done, ..rest }
        },
        DeliverStepView::Receive { waiting } => if frames.len() == 0 {
            Sending { done: Seq::empty(), outcome: Ok(step), unread: 0 }
        } else {
            match waiting.heard(Some(frames[0]), clock(at)) {
                Ok(next) => sending(next, frames.skip(1), clock, at + 1),
                Err(error) => Sending {
                    done: Seq::empty(),
                    outcome: Err(error),
                    unread: (frames.len() - 1) as nat,
                },
            }
        },
        DeliverStepView::Done => Sending {
            done: Seq::empty(),
            outcome: Ok(step),
            unread: frames.len(),
        },
    }
}

/// Whether `frame` is flow control that lets the sender carry on.
pub open spec fn clears(frame: Seq<u8>) -> bool {
    parsed(frame) matches Ok(PciView::Flow { status, block_size, separation }) && status
        == FlowStatus::Continue
}

/// The frames to a block that a flow control asks for; zero means all of them.
pub open spec fn block_size_of(frame: Seq<u8>) -> u8 {
    match parsed(frame) {
        Ok(PciView::Flow { status, block_size, separation }) => block_size,
        _ => 0,
    }
}

/// The gap that a flow control asks for, in milliseconds.
pub open spec fn separation_of(frame: Seq<u8>) -> u8 {
    match parsed(frame) {
        Ok(PciView::Flow { status, block_size, separation }) => separation,
        _ => 0,
    }
}

/// The frames that one clearance with `block_size` lets through where `left` are
/// still to go.
pub open spec fn block_of(block_size: u8, left: nat) -> nat {
    if block_size == 0 || left <= block_size {
        left
    } else {
        block_size as nat
    }
}

/// The frames that `clearances` let through, one after the other, where `left`
/// are to go.
pub open spec fn let_through(clearances: Seq<Seq<u8>>, left: nat) -> nat
    decreases clearances.len(),
{
    if clearances.len() == 0 || left == 0 {
        0
    } else {
        let block: nat = block_of(block_size_of(clearances[0]), left);
        block + let_through(clearances.skip(1), (left - block) as nat)
    }
}

/// The clearances that are needed of `clearances` for `left` frames: those that
/// come while frames are still to go.
pub open spec fn needed(clearances: Seq<Seq<u8>>, left: nat) -> nat
    decreases clearances.len(),
{
    if clearances.len() == 0 || left == 0 {
        0
    } else {
        let block: nat = block_of(block_size_of(clearances[0]), left);
        1 + needed(clearances.skip(1), (left - block) as nat)
    }
}

/// What the sender with `out`, of which `left` frames are to go, does for
/// `clearances`: one block for each, with the gaps that it asks for.
pub open spec fn blocks_done(out: OutgoingView, clearances: Seq<Seq<u8>>, left: nat) -> Seq<
    Emission,
>
    decreases clearances.len(),
{
    if clearances.len() == 0 || left == 0 {
        Seq::empty()
    } else {
        let block: nat = block_of(block_size_of(clearances[0]), left);
        block_done(
            next_frames(out, block),
            separation_of(clearances[0]),
            out.sent == 0,
            block < left,
        ) + blocks_done(
            OutgoingView { sent: out.sent + block, ..out },
            clearances.skip(1),
            (left - block) as nat,
        )
    }
}

/// The consecutive frames that a message takes.
pub open spec fn consecutive_frames(out: OutgoingView) -> nat {
    if out.payload.len() <= SINGLE_MAX {
        0
    } else {
        frames_left(OutgoingView { sent: 0, ..out })
    }
}

/// What a sender does up to its next wait it does whatever comes after.
proof fn up_to_the_wait(
    step: DeliverStepView,
    frames: Seq<Seq<u8>>,
    clock: spec_fn(nat) -> nat,
    at: nat,
)
    ensures
        ({
            let done: Seq<Emission> = emissions(step, clock, at);
            let rest: Sending = sending(settled(step, clock, at), frames, clock, at + done.len());
            sending(step, frames, clock, at) == (Sending { done: done + rest.done, ..rest })
        }),
    decreases steps_left(step),
{
    let done: Seq<Emission> = emissions(step, clock, at);
    let rest: Sending = sending(settled(step, clock, at), frames, clock, at + done.len());
    match step {
        DeliverStepView::Transmit { frame, then } => {
            let next: DeliverStepView = then.proceed(clock(at));
            up_to_the_wait(next, frames, clock, at + 1);
            assert(done + rest.done =~= seq![Emission::Transmitted(frame)] + (emissions(
                next,
                clock,
                at + 1,
            ) + rest.done));
        },
        DeliverStepView::Pause { millis, then } => {
            let next: DeliverStepView = then.proceed(clock(at));
            up_to_the_wait(next, frames, clock, at + 1);
            assert(done + rest.done =~= seq![Emission::Paused(millis)] + (emissions(
                next,
                clock,
                at + 1,
            ) + rest.done));
        },
        _ => {
            assert(done + rest.done =~= rest.done);
        },
    }
}

proof fn transmitted_joins(before: Seq<Emission>, after: Seq<Emission>)
    ensures
        transmitted(before + after) == transmitted(before) + transmitted(after),
    decreases before.len(),
{
    if before.len() == 0 {
        assert(before + after =~= after);
        assert(transmitted(before) + transmitted(after) =~= transmitted(after));
    } else {
        assert((before + after).skip(1) =~= before.skip(1) + after);
        transmitted_joins(before.skip(1), after);
        match before[0] {
            Emission::Transmitted(frame) => {
                assert(transmitted(before) + transmitted(after) =~= seq![frame] + (transmitted(
                    before.skip(1),
                ) + transmitted(after)));
            },
            Emission::Paused(_) => {},
        }
    }
}

/// The frames that follow a block are those that follow in the message.
proof fn next_frames_join(out: OutgoingView, block: nat, rest: nat)
    ensures
        next_frames(out, block) + next_frames(
            OutgoingView { sent: out.sent + block, ..out },
            rest,
        ) == next_frames(out, block + rest),
{
    let after: OutgoingView = OutgoingView { sent: out.sent + block, ..out };
    let whole: Seq<FrameView> = next_frames(out, block + rest);
    let parts: Seq<FrameView> = next_frames(out, block) + next_frames(after, rest);
    assert forall|i: int| 0 <= i < whole.len() implies whole[i] == parts[i] by {
        if i >= block {
            assert((OutgoingView { sent: (after.sent + (i - block)) as nat, ..after }) == (
            OutgoingView { sent: (out.sent + i) as nat, ..out }));
        }
    }
    assert(parts =~= whole);
}

/// A block that is out is so many frames less to go.
proof fn a_block_is_taken_off(out: OutgoingView, block: nat)
    requires
        block <= frames_left(out),
    ensures
        frames_left(OutgoingView { sent: out.sent + block, ..out }) == frames_left(out) - block,
        out.more() <==> frames_left(out) > 0,
    decreases block,
{
    if block > 0 {
        let next: OutgoingView = OutgoingView { sent: out.sent + 1, ..out };
        assert(next.next() == out.next() + CONSECUTIVE_DATA);
        assert(frames_left(next) == frames_left(out) - 1);
        a_block_is_taken_off(next, (block - 1) as nat);
        assert((OutgoingView { sent: next.sent + (block - 1) as nat, ..next }) == (OutgoingView {
            sent: out.sent + block,
            ..out
        }));
    }
}

/// What a sender that waits makes of the clearances that follow.
proof fn rest_of_a_delivery(
    waiting: ClearanceView,
    frames: Seq<Seq<u8>>,
    clock: spec_fn(nat) -> nat,
    at: nat,
)
    requires
        waiting.out.more(),
        forall|i: int| 0 <= i < frames.len() ==> clears(#[trigger] frames[i]),
    ensures
        ({
            let out: OutgoingView = waiting.out;
            let sent: Sending = sending(DeliverStepView::Receive { waiting }, frames, clock, at);
            let left: nat = frames_left(out);
            let through: nat = let_through(frames, left);
            &&& transmitted(sent.done) == next_frames(out, through)
            &&& sent.done == blocks_done(out, frames, left)
            &&& through <= left
            &&& needed(frames, left) <= frames.len()
            &&& sent.unread == frames.len() - needed(frames, left)
            &&& through == left ==> sent.outcome == Ok::<DeliverStepView, IsoTpError>(
                DeliverStepView::Done,
            )
            &&& through < left ==> {
                let after: OutgoingView = OutgoingView { sent: out.sent + through, ..out };
                let steps: nat = sent.done.len() + needed(frames, left);
                sent.outcome == Ok::<DeliverStepView, IsoTpError>(
                    if frames.len() == 0 {
                        DeliverStepView::Receive { waiting }
                    } else {
                        after.wait(clock((at + steps - 1) as nat))
                    },
                )
            }
        }),
    decreases frames.len(),
{
    let out: OutgoingView = waiting.out;
    let step: DeliverStepView = DeliverStepView::Receive { waiting };
    let sent: Sending = sending(step, frames, clock, at);
    let left: nat = frames_left(out);
    a_block_is_taken_off(out, 0);
    if frames.len() == 0 {
        assert(transmitted(sent.done) =~= next_frames(out, 0));
        assert(out == (OutgoingView { sent: out.sent + 0, ..out }));
    } else {
        let rest: Seq<Seq<u8>> = frames.skip(1);
        let (block_size, separation): (u8, u8) = match parsed(frames[0]) {
            Ok(PciView::Flow { status, block_size, separation }) => (block_size, separation),
            _ => (0, 0),
        };
        assert(clears(frames[0]));
        a_clearance_lets_one_block_through(
            waiting,
            frames[0],
            block_size,
            separation,
            clock,
            at,
        );
        let heard: DeliverStepView = waiting.heard(Some(frames[0]), clock(at))->Ok_0;
        let block: nat = block_length(out, granted(block_size));
        assert(block == block_of(block_size_of(frames[0]), left));
        let after: OutgoingView = OutgoingView { sent: out.sent + block, ..out };
        let done: Seq<Emission> = emissions(heard, clock, at + 1);
        let settled_at: nat = at + 1 + done.len();
        let next: DeliverStepView = settled(heard, clock, at + 1);
        let inner: Sending = sending(next, rest, clock, settled_at);
        up_to_the_wait(heard, rest, clock, at + 1);
        assert(sent == (Sending { done: done + inner.done, ..inner }));
        transmitted_joins(done, inner.done);
        a_block_is_taken_off(out, block);
        a_block_is_taken_off(after, 0);
        if after.more() {
            assert forall|i: int| 0 <= i < rest.len() implies clears(#[trigger] rest[i]) by {
                assert(rest[i] == frames[i + 1]);
            }
            let then: ClearanceView = next->waiting;
            rest_of_a_delivery(then, rest, clock, settled_at);
            let more: nat = let_through(rest, (left - block) as nat);
            next_frames_join(out, block, more);
            assert((OutgoingView { sent: after.sent + more, ..after }) == (OutgoingView {
                sent: out.sent + (block + more),
                ..out
            }));
        } else {
            assert(block == left);
            assert(let_through(rest, 0) == 0);
            assert(needed(rest, 0) == 0);
            assert(transmitted(inner.done) =~= Seq::<FrameView>::empty());
            assert(transmitted(done) + transmitted(inner.done) =~= transmitted(done));
            assert(blocks_done(after, rest, 0) =~= Seq::<Emission>::empty());
        }
    }
}

/// Whatever the block sizes and the gaps of the clearances that it hears, and
/// whatever the clock reads at each step, a sender transmits the opening frame
/// and then the consecutive frames of the message in order, as many as the
/// clearances let through. Each clearance lets one block through, with the gaps
/// that it asks for itself. The sender reads a clearance only while frames are
/// still to go, and it is through exactly where the clearances let them all
/// through: else it waits for the next one, from the reading at which its last
/// frame was out. A message that rides in a single frame takes no clearance at
/// all.
pub proof fn any_clearances_let_a_message_through(
    out: OutgoingView,
    clearances: Seq<Seq<u8>>,
    clock: spec_fn(nat) -> nat,
    at: nat,
)
    requires
        out.sent == 0,
        forall|i: int| 0 <= i < clearances.len() ==> clears(#[trigger] clearances[i]),
    ensures
        ({
            let sent: Sending = sending(out.open(), clearances, clock, at);
            let opening: FrameView = FrameView::under(out.id, opening_frame(out.payload));
            let count: nat = consecutive_frames(out);
            let through: nat = let_through(clearances, count);
            &&& transmitted(sent.done) == seq![opening] + next_frames(out, through)
            &&& sent.done == seq![Emission::Transmitted(opening)] + blocks_done(
                out,
                clearances,
                count,
            )
            &&& through <= count
            &&& needed(clearances, count) <= clearances.len()
            &&& sent.unread == clearances.len() - needed(clearances, count)
            &&& through == count ==> sent.outcome == Ok::<DeliverStepView, IsoTpError>(
                DeliverStepView::Done,
            )
            &&& through < count ==> {
                let after: OutgoingView = OutgoingView { sent: through, ..out };
                let steps: nat = sent.done.len() + needed(clearances, count);
                sent.outcome == Ok::<DeliverStepView, IsoTpError>(
                    after.wait(clock((at + steps - 1) as nat)),
                )
            }
        }),
{
    let opening: FrameView = FrameView::under(out.id, opening_frame(out.payload));
    let sent: Sending = sending(out.open(), clearances, clock, at);
    let next: DeliverStepView = out.open()->Transmit_then.proceed(clock(at));
    let rest: Sending = sending(next, clearances, clock, at + 1);
    assert(sent == (Sending { done: seq![Emission::Transmitted(opening)] + rest.done, ..rest }));
    assert(sent.done.skip(1) =~= rest.done);
    if out.payload.len() <= SINGLE_MAX {
        assert(transmitted(rest.done) =~= next_frames(out, 0));
    } else {
        assert(out == (OutgoingView { sent: 0, ..out }));
        rest_of_a_delivery(next->waiting, clearances, clock, at + 1);
    }
}

/// Clearances of one block size that are enough, or not, for a message.
proof fn blocks_of_one_size(clearances: Seq<Seq<u8>>, block_size: u8, left: nat)
    requires
        left > 0,
        forall|i: int|
            0 <= i < clearances.len() ==> block_size_of(#[trigger] clearances[i]) == block_size,
    ensures
        let_through(clearances, left) == left <==> clearances.len() >= flow_controls(
            block_size,
            left,
        ),
        clearances.len() >= flow_controls(block_size, left) ==> needed(clearances, left)
            == flow_controls(block_size, left),
    decreases clearances.len(),
{
    if clearances.len() > 0 {
        let rest: Seq<Seq<u8>> = clearances.skip(1);
        let block: nat = block_of(block_size, left);
        assert(block_size_of(clearances[0]) == block_size);
        if block == left {
            assert(let_through(rest, 0) == 0);
            assert(needed(rest, 0) == 0);
            if block_size != 0 {
                lemma_basic_div(left - 1, block_size as int);
            }
        } else {
            assert forall|i: int| 0 <= i < rest.len() implies block_size_of(#[trigger] rest[i])
                == block_size by {
                assert(rest[i] == clearances[i + 1]);
            }
            blocks_of_one_size(rest, block_size, (left - block) as nat);
            lemma_hoist_over_denominator(left - block_size - 1, 1, block_size as nat);
        }
    }
}

/// A sender whose clearances all have one block size is through exactly where
/// there are as many of them as a message of so many consecutive frames takes:
/// one where the block size says no limit, else one to begin with and one more
/// after every full block but at the end of the message. It reads just those.
pub proof fn one_block_size_takes_so_many_clearances(
    out: OutgoingView,
    clearances: Seq<Seq<u8>>,
    block_size: u8,
    clock: spec_fn(nat) -> nat,
    at: nat,
)
    requires
        out.sent == 0,
        out.payload.len() > SINGLE_MAX,
        forall|i: int|
            0 <= i < clearances.len() ==> clears(#[trigger] clearances[i]) && block_size_of(
                clearances[i],
            ) == block_size,
    ensures
        ({
            let sent: Sending = sending(out.open(), clearances, clock, at);
            let flows: nat = flow_controls(block_size, consecutive_frames(out));
            &&& sent.outcome == Ok::<DeliverStepView, IsoTpError>(DeliverStepView::Done)
                <==> clearances.len() >= flows
            &&& clearances.len() >= flows ==> sent.unread == clearances.len() - flows
        }),
{
    let count: nat = consecutive_frames(out);
    assert(out == (OutgoingView { sent: 0, ..out }));
    a_block_is_taken_off(out, 0);
    assert(out.more());
    any_clearances_let_a_message_through(out, clearances, clock, at);
    blocks_of_one_size(clearances, block_size, count);
}

} // verus!
