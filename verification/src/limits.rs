//! What holds of every step, whatever the peer does: no frame outgrows the bus,
//! and no wait outlasts its deadline.

use crate::bus::{FrameView, CAN_DATA_MAX, STANDARD_ID_MAX};
use crate::collect::{AnsweringView, CollectStepView, CollectorView, ListeningView, PartialView};
use crate::deliver::{ClearanceView, DeliverStepView, DeliveryView, OutgoingView};
use crate::error::IsoTpError;
use crate::frame::{flow_frame, flow_frames_read_back, parsed, FlowStatus, PciView};
use vstd::prelude::*;

verus! {

/// Whether `frame` is one that a classical CAN bus carries, under `id` in the
/// format that `id` asks for.
pub open spec fn fits(frame: FrameView, id: u32) -> bool {
    &&& frame.data.len() <= CAN_DATA_MAX
    &&& frame.id == id
    &&& frame.extended == (id > STANDARD_ID_MAX)
}

/// The message a delivery is about.
pub open spec fn message(delivery: DeliveryView) -> OutgoingView {
    match delivery {
        DeliveryView::Opened { out } => out,
        DeliveryView::Sent { out, room, separation } => out,
        DeliveryView::Paused { out, room, separation } => out,
    }
}

/// Every frame a sender transmits fits one CAN frame and goes under the
/// sender's identifier: the one that opens, and those that follow what the
/// sender did or heard.
pub proof fn sent_frames_fit(
    out: OutgoingView,
    delivery: DeliveryView,
    waiting: ClearanceView,
    heard: Option<Seq<u8>>,
    now: nat,
)
    ensures
        out.open() matches DeliverStepView::Transmit { frame, then } && fits(frame, out.id),
        delivery.proceed(now) matches DeliverStepView::Transmit { frame, then } ==> fits(
            frame,
            message(delivery).id,
        ),
        waiting.heard(heard, now) matches Ok(DeliverStepView::Transmit { frame, then }) ==> fits(
            frame,
            waiting.out.id,
        ),
{
}

/// Every frame a receiver transmits is a flow-control frame that clears the
/// sender to send, with the block size and the separation time the receiver was
/// given, under the receiver's identifier.
pub proof fn answers_carry_the_pacing(
    listening: ListeningView,
    answering: AnsweringView,
    heard: Option<Seq<u8>>,
    now: nat,
)
    ensures
        listening.heard(heard, now) matches Ok(CollectStepView::Transmit { frame, then }) ==> {
            &&& fits(frame, listening.end.id)
            &&& parsed(frame.data) == Ok::<PciView, IsoTpError>(
                PciView::Flow {
                    status: FlowStatus::Continue,
                    block_size: listening.end.pacing.block_size,
                    separation: listening.end.pacing.separation,
                },
            )
        },
        !(answering.proceed(now) is Transmit),
{
    flow_frames_read_back(
        FlowStatus::Continue,
        listening.end.pacing.block_size,
        listening.end.pacing.separation,
    );
}

/// A sender that waits for clearance does not wait past its deadlines. What it
/// hears can keep it waiting, but never moves the moment at which its patience
/// began; once that, and its wait for the next frame, have lasted as long as the
/// timeout, nothing it hears lets it wait on.
pub proof fn waiting_for_clearance_ends(waiting: ClearanceView, heard: Option<Seq<u8>>, now: nat)
    ensures
        waiting.heard(heard, now) matches Ok(DeliverStepView::Receive { waiting: still }) ==> {
            &&& still.out == waiting.out
            &&& still.since == waiting.since
            &&& now < waiting.since + waiting.out.timeout || now < waiting.listening
                + waiting.out.timeout
        },
{
}

/// A receiver whose peer is silent until the deadline gives up, and not before.
pub proof fn listening_ends(listening: ListeningView, now: nat)
    ensures
        listening.heard(None, now) == if now >= listening.since + listening.end.timeout {
            Err::<CollectStepView, IsoTpError>(IsoTpError::NoFrame)
        } else {
            Ok::<CollectStepView, IsoTpError>(CollectStepView::Receive { listening })
        },
{
}

/// A flow-control frame is what no session opens with: a receiver that waits
/// for an opening and hears one is judged at once, whatever the hour.
pub proof fn flow_control_opens_no_session(
    end: CollectorView,
    since: nat,
    status: FlowStatus,
    block_size: u8,
    separation: u8,
    now: nat,
)
    ensures
        (ListeningView { end, since, partial: None }).heard(
            Some(flow_frame(status, block_size, separation)),
            now,
        ) == Err::<CollectStepView, IsoTpError>(IsoTpError::NotAnOpening),
{
    flow_frames_read_back(status, block_size, separation);
}

/// Whether no more has come of a message than its first frame announced.
pub open spec fn within_length(partial: Option<PartialView>) -> bool {
    partial matches Some(message) ==> message.bytes.len() <= message.length
}

/// Whatever the sender does, a message that is handed over is as long as its
/// first frame announced, and what has come of it is never lost or changed: on
/// the frame that opens it, on each that continues it, and after each flow
/// control, also where the first frame already held it all.
pub proof fn messages_are_as_long_as_announced(
    listening: ListeningView,
    answering: AnsweringView,
    heard: Option<Seq<u8>>,
    now: nat,
)
    requires
        within_length(listening.partial),
        within_length(Some(answering.partial)),
    ensures
        listening.partial is None ==> (heard matches Some(bytes) ==> (parsed(bytes) matches Ok(
            PciView::First { length, data },
        ) ==> {
            &&& listening.heard(heard, now) matches Ok(CollectStepView::Transmit { frame, then })
            &&& then.partial.length == length
            &&& then.partial.bytes.is_prefix_of(data)
        })),
        match answering.proceed(now) {
            CollectStepView::Done { arrived } => {
                &&& arrived.bytes.len() == answering.partial.length
                &&& arrived.bytes == answering.partial.bytes
            },
            CollectStepView::Receive { listening: next } => next.partial == Some(
                answering.partial,
            ),
            CollectStepView::Transmit { frame, then } => false,
        },
        match listening.heard(heard, now) {
            Ok(CollectStepView::Receive { listening: next }) => {
                &&& within_length(next.partial)
                &&& listening.partial matches Some(before) ==> {
                    &&& next.partial matches Some(after)
                    &&& after.length == before.length
                    &&& before.bytes.is_prefix_of(after.bytes)
                }
            },
            Ok(CollectStepView::Transmit { frame, then }) => {
                &&& within_length(Some(then.partial))
                &&& listening.partial matches Some(before) ==> {
                    &&& then.partial.length == before.length
                    &&& before.bytes.is_prefix_of(then.partial.bytes)
                }
            },
            Ok(CollectStepView::Done { arrived }) => {
                listening.partial matches Some(before) ==> {
                    &&& arrived.bytes.len() == before.length
                    &&& before.bytes.is_prefix_of(arrived.bytes)
                }
            },
            Err(_) => true,
        },
{
}

/// Inside a message, a consecutive frame with any sequence number but the one
/// due ends the session.
pub proof fn the_sequence_is_kept(
    listening: ListeningView,
    partial: PartialView,
    bytes: Seq<u8>,
    index: u8,
    data: Seq<u8>,
    now: nat,
)
    requires
        listening.partial == Some(partial),
        parsed(bytes) == Ok::<PciView, IsoTpError>(PciView::Consecutive { index, data }),
    ensures
        listening.heard(Some(bytes), now) is Ok <==> index == partial.expected,
        index != partial.expected ==> listening.heard(Some(bytes), now) == Err::<
            CollectStepView,
            IsoTpError,
        >(IsoTpError::OutOfSequence),
{
}

} // verus!
