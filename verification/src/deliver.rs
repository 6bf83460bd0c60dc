//! The sending side of a session, one step at a time.
//!
//! The sender opens with a single or a first frame. After a first frame it
//! waits for flow control, sends the block that the flow control grants, leaving
//! the gap it asks for after each frame, and waits again, until the payload is
//! out. [`DeliverStep`] says what the bus is to do next; what is done or heard
//! goes back into the value that comes with the step.

use crate::bus::{
    a_frame_is_read_for_what_it_is, expired, flow_read, frames_go_out_as_given, has_expired,
    heard_bytes, read_flow, silence_is_waited_out, Frame, FrameView,
};
use crate::error::IsoTpError;
use crate::frame::{
    consecutive, consecutive_frame, consecutive_frames_place_by_place, first, first_frame,
    first_frames_place_by_place, flow_frames_are_read_by_place, no_other_frame_is_read, parsed,
    single, single_frame, single_frames_place_by_place, FlowStatus, CLASSIC_CEILING,
    CONSECUTIVE_DATA, ESCAPE_DATA, FIRST_DATA, SINGLE_MAX,
};
use crate::pacing::{grant, granted, grants_count_down, is_used_up, one_taken, take_one};
use vstd::prelude::*;
use vstd::slice::slice_subrange;

verus! {

/// A message on its way out.
pub struct OutgoingView {
    /// The identifier its frames go under.
    pub id: u32,
    /// The message.
    pub payload: Seq<u8>,
    /// How long the sender waits for its peer, in nanoseconds.
    pub timeout: nat,
    /// The consecutive frames that are out.
    pub sent: nat,
}

/// The payload bytes that ride in the first frame of `payload`.
pub open spec fn opening_length(payload: Seq<u8>) -> nat {
    if payload.len() > CLASSIC_CEILING {
        ESCAPE_DATA as nat
    } else {
        FIRST_DATA as nat
    }
}

/// The bytes of the frame that opens the delivery of `payload`.
pub open spec fn opening_frame(payload: Seq<u8>) -> Seq<u8> {
    if payload.len() <= SINGLE_MAX {
        single_frame(payload)
    } else {
        first_frame(payload.len(), payload.take(opening_length(payload) as int))
    }
}

impl OutgoingView {
    /// Where in the payload the next consecutive frame begins.
    pub open spec fn next(self) -> nat {
        opening_length(self.payload) + CONSECUTIVE_DATA as nat * self.sent
    }

    /// Whether part of the payload is still to go.
    pub open spec fn more(self) -> bool {
        self.next() < self.payload.len()
    }

    /// What the next consecutive frame carries.
    pub open spec fn chunk(self) -> Seq<u8> {
        let end: int = if self.next() + CONSECUTIVE_DATA < self.payload.len() {
            self.next() + CONSECUTIVE_DATA
        } else {
            self.payload.len() as int
        };
        self.payload.subrange(self.next() as int, end)
    }

    /// The first step of the delivery.
    pub open spec fn open(self) -> DeliverStepView {
        DeliverStepView::Transmit {
            frame: FrameView::under(self.id, opening_frame(self.payload)),
            then: DeliveryView::Opened { out: self },
        }
    }

    /// The step that sends the next consecutive frame, the one numbered one
    /// more than there are out, or ends the delivery.
    pub open spec fn advance(self, room: Option<u8>, separation: u8) -> DeliverStepView {
        if self.more() {
            DeliverStepView::Transmit {
                frame: FrameView::under(self.id, consecutive_frame(self.sent + 1, self.chunk())),
                then: DeliveryView::Sent {
                    out: OutgoingView { sent: self.sent + 1, ..self },
                    room: one_taken(room),
                    separation,
                },
            }
        } else {
            DeliverStepView::Done
        }
    }

    /// The step that leaves the gap the receiver asked for, if it asked for
    /// one, and then advances.
    pub open spec fn rest(self, room: Option<u8>, separation: u8) -> DeliverStepView {
        if separation != 0 {
            DeliverStepView::Pause {
                millis: separation,
                then: DeliveryView::Paused { out: self, room, separation },
            }
        } else {
            self.advance(room, separation)
        }
    }

    /// The step that waits for clearance from `now` on.
    pub open spec fn wait(self, now: nat) -> DeliverStepView {
        DeliverStepView::Receive {
            waiting: ClearanceView { out: self, since: now, listening: now },
        }
    }
}

/// The contents of a [`Delivery`].
pub enum DeliveryView {
    /// The opening frame is out.
    Opened { out: OutgoingView },
    /// A consecutive frame is out; `room` more may follow before the next
    /// flow control.
    Sent { out: OutgoingView, room: Option<u8>, separation: u8 },
    /// The gap after a frame is left.
    Paused { out: OutgoingView, room: Option<u8>, separation: u8 },
}

impl DeliveryView {
    /// The step after the frame is out or the gap is left.
    pub open spec fn proceed(self, now: nat) -> DeliverStepView {
        match self {
            DeliveryView::Opened { out } => if out.payload.len() <= SINGLE_MAX {
                DeliverStepView::Done
            } else {
                out.wait(now)
            },
            DeliveryView::Sent { out, room, separation } => if room == Some(0u8) && out.more() {
                out.wait(now)
            } else {
                out.rest(room, separation)
            },
            DeliveryView::Paused { out, room, separation } => out.advance(room, separation),
        }
    }
}

/// The contents of a [`Clearance`].
pub struct ClearanceView {
    /// The message that waits.
    pub out: OutgoingView,
    /// When the wait for clearance began.
    pub since: nat,
    /// When the wait for the next frame began.
    pub listening: nat,
}

impl ClearanceView {
    /// The step after a read of the bus, or what ends the delivery.
    pub open spec fn heard(self, heard: Option<Seq<u8>>, now: nat) -> Result<
        DeliverStepView,
        IsoTpError,
    > {
        match flow_read(heard, self.listening, self.out.timeout, now) {
            Err(error) => Err(error),
            Ok(None) => Ok(DeliverStepView::Receive { waiting: self }),
            Ok(Some(flow)) => match flow.status {
                FlowStatus::Continue => if self.out.sent == 0 {
                    Ok(self.out.advance(granted(flow.block_size), flow.separation))
                } else {
                    Ok(self.out.rest(granted(flow.block_size), flow.separation))
                },
                FlowStatus::Wait => if expired(self.since, self.out.timeout, now) {
                    Err(IsoTpError::NoClearance)
                } else {
                    Ok(
                        DeliverStepView::Receive {
                            waiting: ClearanceView { listening: now, ..self },
                        },
                    )
                },
                FlowStatus::Overflow => Err(IsoTpError::ReceiverOverflowed),
            },
        }
    }
}

/// The contents of a [`DeliverStep`].
pub enum DeliverStepView {
    /// See [`DeliverStep::Transmit`].
    Transmit { frame: FrameView, then: DeliveryView },
    /// See [`DeliverStep::Receive`].
    Receive { waiting: ClearanceView },
    /// See [`DeliverStep::Pause`].
    Pause { millis: u8, then: DeliveryView },
    /// See [`DeliverStep::Done`].
    Done,
}

/// `result` with the step in it taken by its contents.
pub open spec fn step_result(result: Result<DeliverStep, IsoTpError>) -> Result<
    DeliverStepView,
    IsoTpError,
> {
    match result {
        Ok(step) => Ok(step@),
        Err(error) => Err(error),
    }
}

struct Outgoing {
    id: u32,
    payload: Vec<u8>,
    timeout: u128,
    sent: usize,
}

enum Stage {
    Opened,
    Sent { room: Option<u8>, separation: u8 },
    Paused { room: Option<u8>, separation: u8 },
}

/// A delivery whose last frame is on the bus, or whose last gap is left, as
/// soon as the step it came with is carried out.
pub struct Delivery {
    out: Outgoing,
    stage: Stage,
}

/// A delivery that waits for flow control.
pub struct Clearance {
    out: Outgoing,
    since: u128,
    listening: u128,
}

/// What the sending side does next.
pub enum DeliverStep {
    /// Put `frame` on the outbound bus, then proceed.
    Transmit { frame: Frame, then: Delivery },
    /// Read the inbound bus and hand on what was heard.
    Receive { waiting: Clearance },
    /// Let this many milliseconds go by, then proceed.
    Pause { millis: u8, then: Delivery },
    /// The payload is delivered.
    Done,
}

impl View for Outgoing {
    type V = OutgoingView;

    closed spec fn view(&self) -> OutgoingView {
        OutgoingView {
            id: self.id,
            payload: self.payload@,
            timeout: self.timeout as nat,
            sent: self.sent as nat,
        }
    }
}

impl View for Delivery {
    type V = DeliveryView;

    closed spec fn view(&self) -> DeliveryView {
        match self.stage {
            Stage::Opened => DeliveryView::Opened { out: self.out@ },
            Stage::Sent { room, separation } => DeliveryView::Sent {
                out: self.out@,
                room,
                separation,
            },
            Stage::Paused { room, separation } => DeliveryView::Paused {
                out: self.out@,
                room,
                separation,
            },
        }
    }
}

impl View for Clearance {
    type V = ClearanceView;

    closed spec fn view(&self) -> ClearanceView {
        ClearanceView {
            out: self.out@,
            since: self.since as nat,
            listening: self.listening as nat,
        }
    }
}

impl View for DeliverStep {
    type V = DeliverStepView;

    open spec fn view(&self) -> DeliverStepView {
        match *self {
            DeliverStep::Transmit { frame, then } => DeliverStepView::Transmit {
                frame: frame@,
                then: then@,
            },
            DeliverStep::Receive { waiting } => DeliverStepView::Receive { waiting: waiting@ },
            DeliverStep::Pause { millis, then } => DeliverStepView::Pause { millis, then: then@ },
            DeliverStep::Done => DeliverStepView::Done,
        }
    }
}

impl Outgoing {
    fn opening(&self) -> (length: usize)
        ensures
            length == opening_length(self@.payload),
    {
        if self.payload.len() > CLASSIC_CEILING {
            ESCAPE_DATA
        } else {
            FIRST_DATA
        }
    }

    fn has_more(&self) -> (more: bool)
        ensures
            more == self@.more(),
    {
        let opening: usize = self.opening();
        self.payload.len() > opening && self.sent <= (self.payload.len() - opening - 1)
            / CONSECUTIVE_DATA
    }

    fn advance(self, room: Option<u8>, separation: u8) -> (step: DeliverStep)
        ensures
            step@ == self@.advance(room, separation),
    {
        if !self.has_more() {
            return DeliverStep::Done;
        }
        let total: usize = self.payload.len();
        let begin: usize = self.opening() + CONSECUTIVE_DATA * self.sent;
        let end: usize = if total - begin > CONSECUTIVE_DATA {
            begin + CONSECUTIVE_DATA
        } else {
            total
        };
        let index: u8 = ((self.sent % 16 + 1) % 16) as u8;
        match consecutive(index, slice_subrange(self.payload.as_slice(), begin, end)) {
            Ok(bytes) => DeliverStep::Transmit {
                frame: Frame::under(self.id, bytes),
                then: Delivery {
                    out: Outgoing { sent: self.sent + 1, ..self },
                    stage: Stage::Sent { room: take_one(room), separation },
                },
            },
            // A chunk is never longer than a frame carries.
            Err(_) => {
                assert(false);
                DeliverStep::Done
            },
        }
    }

    fn rest(self, room: Option<u8>, separation: u8) -> (step: DeliverStep)
        ensures
            step@ == self@.rest(room, separation),
    {
        if separation != 0 {
            DeliverStep::Pause {
                millis: separation,
                then: Delivery { out: self, stage: Stage::Paused { room, separation } },
            }
        } else {
            self.advance(room, separation)
        }
    }

    fn wait(self, now: u128) -> (step: DeliverStep)
        ensures
            step@ == self@.wait(now as nat),
    {
        DeliverStep::Receive { waiting: Clearance { out: self, since: now, listening: now } }
    }
}

/// Open the delivery of `payload` under `id` by an end that waits `timeout`
/// nanoseconds for its peer.
///
/// # Errors
/// A payload over the classic ceiling where the escape is not allowed.
pub(crate) fn open_delivery(id: u32, timeout: u128, payload: Vec<u8>, escape: bool) -> (step: Result<
    DeliverStep,
    IsoTpError,
>)
    ensures
        step is Ok <==> payload@.len() <= CLASSIC_CEILING || escape,
        step matches Ok(opened) ==> opened@ == (OutgoingView {
            id,
            payload: payload@,
            timeout: timeout as nat,
            sent: 0,
        }).open(),
        step matches Err(error) ==> error == IsoTpError::NeedsEscape,
{
    let out: Outgoing = Outgoing { id, payload, timeout, sent: 0 };
    let total: usize = out.payload.len();
    let opening: Result<Vec<u8>, IsoTpError> = if total <= SINGLE_MAX {
        single(out.payload.as_slice())
    } else {
        let length: usize = out.opening();
        first(total, slice_subrange(out.payload.as_slice(), 0, length), escape)
    };
    match opening {
        Ok(bytes) => Ok(
            DeliverStep::Transmit {
                frame: Frame::under(id, bytes),
                then: Delivery { out, stage: Stage::Opened },
            },
        ),
        Err(error) => Err(error),
    }
}

impl Delivery {
    /// What follows once the frame is on the bus or the gap is left, at `now`.
    #[must_use]
    pub fn proceed(self, now: u128) -> (step: DeliverStep)
        ensures
            step@ == self@.proceed(now as nat),
    {
        match self.stage {
            Stage::Opened => if self.out.payload.len() <= SINGLE_MAX {
                DeliverStep::Done
            } else {
                self.out.wait(now)
            },
            Stage::Sent { room, separation } => if is_used_up(room) && self.out.has_more() {
                self.out.wait(now)
            } else {
                self.out.rest(room, separation)
            },
            Stage::Paused { room, separation } => self.out.advance(room, separation),
        }
    }
}

impl Clearance {
    /// What follows a read of the inbound bus, at `now`; `heard` is the bytes of
    /// the frame, or nothing where the bus was silent.
    ///
    /// # Errors
    /// A malformed frame or one that is not flow control, a receiver that
    /// overflows, and a peer that is silent or says to wait at the deadline.
    pub fn heard(self, heard: Option<Vec<u8>>, now: u128) -> (step: Result<DeliverStep, IsoTpError>)
        ensures
            step_result(step) == self@.heard(heard_bytes(heard), now as nat),
    {
        match read_flow(heard, self.listening, self.out.timeout, now) {
            Err(error) => Err(error),
            Ok(None) => Ok(DeliverStep::Receive { waiting: self }),
            Ok(Some(flow)) => match flow.status {
                FlowStatus::Continue => {
                    let room: Option<u8> = grant(flow.block_size);
                    if self.out.sent == 0 {
                        Ok(self.out.advance(room, flow.separation))
                    } else {
                        Ok(self.out.rest(room, flow.separation))
                    }
                },
                FlowStatus::Wait => if has_expired(self.since, self.out.timeout, now) {
                    Err(IsoTpError::NoClearance)
                } else {
                    Ok(DeliverStep::Receive { waiting: Clearance { listening: now, ..self } })
                },
                FlowStatus::Overflow => Err(IsoTpError::ReceiverOverflowed),
            },
        }
    }
}

/// What is said of the contents of a step is said of the step: it is of the same
/// kind, and its frame and its gap are those.
pub proof fn steps_are_their_contents(step: DeliverStep, error: IsoTpError)
    ensures
        match step {
            DeliverStep::Transmit { frame, then } => step@ == (DeliverStepView::Transmit {
                frame: frame@,
                then: then@,
            }),
            DeliverStep::Receive { waiting } => step@ == (DeliverStepView::Receive {
                waiting: waiting@,
            }),
            DeliverStep::Pause { millis, then } => step@ == (DeliverStepView::Pause {
                millis,
                then: then@,
            }),
            DeliverStep::Done => step@ == DeliverStepView::Done,
        },
        step_result(Ok(step)) == Ok::<DeliverStepView, IsoTpError>(step@),
        step_result(Err(error)) == Err::<DeliverStepView, IsoTpError>(error),
{
}

/// The frame that opens a delivery, place by place, under the identifier of the
/// sender. Up to seven bytes of payload follow the byte that counts them. Up to
/// 4095 bytes the frame has eight bytes: two with the length, and the first six
/// of the payload in order. Beyond, it has eight bytes too: six with the length,
/// and the first two of the payload in order.
pub proof fn openings_place_by_place(out: OutgoingView)
    ensures
        ({
            let total: nat = out.payload.len();
            &&& out.open() matches DeliverStepView::Transmit { frame, then }
            &&& then == (DeliveryView::Opened { out })
            &&& frame.id == out.id
            &&& frame.extended <==> out.id >= 2048
            &&& total <= 7 ==> {
                &&& frame.data.len() == 1 + total
                &&& frame.data[0] == total
                &&& forall|i: int|
                    0 <= i < total ==> frame.data[1 + i] == #[trigger] out.payload[i]
            }
            &&& 7 < total <= 4095 ==> {
                &&& frame.data.len() == 8
                &&& 16 <= frame.data[0] < 32
                &&& (frame.data[0] - 16) * 256 + frame.data[1] == total
                &&& forall|i: int| 0 <= i < 6 ==> frame.data[2 + i] == #[trigger] out.payload[i]
            }
            &&& total > 4095 ==> {
                &&& frame.data.len() == 8
                &&& frame.data[0] == 16
                &&& frame.data[1] == 0
                &&& frame.data[6] == out.payload[0]
                &&& frame.data[7] == out.payload[1]
            }
            &&& 4095 < total <= 0xffff_ffff ==> ((frame.data[2] * 256 + frame.data[3]) * 256
                + frame.data[4]) * 256 + frame.data[5] == total
        }),
{
    let total: nat = out.payload.len();
    let opening: Seq<u8> = out.payload.take(opening_length(out.payload) as int);
    frames_go_out_as_given(out.id, opening_frame(out.payload));
    if total <= 7 {
        single_frames_place_by_place(out.payload);
    } else {
        first_frames_place_by_place(total, opening);
        assert forall|i: int| 0 <= i < opening.len() implies opening[i]
            == #[trigger] out.payload[i] by {}
        if total > 4095 {
            assert(opening[0] == out.payload[0]);
            assert(opening[1] == out.payload[1]);
        } else {
            assert forall|i: int| 0 <= i < 6 implies opening_frame(out.payload)[2 + i]
                == #[trigger] out.payload[i] by {
                assert(opening[i] == out.payload[i]);
            }
        }
    }
}

/// The consecutive frame that a sender with so many out transmits next, place by
/// place, under the identifier of the sender: 32 and the number of the frame
/// modulo sixteen, counted from one, and then the next seven bytes of the
/// payload in order, or those that are left. The opening has taken six of it, or
/// two where it is over 4095 bytes, and each frame before this one seven. Where
/// none is left the delivery is done. One frame is taken off the block.
pub proof fn what_advances_place_by_place(out: OutgoingView, room: Option<u8>, separation: u8)
    ensures
        ({
            let total: int = out.payload.len() as int;
            let begin: int = 7 * out.sent + if total > 4095 {
                2int
            } else {
                6int
            };
            &&& begin >= total ==> out.advance(room, separation) == DeliverStepView::Done
            &&& begin < total ==> {
                &&& out.advance(room, separation) matches DeliverStepView::Transmit { frame, then }
                &&& frame.id == out.id
                &&& frame.extended <==> out.id >= 2048
                &&& total - begin >= 7 ==> frame.data.len() == 8
                &&& total - begin < 7 ==> frame.data.len() == 1 + total - begin
                &&& frame.data[0] == 32 + (out.sent + 1) % 16
                &&& forall|i: int|
                    begin <= i < begin + 7 && i < total ==> frame.data[1 + i - begin]
                        == #[trigger] out.payload[i]
                &&& then matches DeliveryView::Sent { out: rest, room: left, separation: kept }
                &&& rest == (OutgoingView { sent: out.sent + 1, ..out })
                &&& kept == separation
                &&& room is None ==> left is None
                &&& room matches Some(n) ==> n > 0 ==> left == Some((n - 1) as u8)
            }
        }),
{
    let total: int = out.payload.len() as int;
    let begin: int = out.next() as int;
    if begin < total {
        consecutive_frames_place_by_place(out.sent + 1, out.chunk());
        frames_go_out_as_given(out.id, consecutive_frame(out.sent + 1, out.chunk()));
        let data: Seq<u8> = consecutive_frame(out.sent + 1, out.chunk());
        assert forall|i: int| begin <= i < begin + 7 && i < total implies data[1 + i - begin]
            == #[trigger] out.payload[i] by {
            assert(out.chunk()[i - begin] == out.payload[i]);
        }
    }
}

/// What follows a frame that is out or a gap that is left. After a single frame
/// the delivery is done, and after a first frame the sender waits. After a
/// consecutive frame it waits where the block is used up and part of the payload
/// is still to go; else it leaves the gap, where one was asked for, and sends on.
/// A wait begins at the reading at which it is entered.
pub proof fn what_follows_a_frame(out: OutgoingView, room: Option<u8>, separation: u8, now: nat)
    ensures
        ({
            let total: int = out.payload.len() as int;
            let begin: int = 7 * out.sent + if total > 4095 {
                2int
            } else {
                6int
            };
            let wait: DeliverStepView = DeliverStepView::Receive {
                waiting: ClearanceView { out, since: now, listening: now },
            };
            let gap: DeliverStepView = DeliverStepView::Pause {
                millis: separation,
                then: DeliveryView::Paused { out, room, separation },
            };
            let opened: DeliveryView = DeliveryView::Opened { out };
            let sent: DeliveryView = DeliveryView::Sent { out, room, separation };
            let paused: DeliveryView = DeliveryView::Paused { out, room, separation };
            &&& total <= 7 ==> opened.proceed(now) == DeliverStepView::Done
            &&& total > 7 ==> opened.proceed(now) == wait
            &&& room == Some(0u8) && begin < total ==> sent.proceed(now) == wait
            &&& (room != Some(0u8) || begin >= total) && separation > 0 ==> sent.proceed(now) == gap
            &&& (room != Some(0u8) || begin >= total) && separation == 0 ==> sent.proceed(now)
                == out.advance(room, separation)
            &&& paused.proceed(now) == out.advance(room, separation)
        }),
{
}

/// What a sender that waits makes of a read of the bus, whatever is already out.
/// Silence is waited out until the timeout has gone by since it began to listen,
/// and is a failure from then on. Flow control that says to wait keeps the
/// sender waiting for the same message, with the same beginning of its patience
/// and a fresh wait for the next frame, until the timeout has gone by since its
/// patience began, and is a failure from then on. Flow control that says to
/// abandon is a failure, and so is any other frame. Only flow control that says
/// to carry on is ever followed by a frame or a gap, with the block size and the
/// gap that it says itself: at once where nothing but the opening is out, and
/// else after the gap.
pub proof fn what_a_waiting_sender_hears(
    waiting: ClearanceView,
    heard: Option<Seq<u8>>,
    now: nat,
)
    ensures
        heard is None && now >= waiting.listening + waiting.out.timeout ==> waiting.heard(
            heard,
            now,
        ) == Err::<DeliverStepView, IsoTpError>(IsoTpError::NoFrame),
        heard is None && now < waiting.listening + waiting.out.timeout ==> waiting.heard(heard, now)
            == Ok::<DeliverStepView, IsoTpError>(DeliverStepView::Receive { waiting }),
        heard matches Some(bytes) ==> {
            let next: Result<DeliverStepView, IsoTpError> = waiting.heard(heard, now);
            let says: int = if bytes.len() >= 3 {
                bytes[0] as int
            } else {
                0
            };
            let room: Option<u8> = if bytes[1] == 0 {
                None
            } else {
                Some(bytes[1])
            };
            &&& says == 49 && now >= waiting.since + waiting.out.timeout ==> next == Err::<
                DeliverStepView,
                IsoTpError,
            >(IsoTpError::NoClearance)
            &&& says == 49 && now < waiting.since + waiting.out.timeout ==> next == Ok::<
                DeliverStepView,
                IsoTpError,
            >(
                DeliverStepView::Receive {
                    waiting: ClearanceView {
                        out: waiting.out,
                        since: waiting.since,
                        listening: now,
                    },
                },
            )
            &&& says == 50 ==> next == Err::<DeliverStepView, IsoTpError>(
                IsoTpError::ReceiverOverflowed,
            )
            &&& says == 48 && (waiting.out.sent == 0 || bytes[2] == 0) ==> next == Ok::<
                DeliverStepView,
                IsoTpError,
            >(waiting.out.advance(room, bytes[2]))
            &&& says == 48 && waiting.out.sent > 0 && bytes[2] > 0 ==> next == Ok::<
                DeliverStepView,
                IsoTpError,
            >(
                DeliverStepView::Pause {
                    millis: bytes[2],
                    then: DeliveryView::Paused { out: waiting.out, room, separation: bytes[2] },
                },
            )
            &&& !(48 <= says <= 50) ==> match parsed(bytes) {
                Ok(_) => next == Err::<DeliverStepView, IsoTpError>(IsoTpError::NotFlowControl),
                Err(error) => next == Err::<DeliverStepView, IsoTpError>(error),
            }
            &&& next matches Ok(DeliverStepView::Transmit { frame, then }) ==> says == 48
            &&& next matches Ok(DeliverStepView::Pause { millis, then }) ==> says == 48
        },
{
    match heard {
        Some(bytes) => {
            a_frame_is_read_for_what_it_is(bytes, waiting.listening, waiting.out.timeout, now);
            no_other_frame_is_read(bytes);
            if bytes.len() > 0 && 48 <= bytes[0] < 64 {
                flow_frames_are_read_by_place(bytes);
            }
            if bytes.len() >= 3 && bytes[0] == 48 {
                grants_count_down(bytes[1], 0);
            }
        },
        None => {
            silence_is_waited_out(
                Seq::empty(),
                waiting.listening,
                waiting.out.timeout,
                now,
            );
        },
    }
}

} // verus!
