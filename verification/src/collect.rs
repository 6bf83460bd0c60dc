//! The receiving side of a session, one step at a time.
//!
//! The receiver listens for a single or a first frame. A first frame it answers
//! with flow control, and then takes consecutive frames in sequence, with another
//! flow control after each block, until the message is whole. [`CollectStep`]
//! says what the bus is to do next; what is done or heard goes back into the
//! value that comes with the step.

use crate::bus::{
    a_frame_is_read_for_what_it_is, frames_go_out_as_given, heard_bytes, pci_read, read_pci,
    silence_is_waited_out, Frame, FrameView,
};
use crate::error::IsoTpError;
use crate::frame::{
    consecutive_frames_are_read_by_place, first_frames_are_read_by_place, flow, flow_frame,
    flow_frames_are_read_by_place, flow_frames_place_by_place, no_other_frame_is_read, parsed,
    single_frames_are_read_by_place, FlowStatus, Pci, PciView,
};
use crate::pacing::{
    grant, granted, grants_count_down, is_used_up, one_taken, take_one, Pacing,
};
use vstd::prelude::*;
use vstd::slice::slice_subrange;

verus! {

/// A message that arrived whole, and where it came from.
#[derive(Clone, Debug, PartialEq, Eq)]
pub struct Arrived {
    /// The address of the bus and the identifier of the end that took it.
    pub origin_uri: String,
    /// The message.
    pub bytes: Vec<u8>,
}

/// The contents of an [`Arrived`].
pub struct ArrivedView {
    /// See [`Arrived::origin_uri`].
    pub origin_uri: Seq<char>,
    /// See [`Arrived::bytes`].
    pub bytes: Seq<u8>,
}

impl View for Arrived {
    type V = ArrivedView;

    open spec fn view(&self) -> ArrivedView {
        ArrivedView { origin_uri: self.origin_uri@, bytes: self.bytes@ }
    }
}

/// An end that takes one message.
pub struct CollectorView {
    /// The identifier its flow control goes under.
    pub id: u32,
    /// What it asks of the sender.
    pub pacing: Pacing,
    /// How long it waits for its peer, in nanoseconds.
    pub timeout: nat,
    /// The origin it gives to what arrives.
    pub origin: Seq<char>,
}

/// A message of which the first frame has come.
pub struct PartialView {
    /// How long the message is.
    pub length: nat,
    /// What has come of it.
    pub bytes: Seq<u8>,
    /// The sequence number of the frame that is due.
    pub expected: u8,
    /// The frames that are due before the next flow control; `None` means all.
    pub room: Option<u8>,
}

impl PartialView {
    /// The message whose first frame names `length` and carries `data`.
    pub open spec fn begun(length: nat, data: Seq<u8>, block_size: u8) -> PartialView {
        PartialView {
            length,
            bytes: if data.len() <= length {
                data
            } else {
                data.take(length as int)
            },
            expected: 1,
            room: granted(block_size),
        }
    }

    /// Whether every byte has come.
    pub open spec fn whole(self) -> bool {
        self.bytes.len() >= self.length
    }

    /// The message after the frame that was due: what `data` has over the
    /// length of the message is padding.
    pub open spec fn extended(self, data: Seq<u8>) -> PartialView {
        let want: int = if self.whole() {
            0
        } else {
            self.length - self.bytes.len()
        };
        PartialView {
            bytes: self.bytes + if data.len() <= want {
                data
            } else {
                data.take(want)
            },
            expected: ((self.expected + 1) % 16) as u8,
            room: one_taken(self.room),
            ..self
        }
    }
}

impl CollectorView {
    /// The flow-control frame that lets the sender send a block.
    pub open spec fn go_ahead(self) -> FrameView {
        FrameView::under(
            self.id,
            flow_frame(FlowStatus::Continue, self.pacing.block_size, self.pacing.separation),
        )
    }

    /// The step that waits for the opening of a message from `now` on.
    pub open spec fn open(self, now: nat) -> CollectStepView {
        CollectStepView::Receive {
            listening: ListeningView { end: self, since: now, partial: None },
        }
    }

    /// The step that lets the sender send the next block of `partial`.
    pub open spec fn answer(self, partial: PartialView) -> CollectStepView {
        CollectStepView::Transmit {
            frame: self.go_ahead(),
            then: AnsweringView { end: self, partial },
        }
    }

    /// The step that waits for the rest of `partial` from `now` on, or hands
    /// it over where it is whole.
    pub open spec fn advance(self, partial: PartialView, now: nat) -> CollectStepView {
        if partial.whole() {
            CollectStepView::Done {
                arrived: ArrivedView { origin_uri: self.origin, bytes: partial.bytes },
            }
        } else {
            CollectStepView::Receive {
                listening: ListeningView { end: self, since: now, partial: Some(partial) },
            }
        }
    }

    /// The step after the frame that opens the session.
    pub open spec fn opened_with(self, pci: PciView) -> Result<CollectStepView, IsoTpError> {
        match pci {
            PciView::Single { data } => Ok(
                CollectStepView::Done {
                    arrived: ArrivedView { origin_uri: self.origin, bytes: data },
                },
            ),
            PciView::First { length, data } => Ok(
                self.answer(PartialView::begun(length, data, self.pacing.block_size)),
            ),
            _ => Err(IsoTpError::NotAnOpening),
        }
    }

    /// The step after a frame inside a message.
    pub open spec fn continued_with(self, partial: PartialView, pci: PciView, now: nat) -> Result<
        CollectStepView,
        IsoTpError,
    > {
        match pci {
            PciView::Consecutive { index, data } => if index != partial.expected {
                Err(IsoTpError::OutOfSequence)
            } else {
                let longer: PartialView = partial.extended(data);
                if longer.room == Some(0u8) && !longer.whole() {
                    Ok(
                        self.answer(
                            PartialView { room: granted(self.pacing.block_size), ..longer },
                        ),
                    )
                } else {
                    Ok(self.advance(longer, now))
                }
            },
            _ => Err(IsoTpError::NotConsecutive),
        }
    }
}

/// The contents of a [`Listening`].
pub struct ListeningView {
    /// The end that listens.
    pub end: CollectorView,
    /// When the wait for the next frame began.
    pub since: nat,
    /// The message, once its first frame has come.
    pub partial: Option<PartialView>,
}

impl ListeningView {
    /// The step after a read of the bus, or what ends the session.
    pub open spec fn heard(self, heard: Option<Seq<u8>>, now: nat) -> Result<
        CollectStepView,
        IsoTpError,
    > {
        match pci_read(heard, self.since, self.end.timeout, now) {
            Err(error) => Err(error),
            Ok(None) => Ok(CollectStepView::Receive { listening: self }),
            Ok(Some(pci)) => match self.partial {
                None => self.end.opened_with(pci),
                Some(partial) => self.end.continued_with(partial, pci, now),
            },
        }
    }
}

/// The contents of an [`Answering`].
pub struct AnsweringView {
    /// The end that answers.
    pub end: CollectorView,
    /// The message so far.
    pub partial: PartialView,
}

impl AnsweringView {
    /// The step after the flow control is out.
    pub open spec fn proceed(self, now: nat) -> CollectStepView {
        self.end.advance(self.partial, now)
    }
}

/// The contents of a [`CollectStep`].
pub enum CollectStepView {
    /// See [`CollectStep::Transmit`].
    Transmit { frame: FrameView, then: AnsweringView },
    /// See [`CollectStep::Receive`].
    Receive { listening: ListeningView },
    /// See [`CollectStep::Done`].
    Done { arrived: ArrivedView },
}

/// `result` with the step in it taken by its contents.
pub open spec fn step_result(result: Result<CollectStep, IsoTpError>) -> Result<
    CollectStepView,
    IsoTpError,
> {
    match result {
        Ok(step) => Ok(step@),
        Err(error) => Err(error),
    }
}

struct Collector {
    id: u32,
    pacing: Pacing,
    timeout: u128,
    origin: String,
}

struct Partial {
    length: usize,
    bytes: Vec<u8>,
    expected: u8,
    room: Option<u8>,
}

/// An end that waits for a frame.
pub struct Listening {
    end: Collector,
    since: u128,
    partial: Option<Partial>,
}

/// An end whose flow control is on the bus as soon as the step it came with is
/// carried out.
pub struct Answering {
    end: Collector,
    partial: Partial,
}

/// What the receiving side does next.
pub enum CollectStep {
    /// Put `frame` on the outbound bus, then proceed.
    Transmit { frame: Frame, then: Answering },
    /// Read the inbound bus and hand on what was heard.
    Receive { listening: Listening },
    /// The message is whole.
    Done { arrived: Arrived },
}

impl View for Collector {
    type V = CollectorView;

    closed spec fn view(&self) -> CollectorView {
        CollectorView {
            id: self.id,
            pacing: self.pacing,
            timeout: self.timeout as nat,
            origin: self.origin@,
        }
    }
}

impl View for Partial {
    type V = PartialView;

    closed spec fn view(&self) -> PartialView {
        PartialView {
            length: self.length as nat,
            bytes: self.bytes@,
            expected: self.expected,
            room: self.room,
        }
    }
}

impl View for Listening {
    type V = ListeningView;

    closed spec fn view(&self) -> ListeningView {
        ListeningView {
            end: self.end@,
            since: self.since as nat,
            partial: match self.partial {
                Some(partial) => Some(partial@),
                None => None,
            },
        }
    }
}

impl View for Answering {
    type V = AnsweringView;

    closed spec fn view(&self) -> AnsweringView {
        AnsweringView { end: self.end@, partial: self.partial@ }
    }
}

impl View for CollectStep {
    type V = CollectStepView;

    open spec fn view(&self) -> CollectStepView {
        match *self {
            CollectStep::Transmit { frame, then } => CollectStepView::Transmit {
                frame: frame@,
                then: then@,
            },
            CollectStep::Receive { listening } => CollectStepView::Receive {
                listening: listening@,
            },
            CollectStep::Done { arrived } => CollectStepView::Done { arrived: arrived@ },
        }
    }
}

impl Partial {
    fn begin(length: usize, data: Vec<u8>, block_size: u8) -> (partial: Partial)
        ensures
            partial@ == PartialView::begun(length as nat, data@, block_size),
    {
        let mut bytes: Vec<u8> = data;
        bytes.truncate(length);
        assert(bytes@ =~= PartialView::begun(length as nat, data@, block_size).bytes);
        Partial { length, bytes, expected: 1, room: grant(block_size) }
    }

    fn extend(self, data: Vec<u8>) -> (longer: Partial)
        ensures
            longer@ == self@.extended(data@),
    {
        let mut longer: Partial = self;
        let want: usize = if longer.bytes.len() >= longer.length {
            0
        } else {
            longer.length - longer.bytes.len()
        };
        let taken: usize = if data.len() <= want {
            data.len()
        } else {
            want
        };
        longer.bytes.extend_from_slice(slice_subrange(data.as_slice(), 0, taken));
        longer.expected = (longer.expected % 16 + 1) % 16;
        longer.room = take_one(longer.room);
        assert(longer.bytes@ =~= self@.extended(data@).bytes);
        longer
    }
}

impl Collector {
    fn answer(self, partial: Partial) -> (step: CollectStep)
        ensures
            step@ == self@.answer(partial@),
    {
        let bytes: Vec<u8> = flow(
            FlowStatus::Continue,
            self.pacing.block_size,
            self.pacing.separation,
        );
        CollectStep::Transmit {
            frame: Frame::under(self.id, bytes),
            then: Answering { end: self, partial },
        }
    }

    fn advance(self, partial: Partial, now: u128) -> (step: CollectStep)
        ensures
            step@ == self@.advance(partial@, now as nat),
    {
        if partial.bytes.len() >= partial.length {
            CollectStep::Done {
                arrived: Arrived { origin_uri: self.origin, bytes: partial.bytes },
            }
        } else {
            CollectStep::Receive {
                listening: Listening { end: self, since: now, partial: Some(partial) },
            }
        }
    }
}

impl Collector {
    fn open_with(self, pci: Pci) -> (step: Result<CollectStep, IsoTpError>)
        ensures
            step_result(step) == self@.opened_with(pci@),
    {
        match pci {
            Pci::Single { data } => Ok(
                CollectStep::Done { arrived: Arrived { origin_uri: self.origin, bytes: data } },
            ),
            Pci::First { length, data } => {
                let block_size: u8 = self.pacing.block_size;
                Ok(self.answer(Partial::begin(length, data, block_size)))
            },
            _ => Err(IsoTpError::NotAnOpening),
        }
    }

    fn continue_with(self, partial: Partial, pci: Pci, now: u128) -> (step: Result<
        CollectStep,
        IsoTpError,
    >)
        ensures
            step_result(step) == self@.continued_with(partial@, pci@, now as nat),
    {
        match pci {
            Pci::Consecutive { index, data } => {
                if index != partial.expected {
                    return Err(IsoTpError::OutOfSequence);
                }
                let mut longer: Partial = partial.extend(data);
                if is_used_up(longer.room) && longer.bytes.len() < longer.length {
                    longer.room = grant(self.pacing.block_size);
                    Ok(self.answer(longer))
                } else {
                    Ok(self.advance(longer, now))
                }
            },
            _ => Err(IsoTpError::NotConsecutive),
        }
    }
}

/// Wait for a message from `now` on, at an end that has `id`, asks for `pacing`,
/// waits `timeout` nanoseconds for its peer and gives `origin` to what arrives.
pub(crate) fn open_collection(
    id: u32,
    pacing: Pacing,
    timeout: u128,
    origin: String,
    now: u128,
) -> (step: CollectStep)
    ensures
        step@ == (CollectorView { id, pacing, timeout: timeout as nat, origin: origin@ }).open(
            now as nat,
        ),
{
    CollectStep::Receive {
        listening: Listening {
            end: Collector { id, pacing, timeout, origin },
            since: now,
            partial: None,
        },
    }
}

impl Listening {
    /// What follows a read of the inbound bus, at `now`; `heard` is the bytes of
    /// the frame, or nothing where the bus was silent.
    ///
    /// # Errors
    /// A malformed frame, one that is not due, a sequence out of order, and a
    /// peer that is silent at the deadline.
    pub fn heard(self, heard: Option<Vec<u8>>, now: u128) -> (step: Result<CollectStep, IsoTpError>)
        ensures
            step_result(step) == self@.heard(heard_bytes(heard), now as nat),
    {
        match read_pci(heard, self.since, self.end.timeout, now) {
            Err(error) => Err(error),
            Ok(None) => Ok(CollectStep::Receive { listening: self }),
            Ok(Some(pci)) => match self.partial {
                None => self.end.open_with(pci),
                Some(partial) => self.end.continue_with(partial, pci, now),
            },
        }
    }
}

impl Answering {
    /// What follows once the flow control is on the bus, at `now`.
    #[must_use]
    pub fn proceed(self, now: u128) -> (step: CollectStep)
        ensures
            step@ == self@.proceed(now as nat),
    {
        self.end.advance(self.partial, now)
    }
}

/// What is said of the contents of a step or of a message is said of those: a
/// step is of the same kind and its frame is that, and a message has that origin
/// and those bytes.
pub proof fn steps_are_their_contents(step: CollectStep, message: Arrived, error: IsoTpError)
    ensures
        match step {
            CollectStep::Transmit { frame, then } => step@ == (CollectStepView::Transmit {
                frame: frame@,
                then: then@,
            }),
            CollectStep::Receive { listening } => step@ == (CollectStepView::Receive {
                listening: listening@,
            }),
            CollectStep::Done { arrived } => step@ == (CollectStepView::Done {
                arrived: arrived@,
            }),
        },
        message@.origin_uri == message.origin_uri@,
        message@.bytes == message.bytes@,
        step_result(Ok(step)) == Ok::<CollectStepView, IsoTpError>(step@),
        step_result(Err(error)) == Err::<CollectStepView, IsoTpError>(error),
{
}

/// What a receiver makes of silence, before a message and inside one: it waits on
/// until the timeout has gone by since its wait began, and fails from then on.
/// It begins with a wait, for an opening, and a fresh one begins at the reading
/// at which a frame is taken.
pub proof fn a_receiver_waits_out_the_timeout(
    end: CollectorView,
    listening: ListeningView,
    since: nat,
    now: nat,
)
    ensures
        end.open(since) == (CollectStepView::Receive {
            listening: ListeningView { end, since, partial: None },
        }),
        now >= listening.since + listening.end.timeout ==> listening.heard(None, now) == Err::<
            CollectStepView,
            IsoTpError,
        >(IsoTpError::NoFrame),
        now < listening.since + listening.end.timeout ==> listening.heard(None, now) == Ok::<
            CollectStepView,
            IsoTpError,
        >(CollectStepView::Receive { listening }),
{
    silence_is_waited_out(Seq::empty(), listening.since, listening.end.timeout, now);
}

/// What lets the sender send, place by place: three bytes under the identifier of
/// the receiver, 48 to carry on, and the block size and the separation time that
/// the receiver asks for. What has come of the message is kept.
pub proof fn answers_place_by_place(end: CollectorView, partial: PartialView)
    ensures
        ({
            &&& end.answer(partial) matches CollectStepView::Transmit { frame, then }
            &&& frame.id == end.id
            &&& frame.extended <==> end.id >= 2048
            &&& frame.data.len() == 3
            &&& frame.data[0] == 48
            &&& frame.data[1] == end.pacing.block_size
            &&& frame.data[2] == end.pacing.separation
            &&& then == (AnsweringView { end, partial })
        }),
{
    flow_frames_place_by_place(
        FlowStatus::Continue,
        end.pacing.block_size,
        end.pacing.separation,
    );
    frames_go_out_as_given(
        end.id,
        flow_frame(FlowStatus::Continue, end.pacing.block_size, end.pacing.separation),
    );
}

/// What follows once an answer is out: the message is handed over, with the
/// origin of the receiver, where all of it has come, and else the receiver waits
/// for more of it, from now on.
pub proof fn what_follows_an_answer(answering: AnsweringView, now: nat)
    ensures
        answering.partial.bytes.len() >= answering.partial.length ==> answering.proceed(now) == (
        CollectStepView::Done {
            arrived: ArrivedView {
                origin_uri: answering.end.origin,
                bytes: answering.partial.bytes,
            },
        }),
        answering.partial.bytes.len() < answering.partial.length ==> answering.proceed(now) == (
        CollectStepView::Receive {
            listening: ListeningView {
                end: answering.end,
                since: now,
                partial: Some(answering.partial),
            },
        }),
{
}

/// What a receiver makes of the frame that opens a session, byte by byte and
/// whatever the hour. A single frame, with or without padding behind it, is
/// handed over at once: the bytes that its first byte counts, with the origin of
/// the receiver. A first frame is answered: the message has the length that it
/// names, what came with it is what has come, in order and cut to that length,
/// the frame numbered one is due, and so many frames are due before the next
/// answer as the receiver asks for. Any other frame is refused.
pub proof fn what_opens_a_session(end: CollectorView, since: nat, bytes: Seq<u8>, now: nat)
    ensures
        ({
            let next: Result<CollectStepView, IsoTpError> = (ListeningView {
                end,
                since,
                partial: None,
            }).heard(Some(bytes), now);
            &&& bytes.len() > 0 && bytes[0] < 16 && bytes.len() > bytes[0] ==> {
                &&& next matches Ok(CollectStepView::Done { arrived })
                &&& arrived.origin_uri == end.origin
                &&& arrived.bytes.len() == bytes[0]
                &&& forall|i: int|
                    0 <= i < arrived.bytes.len() ==> #[trigger] arrived.bytes[i] == bytes[1 + i]
            }
            &&& bytes.len() >= 2 && 16 <= bytes[0] < 32 && (bytes[0] > 16 || bytes[1] > 0) ==> {
                &&& next matches Ok(CollectStepView::Transmit { frame, then })
                &&& next == Ok::<CollectStepView, IsoTpError>(end.answer(then.partial))
                &&& then.partial.length == (bytes[0] - 16) * 256 + bytes[1]
                &&& has_come(then.partial, bytes.len() - 2)
                &&& forall|i: int|
                    0 <= i < then.partial.bytes.len() ==> #[trigger] then.partial.bytes[i]
                        == bytes[2 + i]
                &&& then.partial.expected == 1
                &&& then.partial.room == if end.pacing.block_size == 0 {
                    None
                } else {
                    Some(end.pacing.block_size)
                }
            }
            &&& bytes.len() >= 6 && bytes[0] == 16 && bytes[1] == 0 ==> {
                &&& next matches Ok(CollectStepView::Transmit { frame, then })
                &&& next == Ok::<CollectStepView, IsoTpError>(end.answer(then.partial))
                &&& then.partial.length == ((bytes[2] * 256 + bytes[3]) * 256 + bytes[4]) * 256
                    + bytes[5]
                &&& has_come(then.partial, bytes.len() - 6)
                &&& forall|i: int|
                    0 <= i < then.partial.bytes.len() ==> #[trigger] then.partial.bytes[i]
                        == bytes[6 + i]
                &&& then.partial.expected == 1
                &&& then.partial.room == if end.pacing.block_size == 0 {
                    None
                } else {
                    Some(end.pacing.block_size)
                }
            }
            &&& parsed(bytes) matches Err(error) ==> next == Err::<CollectStepView, IsoTpError>(
                error,
            )
            &&& bytes.len() > 0 && bytes[0] >= 32 && parsed(bytes) is Ok ==> next == Err::<
                CollectStepView,
                IsoTpError,
            >(IsoTpError::NotAnOpening)
        }),
{
    a_frame_is_read_for_what_it_is(bytes, since, end.timeout, now);
    no_other_frame_is_read(bytes);
    grants_count_down(end.pacing.block_size, 0);
    if bytes.len() > 0 {
        if bytes[0] < 16 {
            single_frames_are_read_by_place(bytes);
        } else if bytes[0] < 32 {
            first_frames_are_read_by_place(bytes);
        } else if bytes[0] < 48 {
            consecutive_frames_are_read_by_place(bytes);
        } else if bytes[0] < 64 {
            flow_frames_are_read_by_place(bytes);
        }
    }
}

/// Whether, of `count` bytes, as many have come as the message is long, or all
/// where they are fewer.
pub open spec fn has_come(partial: PartialView, count: int) -> bool {
    &&& count <= partial.length ==> partial.bytes.len() == count
    &&& count > partial.length ==> partial.bytes.len() == partial.length
}

/// What a receiver makes of a frame inside a message, byte by byte and whatever
/// the hour. A consecutive frame with the number that is due brings what it
/// carries, in order, behind what has come, as far as the message is long. Then
/// the message is handed over where all of it has come; else it is answered,
/// with a fresh block, where the block is full; else the receiver waits for the
/// next frame, from now on, which has the next number modulo sixteen and is one
/// less of the block. A consecutive frame with another number is out of
/// sequence, and any other frame is refused.
pub proof fn what_continues_a_message(
    end: CollectorView,
    since: nat,
    partial: PartialView,
    bytes: Seq<u8>,
    now: nat,
)
    requires
        partial.bytes.len() < partial.length,
        partial.expected < 16,
    ensures
        ({
            let next: Result<CollectStepView, IsoTpError> = (ListeningView {
                end,
                since,
                partial: Some(partial),
            }).heard(Some(bytes), now);
            let have: int = partial.bytes.len() as int;
            let brought: int = have + bytes.len() - 1;
            let due: bool = bytes.len() > 0 && bytes[0] == 32 + partial.expected;
            let full: bool = partial.room == Some(1u8) || partial.room == Some(0u8);
            &&& due && brought >= partial.length ==> {
                &&& next matches Ok(CollectStepView::Done { arrived })
                &&& arrived.origin_uri == end.origin
                &&& arrived.bytes.len() == partial.length
                &&& forall|i: int|
                    0 <= i < have ==> #[trigger] arrived.bytes[i] == partial.bytes[i]
                &&& forall|i: int|
                    have <= i < partial.length ==> #[trigger] arrived.bytes[i] == bytes[1 + i
                        - have]
            }
            &&& due && brought < partial.length && full ==> {
                &&& next matches Ok(CollectStepView::Transmit { frame, then })
                &&& next == Ok::<CollectStepView, IsoTpError>(end.answer(then.partial))
                &&& then.partial.room == if end.pacing.block_size == 0 {
                    None
                } else {
                    Some(end.pacing.block_size)
                }
                &&& is_longer(partial, bytes, then.partial)
            }
            &&& due && brought < partial.length && !full ==> {
                &&& next matches Ok(CollectStepView::Receive { listening })
                &&& listening.end == end
                &&& listening.since == now
                &&& listening.partial matches Some(longer)
                &&& is_longer(partial, bytes, longer)
                &&& partial.room is None ==> longer.room is None
                &&& partial.room matches Some(left) ==> longer.room == Some((left - 1) as u8)
            }
            &&& bytes.len() > 0 && 32 <= bytes[0] < 48 && !due ==> next == Err::<
                CollectStepView,
                IsoTpError,
            >(IsoTpError::OutOfSequence)
            &&& parsed(bytes) matches Err(error) ==> next == Err::<CollectStepView, IsoTpError>(
                error,
            )
            &&& bytes.len() > 0 && !(32 <= bytes[0] < 48) && parsed(bytes) is Ok ==> next == Err::<
                CollectStepView,
                IsoTpError,
            >(IsoTpError::NotConsecutive)
        }),
{
    a_frame_is_read_for_what_it_is(bytes, since, end.timeout, now);
    no_other_frame_is_read(bytes);
    grants_count_down(end.pacing.block_size, 0);
    match partial.room {
        Some(left) => grants_count_down(0, left),
        None => {},
    }
    if bytes.len() > 0 {
        if bytes[0] < 16 {
            single_frames_are_read_by_place(bytes);
        } else if bytes[0] < 32 {
            first_frames_are_read_by_place(bytes);
        } else if bytes[0] < 48 {
            consecutive_frames_are_read_by_place(bytes);
        } else if bytes[0] < 64 {
            flow_frames_are_read_by_place(bytes);
        }
    }
}

/// Whether `longer` is `partial` with what the consecutive frame `bytes` carries
/// behind it, the next number modulo sixteen being due.
pub open spec fn is_longer(partial: PartialView, bytes: Seq<u8>, longer: PartialView) -> bool {
    let have: int = partial.bytes.len() as int;
    &&& longer.length == partial.length
    &&& longer.bytes.len() == have + bytes.len() - 1
    &&& forall|i: int| 0 <= i < have ==> #[trigger] longer.bytes[i] == partial.bytes[i]
    &&& forall|i: int|
        have <= i < longer.bytes.len() ==> #[trigger] longer.bytes[i] == bytes[1 + i - have]
    &&& longer.expected == (partial.expected + 1) % 16
}

} // verus!
