//! The frames an end puts on its bus, and what it makes of what it reads there.

use crate::error::IsoTpError;
use crate::frame::{
    consecutive_frames_are_read_by_place, first_frames_are_read_by_place,
    flow_frames_are_read_by_place, parse, parsed, single_frames_are_read_by_place, FlowStatus, Pci,
    PciView,
};
use vstd::prelude::*;

verus! {

/// The largest identifier of eleven bits; one above it needs the extended format.
pub const STANDARD_ID_MAX: u32 = 0x7ff;

/// The bytes a classical CAN frame carries.
pub const CAN_DATA_MAX: usize = 8;

/// One CAN frame to be put on a bus.
#[derive(Clone, Debug, PartialEq, Eq)]
pub struct Frame {
    /// The identifier the frame goes under.
    pub id: u32,
    /// Whether the identifier is of the extended format.
    pub extended: bool,
    /// What the frame carries.
    pub data: Vec<u8>,
}

/// The contents of a [`Frame`].
pub struct FrameView {
    /// See [`Frame::id`].
    pub id: u32,
    /// See [`Frame::extended`].
    pub extended: bool,
    /// See [`Frame::data`].
    pub data: Seq<u8>,
}

impl View for Frame {
    type V = FrameView;

    open spec fn view(&self) -> FrameView {
        FrameView { id: self.id, extended: self.extended, data: self.data@ }
    }
}

impl FrameView {
    /// The frame that carries `data` under `id`, extended where `id` asks for it.
    pub open spec fn under(id: u32, data: Seq<u8>) -> FrameView {
        FrameView { id, extended: id > STANDARD_ID_MAX, data }
    }
}

impl Frame {
    /// The frame that carries `data` under `id`.
    #[must_use]
    pub fn under(id: u32, data: Vec<u8>) -> (frame: Frame)
        ensures
            frame@ == FrameView::under(id, data@),
    {
        Frame { id, extended: id > STANDARD_ID_MAX, data }
    }
}

/// Whether a wait that began at `since` has lasted `timeout` at `now`.
pub open spec fn expired(since: nat, timeout: nat, now: nat) -> bool {
    now >= since + timeout
}

/// See [`expired`].
pub(crate) fn has_expired(since: u128, timeout: u128, now: u128) -> (over: bool)
    ensures
        over == expired(since as nat, timeout as nat, now as nat),
{
    now >= since && now - since >= timeout
}

/// The bytes in `heard`, taken by their contents.
pub open spec fn heard_bytes(heard: Option<Vec<u8>>) -> Option<Seq<u8>> {
    match heard {
        Some(bytes) => Some(bytes@),
        None => None,
    }
}

/// What a read of the bus comes to: the frame it gave, nothing yet, or
/// nothing until the deadline.
pub open spec fn frame_read(
    heard: Option<Seq<u8>>,
    since: nat,
    timeout: nat,
    now: nat,
) -> Result<Option<Seq<u8>>, IsoTpError> {
    match heard {
        Some(bytes) => Ok(Some(bytes)),
        None => if expired(since, timeout, now) {
            Err(IsoTpError::NoFrame)
        } else {
            Ok(None)
        },
    }
}

/// What a read of the bus comes to, the frame told apart by its PCI.
pub open spec fn pci_read(
    heard: Option<Seq<u8>>,
    since: nat,
    timeout: nat,
    now: nat,
) -> Result<Option<PciView>, IsoTpError> {
    match frame_read(heard, since, timeout, now) {
        Ok(Some(bytes)) => match parsed(bytes) {
            Ok(pci) => Ok(Some(pci)),
            Err(error) => Err(error),
        },
        Ok(None) => Ok(None),
        Err(error) => Err(error),
    }
}

/// What a flow-control frame says: whether to carry on, how many frames a
/// block is, and the gap between.
#[derive(Clone, Copy, Debug, PartialEq, Eq, Structural)]
pub struct Flow {
    /// Whether to carry on.
    pub status: FlowStatus,
    /// Frames to send before the next flow control; zero means all of them.
    pub block_size: u8,
    /// The gap to leave between frames, in milliseconds.
    pub separation: u8,
}

/// What a read of the bus comes to where only flow control is due.
pub open spec fn flow_read(
    heard: Option<Seq<u8>>,
    since: nat,
    timeout: nat,
    now: nat,
) -> Result<Option<Flow>, IsoTpError> {
    match pci_read(heard, since, timeout, now) {
        Ok(Some(PciView::Flow { status, block_size, separation })) => Ok(
            Some(Flow { status, block_size, separation }),
        ),
        Ok(Some(_)) => Err(IsoTpError::NotFlowControl),
        Ok(None) => Ok(None),
        Err(error) => Err(error),
    }
}

/// Judge what a read of the bus gave. `heard` is the frame, if there was one;
/// the end has listened since `since` and gives up after `timeout`.
///
/// # Errors
/// Nothing heard, and the deadline is past.
pub fn read_frame(
    heard: Option<Vec<u8>>,
    since: u128,
    timeout: u128,
    now: u128,
) -> (read: Result<Option<Vec<u8>>, IsoTpError>)
    ensures
        match read {
            Ok(bytes) => frame_read(heard_bytes(heard), since as nat, timeout as nat, now as nat)
                == Ok::<Option<Seq<u8>>, IsoTpError>(heard_bytes(bytes)),
            Err(error) => frame_read(heard_bytes(heard), since as nat, timeout as nat, now as nat)
                == Err::<Option<Seq<u8>>, IsoTpError>(error),
        },
{
    match heard {
        Some(bytes) => Ok(Some(bytes)),
        None => if has_expired(since, timeout, now) {
            Err(IsoTpError::NoFrame)
        } else {
            Ok(None)
        },
    }
}

/// Judge what a read of the bus gave, and parse it.
///
/// # Errors
/// Those of [`read_frame`], and a malformed frame.
pub fn read_pci(
    heard: Option<Vec<u8>>,
    since: u128,
    timeout: u128,
    now: u128,
) -> (read: Result<Option<Pci>, IsoTpError>)
    ensures
        match read {
            Ok(Some(pci)) => pci_read(heard_bytes(heard), since as nat, timeout as nat, now as nat)
                == Ok::<Option<PciView>, IsoTpError>(Some(pci@)),
            Ok(None) => pci_read(heard_bytes(heard), since as nat, timeout as nat, now as nat)
                == Ok::<Option<PciView>, IsoTpError>(None),
            Err(error) => pci_read(heard_bytes(heard), since as nat, timeout as nat, now as nat)
                == Err::<Option<PciView>, IsoTpError>(error),
        },
{
    match read_frame(heard, since, timeout, now) {
        Ok(Some(bytes)) => match parse(bytes.as_slice()) {
            Ok(pci) => Ok(Some(pci)),
            Err(error) => Err(error),
        },
        Ok(None) => Ok(None),
        Err(error) => Err(error),
    }
}

/// Judge what a read of the bus gave where only flow control is due.
///
/// # Errors
/// Those of [`read_pci`], and a frame that is not flow control.
pub fn read_flow(
    heard: Option<Vec<u8>>,
    since: u128,
    timeout: u128,
    now: u128,
) -> (read: Result<Option<Flow>, IsoTpError>)
    ensures
        read == flow_read(heard_bytes(heard), since as nat, timeout as nat, now as nat),
{
    match read_pci(heard, since, timeout, now) {
        Ok(Some(Pci::Flow { status, block_size, separation })) => Ok(
            Some(Flow { status, block_size, separation }),
        ),
        Ok(Some(_)) => Err(IsoTpError::NotFlowControl),
        Ok(None) => Ok(None),
        Err(error) => Err(error),
    }
}

/// A frame goes out under the identifier it was given, with the data it was
/// given, and in the extended format exactly where eleven bits cannot hold the
/// identifier, which they do below 2048. A bus carries eight bytes to a frame.
pub proof fn frames_go_out_as_given(id: u32, data: Seq<u8>)
    ensures
        FrameView::under(id, data).id == id,
        FrameView::under(id, data).data == data,
        FrameView::under(id, data).extended <==> id >= 2048,
        STANDARD_ID_MAX + 1 == 2048,
        CAN_DATA_MAX == 8,
{
}

/// What is said of the contents of a frame is said of the frame, and what is
/// said of the bytes that were heard is said of those: the contents are the
/// fields, and silence is silence.
pub proof fn frames_are_their_contents(frame: Frame, bytes: Vec<u8>)
    ensures
        frame@.id == frame.id,
        frame@.extended == frame.extended,
        frame@.data == frame.data@,
        heard_bytes(Some(bytes)) == Some(bytes@),
        heard_bytes(None) is None,
{
}

/// A frame that is heard is read, whatever the hour. Silence is waited out until
/// the timeout has gone by since the wait began, for every reading of the clock,
/// and is a failure from then on: at any later reading too.
pub proof fn silence_is_waited_out(
    bytes: Seq<u8>,
    since: nat,
    timeout: nat,
    now: nat,
)
    ensures
        frame_read(Some(bytes), since, timeout, now) == Ok::<Option<Seq<u8>>, IsoTpError>(
            Some(bytes),
        ),
        now >= since + timeout ==> {
            &&& frame_read(None, since, timeout, now) == Err::<Option<Seq<u8>>, IsoTpError>(
                IsoTpError::NoFrame,
            )
            &&& pci_read(None, since, timeout, now) == Err::<Option<PciView>, IsoTpError>(
                IsoTpError::NoFrame,
            )
            &&& flow_read(None, since, timeout, now) == Err::<Option<Flow>, IsoTpError>(
                IsoTpError::NoFrame,
            )
        },
        now < since + timeout ==> {
            &&& frame_read(None, since, timeout, now) == Ok::<Option<Seq<u8>>, IsoTpError>(None)
            &&& pci_read(None, since, timeout, now) == Ok::<Option<PciView>, IsoTpError>(None)
            &&& flow_read(None, since, timeout, now) == Ok::<Option<Flow>, IsoTpError>(None)
        },
{
}

/// A frame that is heard is read for what it is, whatever the hour; and where
/// flow control is due, it gives its status, its block size and its separation
/// time by their places, and any other frame is refused.
pub proof fn a_frame_is_read_for_what_it_is(
    bytes: Seq<u8>,
    since: nat,
    timeout: nat,
    now: nat,
)
    ensures
        match parsed(bytes) {
            Ok(pci) => pci_read(Some(bytes), since, timeout, now) == Ok::<
                Option<PciView>,
                IsoTpError,
            >(Some(pci)),
            Err(error) => {
                &&& pci_read(Some(bytes), since, timeout, now) == Err::<
                    Option<PciView>,
                    IsoTpError,
                >(error)
                &&& flow_read(Some(bytes), since, timeout, now) == Err::<Option<Flow>, IsoTpError>(
                    error,
                )
            },
        },
        bytes.len() >= 3 && 48 <= bytes[0] <= 50 ==> {
            &&& flow_read(Some(bytes), since, timeout, now) matches Ok(Some(flow))
            &&& flow.status == FlowStatus::Continue <==> bytes[0] == 48
            &&& flow.status == FlowStatus::Wait <==> bytes[0] == 49
            &&& flow.status == FlowStatus::Overflow <==> bytes[0] == 50
            &&& flow.block_size == bytes[1]
            &&& flow.separation == bytes[2]
        },
        bytes.len() > 0 && bytes[0] < 48 && parsed(bytes) is Ok ==> flow_read(
            Some(bytes),
            since,
            timeout,
            now,
        ) == Err::<Option<Flow>, IsoTpError>(IsoTpError::NotFlowControl),
{
    if bytes.len() > 0 && bytes[0] < 16 {
        single_frames_are_read_by_place(bytes);
    } else if bytes.len() > 0 && bytes[0] < 32 {
        first_frames_are_read_by_place(bytes);
    } else if bytes.len() > 0 && bytes[0] < 48 {
        consecutive_frames_are_read_by_place(bytes);
    } else if bytes.len() > 0 && bytes[0] < 64 {
        flow_frames_are_read_by_place(bytes);
    }
}

} // verus!
