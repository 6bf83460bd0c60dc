//! The four kinds of ISO-TP frame, built and read.
//!
//! A frame opens with its protocol control information, the PCI. A single frame
//! carries a whole short payload, a first frame opens a longer one and
//! consecutive frames continue it, and a flow-control frame is how the receiver
//! paces the sender. The high nibble of the first byte says which of the four a
//! frame is; the rest of the PCI says how long or how far along.

use crate::error::IsoTpError;
use vstd::arithmetic::div_mod::lemma_div_denominator;
use vstd::prelude::*;
use vstd::slice::{slice_subrange, slice_to_vec};

verus! {

/// The largest payload the twelve-bit length of a first frame can name.
pub const CLASSIC_CEILING: usize = 4095;

/// A single frame carries at most this, the seven bytes left beside its one
/// PCI byte.
pub const SINGLE_MAX: usize = 7;

/// A first frame carries this many payload bytes beside its two PCI bytes.
pub const FIRST_DATA: usize = 6;

/// A first frame with the length escape carries this many, the four bytes
/// of length having taken the rest.
pub const ESCAPE_DATA: usize = 2;

/// A consecutive frame carries this many payload bytes beside its one PCI byte.
pub const CONSECUTIVE_DATA: usize = 7;

/// What the low nibble of a flow-control frame says about carrying on.
#[derive(Clone, Copy, Debug, PartialEq, Eq, Structural)]
pub enum FlowStatus {
    /// Clear to send: the sender may send the next block.
    Continue,
    /// Wait: the sender holds until another flow control arrives.
    Wait,
    /// The receiver has no room and the transfer is abandoned.
    Overflow,
}

impl FlowStatus {
    /// The number of this status.
    pub open spec fn code(self) -> u8 {
        match self {
            FlowStatus::Continue => 0,
            FlowStatus::Wait => 1,
            FlowStatus::Overflow => 2,
        }
    }

    /// The status that has the number `nibble`, if there is one.
    pub open spec fn named(nibble: u8) -> Result<FlowStatus, IsoTpError> {
        if nibble == 0 {
            Ok(FlowStatus::Continue)
        } else if nibble == 1 {
            Ok(FlowStatus::Wait)
        } else if nibble == 2 {
            Ok(FlowStatus::Overflow)
        } else {
            Err(IsoTpError::UnknownFlowStatus(nibble))
        }
    }

    /// The low nibble that names this status.
    #[must_use]
    pub fn nibble(self) -> (nibble: u8)
        ensures
            nibble == self.code(),
    {
        match self {
            FlowStatus::Continue => 0,
            FlowStatus::Wait => 1,
            FlowStatus::Overflow => 2,
        }
    }

    /// The status a low nibble names.
    ///
    /// # Errors
    /// A nibble outside the three that have a meaning.
    pub fn from_nibble(nibble: u8) -> (status: Result<FlowStatus, IsoTpError>)
        ensures
            status == FlowStatus::named(nibble),
    {
        match nibble {
            0 => Ok(FlowStatus::Continue),
            1 => Ok(FlowStatus::Wait),
            2 => Ok(FlowStatus::Overflow),
            other => Err(IsoTpError::UnknownFlowStatus(other)),
        }
    }
}

/// A nibble names the status that has it, and no other.
pub proof fn nibbles_name_their_statuses(nibble: u8, status: FlowStatus)
    ensures
        FlowStatus::named(nibble) == Ok::<FlowStatus, IsoTpError>(status) <==> nibble
            == status.code(),
{
}

/// One frame read off the bus, told apart by its PCI.
#[derive(Clone, Debug, PartialEq, Eq)]
pub enum Pci {
    /// A whole payload.
    Single { data: Vec<u8> },
    /// The opening of a payload of `length` bytes, and the bytes that came with it.
    First { length: usize, data: Vec<u8> },
    /// The continuation with the sequence number `index`.
    Consecutive { index: u8, data: Vec<u8> },
    /// The receiver's pacing: how many frames a block is, and the gap between.
    Flow { status: FlowStatus, block_size: u8, separation: u8 },
}

/// The contents of a [`Pci`].
pub enum PciView {
    /// See [`Pci::Single`].
    Single { data: Seq<u8> },
    /// See [`Pci::First`].
    First { length: nat, data: Seq<u8> },
    /// See [`Pci::Consecutive`].
    Consecutive { index: u8, data: Seq<u8> },
    /// See [`Pci::Flow`].
    Flow { status: FlowStatus, block_size: u8, separation: u8 },
}

impl View for Pci {
    type V = PciView;

    open spec fn view(&self) -> PciView {
        match *self {
            Pci::Single { data } => PciView::Single { data: data@ },
            Pci::First { length, data } => PciView::First { length: length as nat, data: data@ },
            Pci::Consecutive { index, data } => PciView::Consecutive { index, data: data@ },
            Pci::Flow { status, block_size, separation } => PciView::Flow {
                status,
                block_size,
                separation,
            },
        }
    }
}

/// The number that four bytes write, the most significant first.
pub open spec fn big_endian(a: u8, b: u8, c: u8, d: u8) -> nat {
    (a * 0x100_0000 + b * 0x1_0000 + c * 0x100 + d) as nat
}

/// The bytes of a single frame: its length, then the payload.
pub open spec fn single_frame(payload: Seq<u8>) -> Seq<u8> {
    seq![payload.len() as u8] + payload
}

/// The PCI of a first frame: twelve bits of length, or, for a payload that
/// those cannot name, twelve zero bits and 32 bits of length.
pub open spec fn first_header(total: nat) -> Seq<u8> {
    if total <= CLASSIC_CEILING {
        seq![(0x10 + total / 0x100) as u8, (total % 0x100) as u8]
    } else {
        let named: nat = if total <= u32::MAX {
            total
        } else {
            u32::MAX as nat
        };
        seq![
            0x10u8,
            0x00u8,
            (named / 0x100_0000) as u8,
            (named / 0x1_0000 % 0x100) as u8,
            (named / 0x100 % 0x100) as u8,
            (named % 0x100) as u8,
        ]
    }
}

/// The bytes of a first frame: its PCI, then the opening of the payload.
pub open spec fn first_frame(total: nat, opening: Seq<u8>) -> Seq<u8> {
    first_header(total) + opening
}

/// The bytes of a consecutive frame: its type and sequence number, then the chunk.
pub open spec fn consecutive_frame(index: nat, chunk: Seq<u8>) -> Seq<u8> {
    seq![(0x20 + index % 16) as u8] + chunk
}

/// The bytes of a flow-control frame.
pub open spec fn flow_frame(status: FlowStatus, block_size: u8, separation: u8) -> Seq<u8> {
    seq![(0x30 + status.code()) as u8, block_size, separation]
}

/// What the bytes of a frame say, or what is wrong with them.
pub open spec fn parsed(bytes: Seq<u8>) -> Result<PciView, IsoTpError> {
    if bytes.len() == 0 {
        Err(IsoTpError::EmptyFrame)
    } else {
        let kind: u8 = bytes[0] / 16;
        let low: u8 = bytes[0] % 16;
        if kind == 0 {
            parsed_single(low, bytes)
        } else if kind == 1 {
            parsed_first(low, bytes)
        } else if kind == 2 {
            Ok(PciView::Consecutive { index: low, data: bytes.skip(1) })
        } else if kind == 3 {
            parsed_flow(low, bytes)
        } else {
            Err(IsoTpError::UnknownType(kind))
        }
    }
}

/// A single frame holds the `length` bytes that its PCI byte promises; what
/// follows them is padding.
pub open spec fn parsed_single(length: u8, bytes: Seq<u8>) -> Result<PciView, IsoTpError> {
    if length + 1 > bytes.len() {
        Err(IsoTpError::ShortSingle)
    } else {
        Ok(PciView::Single { data: bytes.subrange(1, 1 + length) })
    }
}

/// A first frame has its length in twelve bits or, where those are all zero, in
/// the four bytes after them.
pub open spec fn parsed_first(high: u8, bytes: Seq<u8>) -> Result<PciView, IsoTpError> {
    if bytes.len() < 2 {
        if high == 0 {
            Err(IsoTpError::ShortEscape)
        } else {
            Err(IsoTpError::ShortFirst)
        }
    } else if high != 0 || bytes[1] != 0 {
        Ok(PciView::First { length: (high * 0x100 + bytes[1]) as nat, data: bytes.skip(2) })
    } else if bytes.len() < 6 {
        Err(IsoTpError::ShortEscape)
    } else {
        Ok(
            PciView::First {
                length: big_endian(bytes[2], bytes[3], bytes[4], bytes[5]),
                data: bytes.skip(6),
            },
        )
    }
}

/// A flow-control frame has its block size and its separation time in the two
/// bytes after its status.
pub open spec fn parsed_flow(nibble: u8, bytes: Seq<u8>) -> Result<PciView, IsoTpError> {
    if bytes.len() < 2 {
        Err(IsoTpError::NoBlockSize)
    } else if bytes.len() < 3 {
        Err(IsoTpError::NoSeparation)
    } else {
        match FlowStatus::named(nibble) {
            Ok(status) => Ok(
                PciView::Flow { status, block_size: bytes[1], separation: bytes[2] },
            ),
            Err(error) => Err(error),
        }
    }
}

/// `result` with the frame in it taken by its contents.
pub open spec fn pci_result(result: Result<Pci, IsoTpError>) -> Result<PciView, IsoTpError> {
    match result {
        Ok(pci) => Ok(pci@),
        Err(error) => Err(error),
    }
}

/// The single frame carrying `payload`.
///
/// # Errors
/// A payload over [`SINGLE_MAX`], which does not fit one frame.
pub fn single(payload: &[u8]) -> (frame: Result<Vec<u8>, IsoTpError>)
    ensures
        payload@.len() <= SINGLE_MAX <==> frame is Ok,
        frame matches Ok(bytes) ==> bytes@ == single_frame(payload@),
        frame matches Err(error) ==> error == IsoTpError::SingleTooLong,
{
    if payload.len() > SINGLE_MAX {
        return Err(IsoTpError::SingleTooLong);
    }
    let mut frame: Vec<u8> = Vec::new();
    frame.push(payload.len() as u8);
    frame.extend_from_slice(payload);
    assert(frame@ =~= single_frame(payload@));
    Ok(frame)
}

/// The first frame of a payload of `total` bytes, carrying its opening.
///
/// The twelve-bit length holds up to [`CLASSIC_CEILING`]; a longer payload
/// takes the 32-bit escape, where the length nibbles are zero and four bytes
/// follow. `escape` says the escape is permitted; without it a payload over
/// the ceiling is refused before a frame is built. A payload that not even 32
/// bits can count is named by the largest number that they hold.
///
/// # Errors
/// A payload short enough for a single frame, or one over the ceiling with no
/// escape allowed.
pub fn first(total: usize, opening: &[u8], escape: bool) -> (frame: Result<Vec<u8>, IsoTpError>)
    ensures
        frame is Ok <==> total > SINGLE_MAX && (total <= CLASSIC_CEILING || escape),
        frame matches Ok(bytes) ==> bytes@ == first_frame(total as nat, opening@),
        frame matches Err(error) ==> error == if total <= SINGLE_MAX {
            IsoTpError::FitsSingle
        } else {
            IsoTpError::NeedsEscape
        },
{
    if total <= SINGLE_MAX {
        return Err(IsoTpError::FitsSingle);
    }
    let mut frame: Vec<u8> = Vec::new();
    if total <= CLASSIC_CEILING {
        frame.push((0x10 + total / 0x100) as u8);
        frame.push((total % 0x100) as u8);
    } else if escape {
        let named: u32 = if total <= u32::MAX as usize {
            total as u32
        } else {
            u32::MAX
        };
        frame.push(0x10);
        frame.push(0x00);
        frame.push((named / 0x100_0000) as u8);
        frame.push((named / 0x1_0000 % 0x100) as u8);
        frame.push((named / 0x100 % 0x100) as u8);
        frame.push((named % 0x100) as u8);
    } else {
        return Err(IsoTpError::NeedsEscape);
    }
    assert(frame@ =~= first_header(total as nat));
    frame.extend_from_slice(opening);
    assert(frame@ =~= first_frame(total as nat, opening@));
    Ok(frame)
}

/// The consecutive frame with the sequence number `index`, carrying `chunk`.
/// Sequence numbers wrap at sixteen.
///
/// # Errors
/// A chunk over [`CONSECUTIVE_DATA`], which does not fit one frame.
pub fn consecutive(index: u8, chunk: &[u8]) -> (frame: Result<Vec<u8>, IsoTpError>)
    ensures
        chunk@.len() <= CONSECUTIVE_DATA <==> frame is Ok,
        frame matches Ok(bytes) ==> bytes@ == consecutive_frame(index as nat, chunk@),
        frame matches Err(error) ==> error == IsoTpError::ConsecutiveTooLong,
{
    if chunk.len() > CONSECUTIVE_DATA {
        return Err(IsoTpError::ConsecutiveTooLong);
    }
    let mut frame: Vec<u8> = Vec::new();
    frame.push(0x20 + index % 16);
    frame.extend_from_slice(chunk);
    assert(frame@ =~= consecutive_frame(index as nat, chunk@));
    Ok(frame)
}

/// A flow-control frame.
#[must_use]
pub fn flow(status: FlowStatus, block_size: u8, separation: u8) -> (frame: Vec<u8>)
    ensures
        frame@ == flow_frame(status, block_size, separation),
{
    let frame: Vec<u8> = vec![0x30 + status.nibble(), block_size, separation];
    assert(frame@ =~= flow_frame(status, block_size, separation));
    frame
}

/// Read the PCI a frame's bytes open with.
///
/// # Errors
/// A frame too short for its own kind, a PCI type outside the four, or a
/// single or first length that overruns the bytes present.
pub fn parse(bytes: &[u8]) -> (pci: Result<Pci, IsoTpError>)
    ensures
        pci_result(pci) == parsed(bytes@),
{
    if bytes.len() == 0 {
        return Err(IsoTpError::EmptyFrame);
    }
    let opening: u8 = bytes[0];
    match opening / 16 {
        0 => parse_single(opening % 16, bytes),
        1 => parse_first(opening % 16, bytes),
        2 => {
            let data: Vec<u8> = slice_to_vec(slice_subrange(bytes, 1, bytes.len()));
            Ok(Pci::Consecutive { index: opening % 16, data })
        },
        3 => parse_flow(opening % 16, bytes),
        other => Err(IsoTpError::UnknownType(other)),
    }
}

fn parse_single(length: u8, bytes: &[u8]) -> (pci: Result<Pci, IsoTpError>)
    ensures
        pci_result(pci) == parsed_single(length, bytes@),
{
    let end: usize = 1 + length as usize;
    if end > bytes.len() {
        return Err(IsoTpError::ShortSingle);
    }
    Ok(Pci::Single { data: slice_to_vec(slice_subrange(bytes, 1, end)) })
}

fn parse_first(high: u8, bytes: &[u8]) -> (pci: Result<Pci, IsoTpError>)
    requires
        high < 16,
    ensures
        pci_result(pci) == parsed_first(high, bytes@),
{
    if bytes.len() < 2 {
        return if high == 0 {
            Err(IsoTpError::ShortEscape)
        } else {
            Err(IsoTpError::ShortFirst)
        };
    }
    let short: usize = high as usize * 0x100 + bytes[1] as usize;
    if short != 0 {
        let data: Vec<u8> = slice_to_vec(slice_subrange(bytes, 2, bytes.len()));
        return Ok(Pci::First { length: short, data });
    }
    if bytes.len() < 6 {
        return Err(IsoTpError::ShortEscape);
    }
    let length: u32 = bytes[2] as u32 * 0x100_0000 + bytes[3] as u32 * 0x1_0000 + bytes[4] as u32
        * 0x100 + bytes[5] as u32;
    let data: Vec<u8> = slice_to_vec(slice_subrange(bytes, 6, bytes.len()));
    Ok(Pci::First { length: length as usize, data })
}

fn parse_flow(nibble: u8, bytes: &[u8]) -> (pci: Result<Pci, IsoTpError>)
    ensures
        pci_result(pci) == parsed_flow(nibble, bytes@),
{
    if bytes.len() < 2 {
        return Err(IsoTpError::NoBlockSize);
    }
    if bytes.len() < 3 {
        return Err(IsoTpError::NoSeparation);
    }
    match FlowStatus::from_nibble(nibble) {
        Ok(status) => Ok(Pci::Flow { status, block_size: bytes[1], separation: bytes[2] }),
        Err(error) => Err(error),
    }
}

/// A single frame reads back as the payload it was built from.
pub proof fn single_frames_read_back(payload: Seq<u8>)
    requires
        payload.len() <= SINGLE_MAX,
    ensures
        parsed(single_frame(payload)) == Ok::<PciView, IsoTpError>(
            PciView::Single { data: payload },
        ),
{
    let bytes: Seq<u8> = single_frame(payload);
    assert(bytes.subrange(1, 1 + payload.len() as int) =~= payload);
}

/// A first frame reads back as the length and the opening it was built from,
/// for every length that the 32 bits of the escape can name.
pub proof fn first_frames_read_back(total: nat, opening: Seq<u8>)
    requires
        SINGLE_MAX < total <= u32::MAX,
    ensures
        parsed(first_frame(total, opening)) == Ok::<PciView, IsoTpError>(
            PciView::First { length: total, data: opening },
        ),
{
    let bytes: Seq<u8> = first_frame(total, opening);
    if total <= CLASSIC_CEILING {
        assert(bytes.skip(2) =~= opening);
    } else {
        let upper: int = total as int / 0x100;
        let half: int = upper / 0x100;
        lemma_div_denominator(total as int, 0x100, 0x100);
        lemma_div_denominator(total as int, 0x1_0000, 0x100);
        assert(total == 0x100 * upper + total % 0x100);
        assert(upper == 0x100 * half + upper % 0x100);
        assert(half == 0x100 * (half / 0x100) + half % 0x100);
        assert(big_endian(bytes[2], bytes[3], bytes[4], bytes[5]) == total);
        assert(bytes.skip(6) =~= opening);
    }
}

/// A consecutive frame reads back as its chunk, under its sequence number
/// modulo sixteen.
pub proof fn consecutive_frames_read_back(index: nat, chunk: Seq<u8>)
    ensures
        parsed(consecutive_frame(index, chunk)) == Ok::<PciView, IsoTpError>(
            PciView::Consecutive { index: (index % 16) as u8, data: chunk },
        ),
{
    assert(consecutive_frame(index, chunk).skip(1) =~= chunk);
}

/// A flow-control frame reads back as what it was built from.
pub proof fn flow_frames_read_back(status: FlowStatus, block_size: u8, separation: u8)
    ensures
        parsed(flow_frame(status, block_size, separation)) == Ok::<PciView, IsoTpError>(
            PciView::Flow { status, block_size, separation },
        ),
{
}

/// Whether `bytes` are a first frame that names `length` in 32 bits although
/// twelve would do, and carries `data`.
pub open spec fn is_long_for_short(bytes: Seq<u8>, length: nat, data: Seq<u8>) -> bool {
    &&& length <= CLASSIC_CEILING
    &&& bytes.len() >= 6
    &&& bytes.take(2) == seq![0x10u8, 0x00u8]
    &&& big_endian(bytes[2], bytes[3], bytes[4], bytes[5]) == length
    &&& bytes.skip(6) == data
}

proof fn first_frames_rebuild(bytes: Seq<u8>)
    requires
        parsed(bytes) matches Ok(PciView::First { .. }),
    ensures
        parsed(bytes) matches Ok(PciView::First { length, data }) && (bytes == first_frame(
            length,
            data,
        ) || is_long_for_short(bytes, length, data)),
{
    let length: nat = parsed(bytes)->Ok_0->First_length;
    let data: Seq<u8> = parsed(bytes)->Ok_0->First_data;
    let header: Seq<u8> = first_header(length);
    if bytes[0] != 0x10 || bytes[1] != 0 {
        assert(length == (bytes[0] - 0x10) * 0x100 + bytes[1]);
        assert(header.len() == 2);
        assert(header[0] == bytes[0] && header[1] == bytes[1]);
        assert(bytes =~= header + data);
    } else if length > CLASSIC_CEILING {
        big_endian_digits(bytes[2], bytes[3], bytes[4], bytes[5]);
        assert(header.len() == 6);
        assert(bytes =~= header + data);
    } else {
        assert(bytes.take(2) =~= seq![0x10u8, 0x00u8]);
    }
}

proof fn big_endian_digits(a: u8, b: u8, c: u8, d: u8)
    ensures
        ({
            let n: nat = big_endian(a, b, c, d);
            &&& n <= u32::MAX
            &&& n / 0x100_0000 == a
            &&& n / 0x1_0000 % 0x100 == b
            &&& n / 0x100 % 0x100 == c
            &&& n % 0x100 == d
        }),
{
    let n: int = big_endian(a, b, c, d) as int;
    let upper: int = a * 0x1_0000 + b * 0x100 + c;
    let half: int = a * 0x100 + b;
    assert(n == 0x100 * upper + d);
    assert(n / 0x100 == upper && n % 0x100 == d);
    assert(upper == 0x100 * half + c);
    assert(upper / 0x100 == half && upper % 0x100 == c);
    assert(half / 0x100 == a && half % 0x100 == b);
    lemma_div_denominator(n, 0x100, 0x100);
    lemma_div_denominator(n, 0x1_0000, 0x100);
}

/// What a frame reads as says what its bytes are: a consecutive frame to the
/// last byte, a single and a flow-control frame up to their padding, and a first
/// frame up to the choice of the longer length where the shorter would do.
pub proof fn read_frames_rebuild(bytes: Seq<u8>)
    ensures
        match parsed(bytes) {
            Ok(PciView::Single { data }) => {
                &&& data.len() < 16
                &&& single_frame(data).is_prefix_of(bytes)
            },
            Ok(PciView::First { length, data }) => {
                bytes == first_frame(length, data) || is_long_for_short(bytes, length, data)
            },
            Ok(PciView::Consecutive { index, data }) => {
                &&& index < 16
                &&& bytes == consecutive_frame(index as nat, data)
            },
            Ok(PciView::Flow { status, block_size, separation }) => {
                flow_frame(status, block_size, separation).is_prefix_of(bytes)
            },
            Err(_) => true,
        },
{
    match parsed(bytes) {
        Ok(PciView::Single { data }) => {
            assert(single_frame(data) =~= bytes.take(single_frame(data).len() as int));
        },
        Ok(PciView::First { length, data }) => {
            first_frames_rebuild(bytes);
        },
        Ok(PciView::Consecutive { index, data }) => {
            assert(bytes =~= consecutive_frame(index as nat, data));
        },
        Ok(PciView::Flow { status, block_size, separation }) => {
            assert(flow_frame(status, block_size, separation) =~= bytes.take(3));
        },
        Err(_) => {},
    }
}

/// The sizes are those of the eight bytes of a CAN frame: what each kind of
/// frame carries is what its PCI leaves of them, and twelve bits count to one
/// less than four thousand and ninety-six.
pub proof fn every_kind_fills_eight_bytes()
    ensures
        1 + SINGLE_MAX == 8,
        2 + FIRST_DATA == 8,
        6 + ESCAPE_DATA == 8,
        1 + CONSECUTIVE_DATA == 8,
        CLASSIC_CEILING + 1 == 16 * 256,
{
}

/// The three statuses have the nibbles zero, one and two, and no other nibble
/// has a meaning: it is told in the error.
pub proof fn statuses_count_from_zero(nibble: u8)
    ensures
        FlowStatus::Continue.code() == 0,
        FlowStatus::Wait.code() == 1,
        FlowStatus::Overflow.code() == 2,
        nibble <= 2 <==> FlowStatus::named(nibble) is Ok,
        nibble <= 2 ==> FlowStatus::named(nibble)->Ok_0.code() == nibble,
        nibble > 2 ==> FlowStatus::named(nibble) == Err::<FlowStatus, IsoTpError>(
            IsoTpError::UnknownFlowStatus(nibble),
        ),
{
}

/// A single frame, place by place: the first byte counts the payload, and the
/// payload follows it in order, with nothing behind.
pub proof fn single_frames_place_by_place(payload: Seq<u8>)
    requires
        payload.len() <= 7,
    ensures
        single_frame(payload).len() == 1 + payload.len(),
        single_frame(payload)[0] == payload.len(),
        forall|i: int|
            0 <= i < payload.len() ==> single_frame(payload)[1 + i] == #[trigger] payload[i],
{
}

/// A first frame, place by place. Up to 4095 bytes the high nibble of the first
/// byte is one, its low nibble and the second byte are the length, and the
/// opening follows in order. Beyond, the two bytes are ten and zero in base
/// sixteen, the four after them are the length, the most significant first, or
/// all ones where it does not fit them, and then the opening follows in order.
pub proof fn first_frames_place_by_place(total: nat, opening: Seq<u8>)
    requires
        total > 7,
    ensures
        ({
            let bytes: Seq<u8> = first_frame(total, opening);
            &&& total <= 4095 ==> {
                &&& bytes.len() == 2 + opening.len()
                &&& 16 <= bytes[0] < 32
                &&& (bytes[0] - 16) * 256 + bytes[1] == total
                &&& forall|i: int|
                    0 <= i < opening.len() ==> bytes[2 + i] == #[trigger] opening[i]
            }
            &&& total > 4095 ==> {
                &&& bytes.len() == 6 + opening.len()
                &&& bytes[0] == 16
                &&& bytes[1] == 0
                &&& forall|i: int|
                    0 <= i < opening.len() ==> bytes[6 + i] == #[trigger] opening[i]
            }
            &&& 4095 < total <= 0xffff_ffff ==> ((bytes[2] * 256 + bytes[3]) * 256 + bytes[4]) * 256
                + bytes[5] == total
            &&& total > 0xffff_ffff ==> bytes[2] == 255 && bytes[3] == 255 && bytes[4] == 255
                && bytes[5] == 255
        }),
{
    let bytes: Seq<u8> = first_frame(total, opening);
    if 4095 < total <= 0xffff_ffff {
        first_frames_read_back(total, opening);
        assert(big_endian(bytes[2], bytes[3], bytes[4], bytes[5]) == total);
    }
}

/// A consecutive frame, place by place: the high nibble of the first byte is
/// two, its low nibble is the sequence number modulo sixteen, and the chunk
/// follows in order, with nothing behind.
pub proof fn consecutive_frames_place_by_place(index: nat, chunk: Seq<u8>)
    ensures
        consecutive_frame(index, chunk).len() == 1 + chunk.len(),
        consecutive_frame(index, chunk)[0] == 32 + index % 16,
        forall|i: int|
            0 <= i < chunk.len() ==> consecutive_frame(index, chunk)[1 + i] == #[trigger] chunk[i],
{
}

/// A flow-control frame, place by place: three bytes, of which the first is 48
/// to carry on, 49 to wait and 50 to abandon, the second is the block size and
/// the third is the separation time.
pub proof fn flow_frames_place_by_place(status: FlowStatus, block_size: u8, separation: u8)
    ensures
        ({
            let bytes: Seq<u8> = flow_frame(status, block_size, separation);
            &&& bytes.len() == 3
            &&& bytes[0] == 48 <==> status == FlowStatus::Continue
            &&& bytes[0] == 49 <==> status == FlowStatus::Wait
            &&& bytes[0] == 50 <==> status == FlowStatus::Overflow
            &&& bytes[1] == block_size
            &&& bytes[2] == separation
        }),
{
}

/// A frame whose first byte is below sixteen is a single frame wherever as many
/// bytes follow as that byte counts, and carries those, in order, whatever
/// stands behind them. Where fewer follow it is too short.
pub proof fn single_frames_are_read_by_place(bytes: Seq<u8>)
    requires
        bytes.len() > 0,
        bytes[0] < 16,
    ensures
        bytes.len() > bytes[0] ==> {
            &&& parsed(bytes) matches Ok(PciView::Single { data })
            &&& data.len() == bytes[0]
            &&& forall|i: int| 0 <= i < data.len() ==> #[trigger] data[i] == bytes[1 + i]
        },
        bytes.len() <= bytes[0] ==> parsed(bytes) == Err::<PciView, IsoTpError>(
            IsoTpError::ShortSingle,
        ),
{
}

/// A frame whose first byte is from sixteen to 31 is a first frame. Where its
/// twelve bits of length are not all zero it names that length and carries all
/// that follows its second byte, in order; where they are, the next four bytes
/// are the length, the most significant first, and it carries all that follows
/// those. One that ends inside its length is too short.
pub proof fn first_frames_are_read_by_place(bytes: Seq<u8>)
    requires
        bytes.len() > 0,
        16 <= bytes[0] < 32,
    ensures
        bytes.len() >= 2 && (bytes[0] > 16 || bytes[1] > 0) ==> {
            &&& parsed(bytes) matches Ok(PciView::First { length, data })
            &&& length == (bytes[0] - 16) * 256 + bytes[1]
            &&& data.len() == bytes.len() - 2
            &&& forall|i: int| 0 <= i < data.len() ==> #[trigger] data[i] == bytes[2 + i]
        },
        bytes.len() >= 6 && bytes[0] == 16 && bytes[1] == 0 ==> {
            &&& parsed(bytes) matches Ok(PciView::First { length, data })
            &&& length == ((bytes[2] * 256 + bytes[3]) * 256 + bytes[4]) * 256 + bytes[5]
            &&& data.len() == bytes.len() - 6
            &&& forall|i: int| 0 <= i < data.len() ==> #[trigger] data[i] == bytes[6 + i]
        },
        bytes.len() < 6 && bytes[0] == 16 && (bytes.len() > 1 ==> bytes[1] == 0) ==> parsed(bytes)
            == Err::<PciView, IsoTpError>(IsoTpError::ShortEscape),
        bytes.len() < 2 && bytes[0] > 16 ==> parsed(bytes) == Err::<PciView, IsoTpError>(
            IsoTpError::ShortFirst,
        ),
{
}

/// A frame whose first byte is from 32 to 47 is a consecutive frame: what that
/// byte has over 32 is its sequence number, and it carries all that follows, in
/// order.
pub proof fn consecutive_frames_are_read_by_place(bytes: Seq<u8>)
    requires
        bytes.len() > 0,
        32 <= bytes[0] < 48,
    ensures
        ({
            &&& parsed(bytes) matches Ok(PciView::Consecutive { index, data })
            &&& index == bytes[0] - 32
            &&& data.len() == bytes.len() - 1
            &&& forall|i: int| 0 <= i < data.len() ==> #[trigger] data[i] == bytes[1 + i]
        }),
{
}

/// A frame whose first byte is from 48 to 63 is flow control: it says to carry
/// on, to wait or to abandon where that byte is 48, 49 or 50, and its second and
/// third bytes are the block size and the separation time, whatever stands
/// behind them. One that ends before either is refused for that, and else one
/// with another status for its status.
pub proof fn flow_frames_are_read_by_place(bytes: Seq<u8>)
    requires
        bytes.len() > 0,
        48 <= bytes[0] < 64,
    ensures
        bytes.len() == 1 ==> parsed(bytes) == Err::<PciView, IsoTpError>(IsoTpError::NoBlockSize),
        bytes.len() == 2 ==> parsed(bytes) == Err::<PciView, IsoTpError>(IsoTpError::NoSeparation),
        bytes.len() >= 3 && bytes[0] <= 50 ==> {
            &&& parsed(bytes) matches Ok(PciView::Flow { status, block_size, separation })
            &&& status == FlowStatus::Continue <==> bytes[0] == 48
            &&& status == FlowStatus::Wait <==> bytes[0] == 49
            &&& status == FlowStatus::Overflow <==> bytes[0] == 50
            &&& block_size == bytes[1]
            &&& separation == bytes[2]
        },
        bytes.len() >= 3 && bytes[0] > 50 ==> parsed(bytes) == Err::<PciView, IsoTpError>(
            IsoTpError::UnknownFlowStatus((bytes[0] - 48) as u8),
        ),
{
}

/// There are no other frames: one without a byte is refused as empty, and one
/// whose first byte is 64 or more for its high nibble.
pub proof fn no_other_frame_is_read(bytes: Seq<u8>)
    ensures
        bytes.len() == 0 ==> parsed(bytes) == Err::<PciView, IsoTpError>(IsoTpError::EmptyFrame),
        bytes.len() > 0 && bytes[0] >= 64 ==> {
            &&& parsed(bytes) matches Err(IsoTpError::UnknownType(kind))
            &&& 16 * kind <= bytes[0] < 16 * kind + 16
        },
{
}

/// Padding is not read: a single and a flow-control frame say the same whatever
/// stands behind them.
pub proof fn padding_is_not_read(
    payload: Seq<u8>,
    status: FlowStatus,
    block_size: u8,
    separation: u8,
    padding: Seq<u8>,
)
    requires
        payload.len() <= 7,
    ensures
        parsed(single_frame(payload) + padding) == Ok::<PciView, IsoTpError>(
            PciView::Single { data: payload },
        ),
        parsed(flow_frame(status, block_size, separation) + padding) == Ok::<PciView, IsoTpError>(
            PciView::Flow { status, block_size, separation },
        ),
{
    let padded: Seq<u8> = single_frame(payload) + padding;
    assert(padded.subrange(1, 1 + payload.len() as int) =~= payload);
}

/// What is said of the contents of a frame that was read is said of the frame:
/// its contents are its fields.
pub proof fn frames_read_are_their_contents(pci: Pci, error: IsoTpError)
    ensures
        match pci {
            Pci::Single { data } => pci@ == (PciView::Single { data: data@ }),
            Pci::First { length, data } => pci@ == (PciView::First {
                length: length as nat,
                data: data@,
            }),
            Pci::Consecutive { index, data } => pci@ == (PciView::Consecutive {
                index,
                data: data@,
            }),
            Pci::Flow { status, block_size, separation } => pci@ == (PciView::Flow {
                status,
                block_size,
                separation,
            }),
        },
        pci_result(Ok(pci)) == Ok::<PciView, IsoTpError>(pci@),
        pci_result(Err(error)) == Err::<PciView, IsoTpError>(error),
{
}

} // verus!
