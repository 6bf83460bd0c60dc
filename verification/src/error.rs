//! What can go wrong with a frame or a session, and how it is told.

use crate::numeral::{digit_value, numeral, numerals_read_back, read_as, write_numeral};
use vstd::prelude::*;
use vstd::string::StringExecFns;

verus! {

/// A frame or a session that does not keep to the protocol.
#[derive(Clone, Debug, PartialEq, Eq)]
pub enum IsoTpError {
    /// A low nibble that names no flow status.
    UnknownFlowStatus(u8),
    /// A payload too long for a single frame.
    SingleTooLong,
    /// A payload that needs no first frame.
    FitsSingle,
    /// A payload over the classic ceiling where the escape is not allowed.
    NeedsEscape,
    /// A chunk too long for a consecutive frame.
    ConsecutiveTooLong,
    /// A frame without a single byte.
    EmptyFrame,
    /// A high nibble that names no frame type.
    UnknownType(u8),
    /// A single frame with fewer bytes than it says.
    ShortSingle,
    /// A first frame that ends inside its twelve-bit length.
    ShortFirst,
    /// A first frame that ends inside its 32-bit length.
    ShortEscape,
    /// A flow-control frame that ends before its block size.
    NoBlockSize,
    /// A flow-control frame that ends before its separation time.
    NoSeparation,
    /// A payload of `length` bytes handed to a session that carries `ceiling`.
    OverCeiling { length: usize, ceiling: usize },
    /// Something other than a single or a first frame where a message opens.
    NotAnOpening,
    /// The receiver has no room for the message.
    ReceiverOverflowed,
    /// The receiver kept the sender waiting past the deadline.
    NoClearance,
    /// Something other than a consecutive frame inside a message.
    NotConsecutive,
    /// A consecutive frame whose sequence number is not the one due.
    OutOfSequence,
    /// Something other than flow control where the sender waits for it.
    NotFlowControl,
    /// Nothing heard until the deadline.
    NoFrame,
    /// An address at which no session stands.
    UnknownSession { address: String },
}

impl IsoTpError {
    /// The text that tells this error.
    pub open spec fn text(self) -> Seq<char> {
        match self {
            IsoTpError::UnknownFlowStatus(nibble) => "a flow status of "@ + numeral(
                nibble as nat,
                10,
            ),
            IsoTpError::SingleTooLong => "a single frame carries at most seven bytes"@,
            IsoTpError::FitsSingle => "a payload that fits a single frame"@,
            IsoTpError::NeedsEscape => "a payload over 4095 bytes without the length escape"@,
            IsoTpError::ConsecutiveTooLong => "a consecutive frame carries at most seven bytes"@,
            IsoTpError::EmptyFrame => "an empty CAN frame is no ISO-TP frame"@,
            IsoTpError::UnknownType(kind) => "a PCI type of "@ + numeral(kind as nat, 10),
            IsoTpError::ShortSingle => "a single frame shorter than its length"@,
            IsoTpError::ShortFirst => "a first frame too short for its length"@,
            IsoTpError::ShortEscape => "a first frame that promises an escape but is short"@,
            IsoTpError::NoBlockSize => "a flow-control frame with no block size"@,
            IsoTpError::NoSeparation => "a flow-control frame with no separation time"@,
            IsoTpError::OverCeiling { length, ceiling } => numeral(length as nat, 10)
                + " bytes is over the ISO-TP ceiling of "@ + numeral(ceiling as nat, 10),
            IsoTpError::NotAnOpening => "a session that did not open with data"@,
            IsoTpError::ReceiverOverflowed => "the receiver overflowed"@,
            IsoTpError::NoClearance => "no flow control before the deadline"@,
            IsoTpError::NotConsecutive => "a consecutive frame was expected"@,
            IsoTpError::OutOfSequence => "a consecutive frame out of sequence"@,
            IsoTpError::NotFlowControl => "a frame that was not flow control"@,
            IsoTpError::NoFrame => "no ISO-TP frame before the deadline"@,
            IsoTpError::UnknownSession { address } => address@
                + " is not a session stood up here"@,
        }
    }

    /// The error told in words.
    pub fn message(&self) -> (text: String)
        ensures
            text@ == self.text(),
    {
        match self {
            IsoTpError::UnknownFlowStatus(nibble) => {
                let mut text: String = "a flow status of ".to_owned();
                text.append(write_numeral(*nibble as u64, 10).as_str());
                text
            },
            IsoTpError::SingleTooLong => "a single frame carries at most seven bytes".to_owned(),
            IsoTpError::FitsSingle => "a payload that fits a single frame".to_owned(),
            IsoTpError::NeedsEscape => {
                "a payload over 4095 bytes without the length escape".to_owned()
            },
            IsoTpError::ConsecutiveTooLong => {
                "a consecutive frame carries at most seven bytes".to_owned()
            },
            IsoTpError::EmptyFrame => "an empty CAN frame is no ISO-TP frame".to_owned(),
            IsoTpError::UnknownType(kind) => {
                let mut text: String = "a PCI type of ".to_owned();
                text.append(write_numeral(*kind as u64, 10).as_str());
                text
            },
            IsoTpError::ShortSingle => "a single frame shorter than its length".to_owned(),
            IsoTpError::ShortFirst => "a first frame too short for its length".to_owned(),
            IsoTpError::ShortEscape => {
                "a first frame that promises an escape but is short".to_owned()
            },
            IsoTpError::NoBlockSize => "a flow-control frame with no block size".to_owned(),
            IsoTpError::NoSeparation => "a flow-control frame with no separation time".to_owned(),
            IsoTpError::OverCeiling { length, ceiling } => {
                let mut text: String = write_numeral(*length as u64, 10);
                text.append(" bytes is over the ISO-TP ceiling of ");
                text.append(write_numeral(*ceiling as u64, 10).as_str());
                text
            },
            IsoTpError::NotAnOpening => "a session that did not open with data".to_owned(),
            IsoTpError::ReceiverOverflowed => "the receiver overflowed".to_owned(),
            IsoTpError::NoClearance => "no flow control before the deadline".to_owned(),
            IsoTpError::NotConsecutive => "a consecutive frame was expected".to_owned(),
            IsoTpError::OutOfSequence => "a consecutive frame out of sequence".to_owned(),
            IsoTpError::NotFlowControl => "a frame that was not flow control".to_owned(),
            IsoTpError::NoFrame => "no ISO-TP frame before the deadline".to_owned(),
            IsoTpError::UnknownSession { address } => {
                let mut text: String = address.clone();
                text.append(" is not a session stood up here");
                text
            },
        }
    }
}

/// The errors that have a number, a pair of numbers or an address tell them:
/// what stands at their place in the text reads back as those.
pub proof fn texts_tell_what_was_wrong(nibble: u8, length: usize, ceiling: usize, address: String)
    ensures
        ({
            let text: Seq<char> = IsoTpError::UnknownFlowStatus(nibble).text();
            &&& text.take(17) == "a flow status of "@
            &&& is_numeral_of(text.skip(17), nibble as nat)
        }),
        ({
            let text: Seq<char> = IsoTpError::UnknownType(nibble).text();
            &&& text.take(14) == "a PCI type of "@
            &&& is_numeral_of(text.skip(14), nibble as nat)
        }),
        ({
            let text: Seq<char> = (IsoTpError::OverCeiling { length, ceiling }).text();
            exists|first: Seq<char>, second: Seq<char>|
                {
                    &&& #[trigger] is_numeral_of(first, length as nat)
                    &&& #[trigger] is_numeral_of(second, ceiling as nat)
                    &&& text == first + " bytes is over the ISO-TP ceiling of "@ + second
                }
        }),
        (IsoTpError::UnknownSession { address }).text() == address@
            + " is not a session stood up here"@,
{
    reveal_strlit("a flow status of ");
    reveal_strlit("a PCI type of ");
    numerals_read_back(nibble as nat, 10);
    numerals_read_back(length as nat, 10);
    numerals_read_back(ceiling as nat, 10);
    let status: Seq<char> = IsoTpError::UnknownFlowStatus(nibble).text();
    let kind: Seq<char> = IsoTpError::UnknownType(nibble).text();
    assert(status.take(17) =~= "a flow status of "@);
    assert(status.skip(17) =~= numeral(nibble as nat, 10));
    assert(kind.take(14) =~= "a PCI type of "@);
    assert(kind.skip(14) =~= numeral(nibble as nat, 10));
    assert(is_numeral_of(numeral(length as nat, 10), length as nat));
    assert(is_numeral_of(numeral(ceiling as nat, 10), ceiling as nat));
}

/// Whether `text` is `n` in base ten: digits alone, without a leading zero but
/// where that is all, that read back as `n`.
pub open spec fn is_numeral_of(text: Seq<char>, n: nat) -> bool {
    &&& text.len() > 0
    &&& read_as(text, 10) == n
    &&& forall|i: int| 0 <= i < text.len() ==> 0 <= digit_value(#[trigger] text[i]) < 10
    &&& text[0] == '0' ==> text == seq!['0']
}

} // verus!
