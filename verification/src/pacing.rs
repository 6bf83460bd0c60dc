//! How a receiver paces its sender.

use vstd::prelude::*;

verus! {

/// How a session is paced and how far it will stretch. The default is no
/// block size, no separation and no escape.
#[derive(Clone, Copy, Debug, PartialEq, Eq, Structural)]
pub struct Pacing {
    /// Frames the receiver takes between flow controls; zero means all of them.
    pub block_size: u8,
    /// The minimum gap the receiver asks the sender to leave, in milliseconds
    /// (sub-millisecond encodings are not modelled).
    pub separation: u8,
    /// Whether the 32-bit length escape is permitted; without it the payload
    /// ceiling is [`CLASSIC_CEILING`](crate::frame::CLASSIC_CEILING).
    pub escape: bool,
}

impl Default for Pacing {
    fn default() -> (pacing: Pacing)
        ensures
            pacing == (Pacing { block_size: 0, separation: 0, escape: false }),
    {
        Pacing { block_size: 0, separation: 0, escape: false }
    }
}

/// The frames a fresh flow control with `block_size` lets through; `None`
/// means all of them.
pub open spec fn granted(block_size: u8) -> Option<u8> {
    if block_size == 0 {
        None
    } else {
        Some(block_size)
    }
}

/// What is left of a grant after one more frame.
pub open spec fn one_taken(room: Option<u8>) -> Option<u8> {
    match room {
        Some(left) => if left > 0 {
            Some((left - 1) as u8)
        } else {
            Some(0)
        },
        None => None,
    }
}

/// See [`granted`].
pub(crate) fn grant(block_size: u8) -> (room: Option<u8>)
    ensures
        room == granted(block_size),
{
    if block_size == 0 {
        None
    } else {
        Some(block_size)
    }
}

/// See [`one_taken`].
pub(crate) fn take_one(room: Option<u8>) -> (rest: Option<u8>)
    ensures
        rest == one_taken(room),
{
    match room {
        Some(left) => if left > 0 {
            Some(left - 1)
        } else {
            Some(0)
        },
        None => None,
    }
}

/// Whether a grant is used up.
pub(crate) fn is_used_up(room: Option<u8>) -> (used_up: bool)
    ensures
        used_up == (room == Some(0u8)),
{
    match room {
        Some(left) => left == 0,
        None => false,
    }
}

/// A block size of zero lets all frames through, and any other just that many;
/// each frame that goes takes one off, down to none.
pub proof fn grants_count_down(block_size: u8, left: u8)
    ensures
        block_size == 0 ==> granted(block_size) is None,
        block_size > 0 ==> granted(block_size) == Some(block_size),
        one_taken(None) is None,
        left > 0 ==> one_taken(Some(left)) == Some((left - 1) as u8),
        one_taken(Some(0u8)) == Some(0u8),
{
}

} // verus!
