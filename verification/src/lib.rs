//! Streams too long for one CAN frame, segmented the ISO-TP way.
//!
//! A classical CAN frame carries eight bytes, and most of what a diagnostic
//! tester or an ECU says does not fit. ISO-TP is the layer that makes it fit: a
//! payload of up to 4095 bytes, or, with the length escape, far more, is split
//! into a first frame and a run of consecutive frames, and the receiver paces
//! the sender with flow control, a block size and a minimum separation time. A
//! payload of seven bytes or fewer skips all of that and rides in one single
//! frame.
//!
//! The library decides; the bus is the caller's. [`IsoTpTransport::deliver`] and
//! [`IsoTpTransport::collect`] give the first step of a session, and each step
//! says what the bus is to do next and takes back what came of it. Two directed
//! buses stand for the two CAN identifiers a session uses: one carries the
//! segmented data one way, the other carries flow control back.
//!
//! The origin of what arrives names the bus and the identifier of the end that
//! took it: `isotp://<bus>/0x<id>`.

pub mod block;
pub mod bus;
pub mod collect;
pub mod deliver;
pub mod error;
pub mod frame;
pub mod limits;
pub mod loopback;
pub mod message;
pub mod numeral;
pub mod pacing;
pub mod round;
pub mod rounds;
pub mod sending;
pub mod transport;

pub use crate::collect::{Arrived, CollectStep};
pub use crate::deliver::DeliverStep;
pub use crate::error::IsoTpError;
pub use crate::loopback::{Ecu, Session, SessionNumbers, Standing};
pub use crate::pacing::Pacing;
pub use crate::transport::{IsoTpTransport, ECU_ID, TESTER_ID};
