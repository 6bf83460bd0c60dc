//! One end of a session: the buses it uses, the identifier it transmits under
//! and the pacing it asks for.

use crate::bus::{frames_go_out_as_given, Frame, FrameView};
use crate::collect::{open_collection, CollectStep, CollectorView};
use crate::deliver::{open_delivery, DeliverStep, OutgoingView};
use crate::error::IsoTpError;
use crate::frame::{
    flow, flow_frame, flow_frames_place_by_place, FlowStatus, CLASSIC_CEILING,
};
use crate::numeral::{digit_value, numeral, numerals_read_back, read_as, write_numeral};
use crate::pacing::Pacing;
use vstd::prelude::*;
use vstd::slice::slice_to_vec;
use vstd::string::StringExecFns;

verus! {

/// The identifier a tester transmits under; the first ECU answers from
/// [`ECU_ID`].
pub const TESTER_ID: u32 = 0x7e0;

/// See [`TESTER_ID`].
pub const ECU_ID: u32 = 0x7e8;

/// How long an end waits for its peer unless it is told otherwise: one second.
pub const DEFAULT_TIMEOUT: u128 = 1_000_000_000;

/// One end of an ISO-TP session over CAN.
///
/// `outbound` carries what this end transmits, its segmented frames when it
/// sends and its flow control when it receives; `inbound` carries what the
/// other end transmits. The peer is the same with the two buses swapped. What a
/// bus is, is up to the caller: `B` is the handle by which the caller knows it.
#[derive(Clone)]
pub struct IsoTpTransport<B> {
    outbound: B,
    inbound: B,
    id: u32,
    pacing: Pacing,
    timeout: u128,
}

/// The contents of an [`IsoTpTransport`].
pub struct IsoTpTransportView<B> {
    /// The bus that carries what this end transmits.
    pub outbound: B,
    /// The bus that carries what the other end transmits.
    pub inbound: B,
    /// The identifier this end transmits under.
    pub id: u32,
    /// What it asks of a sender, and whether the escape is allowed.
    pub pacing: Pacing,
    /// How long it waits for its peer, in nanoseconds.
    pub timeout: nat,
}

impl<B> View for IsoTpTransport<B> {
    type V = IsoTpTransportView<B>;

    closed spec fn view(&self) -> IsoTpTransportView<B> {
        IsoTpTransportView {
            outbound: self.outbound,
            inbound: self.inbound,
            id: self.id,
            pacing: self.pacing,
            timeout: self.timeout as nat,
        }
    }
}

impl<B> IsoTpTransportView<B> {
    /// An end that nothing was asked of yet.
    pub open spec fn fresh(outbound: B, inbound: B, id: u32) -> IsoTpTransportView<B> {
        IsoTpTransportView {
            outbound,
            inbound,
            id,
            pacing: Pacing { block_size: 0, separation: 0, escape: false },
            timeout: DEFAULT_TIMEOUT as nat,
        }
    }

    /// The largest payload this end carries whole.
    pub open spec fn ceiling(self) -> nat {
        if self.pacing.escape {
            u32::MAX as nat
        } else {
            CLASSIC_CEILING as nat
        }
    }

    /// The delivery of `payload` by this end, before its first frame.
    pub open spec fn outgoing(self, payload: Seq<u8>) -> OutgoingView {
        OutgoingView { id: self.id, payload, timeout: self.timeout, sent: 0 }
    }

    /// This end as the taker of a message off the bus named `bus`.
    pub open spec fn collector(self, bus: Seq<char>) -> CollectorView {
        CollectorView {
            id: self.id,
            pacing: self.pacing,
            timeout: self.timeout,
            origin: origin_uri(bus, self.id),
        }
    }

    /// The flow-control frame of this end that says `status`.
    pub open spec fn flow(self, status: FlowStatus) -> FrameView {
        FrameView::under(
            self.id,
            flow_frame(status, self.pacing.block_size, self.pacing.separation),
        )
    }
}

/// The address of what the end `id` takes off the bus named `bus`.
pub open spec fn origin_uri(bus: Seq<char>, id: u32) -> Seq<char> {
    "isotp://"@ + bus + "/0x"@ + numeral(id as nat, 16)
}

impl<B> IsoTpTransport<B> {
    /// A session that transmits under `id` on `outbound` and reads the peer
    /// on `inbound`.
    #[must_use]
    pub fn new(outbound: B, inbound: B, id: u32) -> (end: IsoTpTransport<B>)
        ensures
            end@ == IsoTpTransportView::fresh(outbound, inbound, id),
    {
        IsoTpTransport { outbound, inbound, id, pacing: Pacing::default(), timeout: DEFAULT_TIMEOUT }
    }

    /// The block size and separation this end asks for as a receiver, and
    /// whether the length escape is allowed.
    #[must_use]
    pub fn paced(self, pacing: Pacing) -> (end: IsoTpTransport<B>)
        ensures
            end@ == (IsoTpTransportView { pacing, ..self@ }),
    {
        IsoTpTransport { pacing, ..self }
    }

    /// Give up on a peer that stops mid-transfer, after `timeout` nanoseconds.
    #[must_use]
    pub fn timing_out_after(self, timeout: u128) -> (end: IsoTpTransport<B>)
        ensures
            end@ == (IsoTpTransportView { timeout: timeout as nat, ..self@ }),
    {
        IsoTpTransport { timeout, ..self }
    }

    /// The bus that carries what this end transmits.
    #[must_use]
    pub fn outbound(&self) -> (bus: &B)
        ensures
            *bus == self@.outbound,
    {
        &self.outbound
    }

    /// The bus that carries what the other end transmits.
    #[must_use]
    pub fn inbound(&self) -> (bus: &B)
        ensures
            *bus == self@.inbound,
    {
        &self.inbound
    }

    /// What this end asks of a sender, and whether the escape is allowed.
    #[must_use]
    pub fn pacing(&self) -> (pacing: Pacing)
        ensures
            pacing == self@.pacing,
    {
        self.pacing
    }

    /// How long this end waits for its peer, in nanoseconds.
    #[must_use]
    pub fn timeout(&self) -> (timeout: u128)
        ensures
            timeout == self@.timeout,
    {
        self.timeout
    }

    /// The name of the transport.
    #[must_use]
    pub fn name(&self) -> (name: &'static str)
        ensures
            name@ == "iso-tp"@,
    {
        "iso-tp"
    }

    /// The largest payload this session will carry whole: [`CLASSIC_CEILING`],
    /// or far more when the escape is allowed.
    #[must_use]
    pub fn ceiling(&self) -> (ceiling: usize)
        ensures
            ceiling == self@.ceiling(),
    {
        if self.pacing.escape {
            u32::MAX as usize
        } else {
            CLASSIC_CEILING
        }
    }

    /// Open the delivery of `payload`: the step that puts its first frame on the
    /// outbound bus. The steps after it obey the flow control the peer returns.
    ///
    /// # Errors
    /// A payload over the ceiling.
    pub fn deliver(&self, payload: &[u8]) -> (step: Result<DeliverStep, IsoTpError>)
        ensures
            step is Ok <==> payload@.len() <= self@.ceiling(),
            step matches Ok(opened) ==> opened@ == self@.outgoing(payload@).open(),
            step matches Err(error) ==> (error matches IsoTpError::OverCeiling { length, ceiling }
                && length == payload@.len() && ceiling == self@.ceiling()),
    {
        if payload.len() > self.ceiling() {
            return Err(
                IsoTpError::OverCeiling { length: payload.len(), ceiling: self.ceiling() },
            );
        }
        open_delivery(self.id, self.timeout, slice_to_vec(payload), self.pacing.escape)
    }

    /// Wait, from `now` on, for one message off the inbound bus, whose name is
    /// `bus`: the step that reads its first frame. The steps after it pace the
    /// sender with flow control.
    #[must_use]
    pub fn collect(&self, bus: &str, now: u128) -> (step: CollectStep)
        ensures
            step@ == self@.collector(bus@).open(now as nat),
    {
        let mut origin: String = "isotp://".to_owned();
        origin.append(bus);
        origin.append("/0x");
        origin.append(write_numeral(self.id as u64, 16).as_str());
        open_collection(self.id, self.pacing, self.timeout, origin, now)
    }

    /// The flow-control frame by which this end says `status`.
    #[must_use]
    pub fn transmit_flow(&self, status: FlowStatus) -> (frame: Frame)
        ensures
            frame@ == self@.flow(status),
    {
        Frame::under(self.id, flow(status, self.pacing.block_size, self.pacing.separation))
    }
}

/// A fresh end has the buses and the identifier that it was given, asks for no
/// blocks and no gaps, allows no escape, and waits one second for its peer. The
/// tester and the first ECU have the identifiers of the physical request and
/// response, eight apart.
pub proof fn fresh_ends_are_as_given<B>(outbound: B, inbound: B, id: u32)
    ensures
        ({
            let end: IsoTpTransportView<B> = IsoTpTransportView::fresh(outbound, inbound, id);
            &&& end.outbound == outbound
            &&& end.inbound == inbound
            &&& end.id == id
            &&& end.pacing.block_size == 0
            &&& end.pacing.separation == 0
            &&& !end.pacing.escape
            &&& end.timeout == 1000 * 1000 * 1000
        }),
        TESTER_ID == 0x7e0,
        ECU_ID == TESTER_ID + 8,
{
}

/// An end carries up to 4095 bytes, or as many as 32 bits count where the escape
/// is allowed, and nothing else about it matters. It delivers a payload under its
/// own identifier and with its own timeout, with no consecutive frame out yet,
/// and takes a message with its own identifier, pacing and timeout. Its flow
/// control goes under its identifier and has its block size and separation.
pub proof fn ends_act_as_themselves<B>(
    end: IsoTpTransportView<B>,
    payload: Seq<u8>,
    bus: Seq<char>,
    status: FlowStatus,
)
    ensures
        !end.pacing.escape ==> end.ceiling() == 4095,
        end.pacing.escape ==> end.ceiling() == 0xffff_ffff,
        end.outgoing(payload).id == end.id,
        end.outgoing(payload).payload == payload,
        end.outgoing(payload).timeout == end.timeout,
        end.outgoing(payload).sent == 0,
        end.collector(bus).id == end.id,
        end.collector(bus).pacing == end.pacing,
        end.collector(bus).timeout == end.timeout,
        ({
            let frame: FrameView = end.flow(status);
            &&& frame.id == end.id
            &&& frame.extended <==> end.id >= 2048
            &&& frame.data.len() == 3
            &&& frame.data[0] == 48 <==> status == FlowStatus::Continue
            &&& frame.data[0] == 49 <==> status == FlowStatus::Wait
            &&& frame.data[0] == 50 <==> status == FlowStatus::Overflow
            &&& frame.data[1] == end.pacing.block_size
            &&& frame.data[2] == end.pacing.separation
        }),
{
    flow_frames_place_by_place(status, end.pacing.block_size, end.pacing.separation);
    frames_go_out_as_given(
        end.id,
        flow_frame(status, end.pacing.block_size, end.pacing.separation),
    );
}

/// The origin that an end gives to what it takes off a bus: the scheme, the name
/// of the bus, a slash and `0x`, and then the identifier of the end in base
/// sixteen. What stands there reads back as the identifier, has no leading zero
/// but where the identifier is zero, and has no slash in it, so that the slash
/// before the `0x` is the last one.
pub proof fn the_origin_names_the_end<B>(end: IsoTpTransportView<B>, bus: Seq<char>)
    ensures
        ({
            let origin: Seq<char> = end.collector(bus).origin;
            let slash: int = 8 + bus.len() as int;
            let name: Seq<char> = origin.skip(slash + 3);
            &&& origin.len() > slash + 3
            &&& origin.take(8) == "isotp://"@
            &&& origin.subrange(8, slash) == bus
            &&& origin[slash] == '/'
            &&& origin[slash + 1] == '0'
            &&& origin[slash + 2] == 'x'
            &&& read_as(name, 16) == end.id
            &&& forall|i: int| 0 <= i < name.len() ==> 0 <= digit_value(#[trigger] name[i]) < 16
            &&& !name.contains('/')
            &&& name[0] == '0' ==> end.id == 0
            &&& end.id == 0 ==> name == seq!['0']
        }),
{
    let origin: Seq<char> = end.collector(bus).origin;
    let slash: int = 8 + bus.len() as int;
    let name: Seq<char> = origin.skip(slash + 3);
    reveal_strlit("isotp://");
    reveal_strlit("/0x");
    numerals_read_back(end.id as nat, 16);
    assert(origin.take(8) =~= "isotp://"@);
    assert(origin.subrange(8, slash) =~= bus);
    assert(name =~= numeral(end.id as nat, 16));
    if name.contains('/') {
        let i: int = name.index_of('/');
        assert(digit_value(name[i]) == -1);
    }
}

/// The origins tell ends and buses apart: what two ends with different
/// identifiers take off one bus has different origins, and so has what one end
/// takes off two buses with different names.
pub proof fn origins_tell_ends_apart<B>(
    end: IsoTpTransportView<B>,
    other: IsoTpTransportView<B>,
    bus: Seq<char>,
    other_bus: Seq<char>,
)
    ensures
        end.id != other.id ==> end.collector(bus).origin != other.collector(bus).origin,
        bus != other_bus ==> end.collector(bus).origin != end.collector(other_bus).origin,
{
    the_origin_names_the_end(end, bus);
    the_origin_names_the_end(other, bus);
    the_origin_names_the_end(end, other_bus);
    let one: Seq<char> = end.collector(bus).origin;
    let two: Seq<char> = end.collector(other_bus).origin;
    if bus != other_bus && one == two {
        reveal_strlit("isotp://");
        reveal_strlit("/0x");
        assert(one.len() == 11 + bus.len() + numeral(end.id as nat, 16).len());
        assert(two.len() == 11 + other_bus.len() + numeral(end.id as nat, 16).len());
    }
}

} // verus!
