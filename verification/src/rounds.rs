//! Several rounds driven at once, each session on its own pair of buses.

use crate::bus::FrameView;
use crate::collect::{ArrivedView, CollectStepView};
use crate::deliver::DeliverStepView;
use crate::error::IsoTpError;
use crate::loopback::{is_ecu, is_tester, the_peer_has_the_buses_swapped, Session};
use crate::round::{every_round_returns_the_payload_whole, Round, Turn};
use crate::transport::{origin_uri, IsoTpTransportView};
use vstd::prelude::*;

verus! {

/// The two ends of one session, and where they stand.
pub struct Lane<B> {
    /// The end that sends.
    pub tester: IsoTpTransportView<B>,
    /// The end that receives.
    pub ecu: IsoTpTransportView<B>,
    /// What the tester does next, or what it failed with.
    pub sending: Result<DeliverStepView, IsoTpError>,
    /// What the ECU does next, or what it failed with.
    pub taking: Result<CollectStepView, IsoTpError>,
}

impl<B> Lane<B> {
    /// `tester` is about to deliver `payload`, and `ecu` listens since `now` on
    /// the bus named `bus`.
    pub open spec fn start(
        tester: IsoTpTransportView<B>,
        ecu: IsoTpTransportView<B>,
        bus: Seq<char>,
        payload: Seq<u8>,
        now: nat,
    ) -> Lane<B> {
        Lane {
            tester,
            ecu,
            sending: Ok(tester.outgoing(payload).open()),
            taking: Ok(ecu.collector(bus).open(now)),
        }
    }
}

/// A turn of one end of one lane, at a time.
pub struct LaneTurn {
    /// Which lane.
    pub lane: int,
    /// Which end.
    pub turn: Turn,
    /// When.
    pub now: nat,
}

/// Where several rounds stand, and what is on every bus there is.
#[verifier::reject_recursive_types(B)]
pub struct Rounds<B> {
    /// The sessions.
    pub lanes: Seq<Lane<B>>,
    /// The frames on their way on each bus, the oldest first.
    pub buses: Map<B, Seq<FrameView>>,
}

impl<B> Rounds<B> {
    /// The rounds of `lanes`, with nothing on any bus.
    pub open spec fn start(lanes: Seq<Lane<B>>) -> Rounds<B> {
        Rounds { lanes, buses: Map::total(|bus: B| Seq::<FrameView>::empty()) }
    }

    /// The rounds after `frame` was put on `bus`.
    pub open spec fn put(self, bus: B, frame: FrameView) -> Rounds<B> {
        Rounds { buses: self.buses.insert(bus, self.buses[bus].push(frame)), ..self }
    }

    /// The rounds after the oldest frame was read off `bus`.
    pub open spec fn read(self, bus: B) -> Rounds<B> {
        Rounds { buses: self.buses.insert(bus, self.buses[bus].skip(1)), ..self }
    }

    /// The rounds after the tester of the lane `i` came to stand at `sending`.
    pub open spec fn sender_at(
        self,
        i: int,
        sending: Result<DeliverStepView, IsoTpError>,
    ) -> Rounds<B> {
        Rounds { lanes: self.lanes.update(i, Lane { sending, ..self.lanes[i] }), ..self }
    }

    /// The rounds after the ECU of the lane `i` came to stand at `taking`.
    pub open spec fn taker_at(
        self,
        i: int,
        taking: Result<CollectStepView, IsoTpError>,
    ) -> Rounds<B> {
        Rounds { lanes: self.lanes.update(i, Lane { taking, ..self.lanes[i] }), ..self }
    }

    /// The rounds after a turn of the tester of the lane `i`: it transmits on its
    /// own outbound bus and reads its own inbound bus. There is none where it
    /// is through, or nothing has come.
    pub open spec fn tester_turn(self, i: int, now: nat) -> Option<Rounds<B>> {
        let lane: Lane<B> = self.lanes[i];
        match lane.sending {
            Ok(DeliverStepView::Transmit { frame, then }) => Some(
                self.put(lane.tester.outbound, frame).sender_at(i, Ok(then.proceed(now))),
            ),
            Ok(DeliverStepView::Pause { millis, then }) => Some(
                self.sender_at(i, Ok(then.proceed(now))),
            ),
            Ok(DeliverStepView::Receive { waiting }) => {
                let inbound: Seq<FrameView> = self.buses[lane.tester.inbound];
                if inbound.len() == 0 {
                    None
                } else {
                    Some(
                        self.read(lane.tester.inbound).sender_at(
                            i,
                            waiting.heard(Some(inbound[0].data), now),
                        ),
                    )
                }
            },
            _ => None,
        }
    }

    /// The rounds after a turn of the ECU of the lane `i`, in the same way.
    pub open spec fn ecu_turn(self, i: int, now: nat) -> Option<Rounds<B>> {
        let lane: Lane<B> = self.lanes[i];
        match lane.taking {
            Ok(CollectStepView::Transmit { frame, then }) => Some(
                self.put(lane.ecu.outbound, frame).taker_at(i, Ok(then.proceed(now))),
            ),
            Ok(CollectStepView::Receive { listening }) => {
                let inbound: Seq<FrameView> = self.buses[lane.ecu.inbound];
                if inbound.len() == 0 {
                    None
                } else {
                    Some(
                        self.read(lane.ecu.inbound).taker_at(
                            i,
                            listening.heard(Some(inbound[0].data), now),
                        ),
                    )
                }
            },
            _ => None,
        }
    }

    /// The rounds after one turn; one of a lane that is not there is none.
    pub open spec fn turn(self, turn: LaneTurn) -> Option<Rounds<B>> {
        if 0 <= turn.lane < self.lanes.len() {
            match turn.turn {
                Turn::Tester => self.tester_turn(turn.lane, turn.now),
                Turn::Ecu => self.ecu_turn(turn.lane, turn.now),
            }
        } else {
            None
        }
    }

    /// The rounds after the turns of `schedule`. A turn at which there is
    /// nothing to do passes.
    pub open spec fn run(self, schedule: Seq<LaneTurn>) -> Rounds<B>
        decreases schedule.len(),
    {
        if schedule.len() == 0 {
            self
        } else {
            let before: Rounds<B> = self.run(schedule.drop_last());
            match before.turn(schedule.last()) {
                Some(after) => after,
                None => before,
            }
        }
    }

    /// The lane `i` by itself: its two ends and what is on its two buses.
    pub open spec fn round(self, i: int) -> Round {
        Round {
            tester: self.lanes[i].sending,
            ecu: self.lanes[i].taking,
            to_ecu: self.buses[self.lanes[i].tester.outbound],
            to_tester: self.buses[self.lanes[i].tester.inbound],
        }
    }
}

/// The turns in `schedule` that are the lane `i`'s own.
pub open spec fn own_turns(schedule: Seq<LaneTurn>, i: int) -> Seq<(Turn, nat)>
    decreases schedule.len(),
{
    if schedule.len() == 0 {
        Seq::empty()
    } else {
        let before: Seq<(Turn, nat)> = own_turns(schedule.drop_last(), i);
        if schedule.last().lane == i {
            before.push((schedule.last().turn, schedule.last().now))
        } else {
            before
        }
    }
}

/// Whether the ends of each lane are each other's peer, and no bus serves two
/// directions or two lanes.
spec fn apart<B>(lanes: Seq<Lane<B>>) -> bool {
    &&& forall|i: int|
        0 <= i < lanes.len() ==> {
            &&& (#[trigger] lanes[i]).tester.outbound == lanes[i].ecu.inbound
            &&& lanes[i].tester.inbound == lanes[i].ecu.outbound
            &&& lanes[i].tester.outbound != lanes[i].tester.inbound
        }
    &&& forall|i: int, j: int|
        0 <= i < lanes.len() && 0 <= j < lanes.len() && i != j ==> {
            &&& (#[trigger] lanes[i]).tester.outbound != (#[trigger] lanes[j]).tester.outbound
            &&& lanes[i].tester.outbound != lanes[j].tester.inbound
            &&& lanes[i].tester.inbound != lanes[j].tester.outbound
            &&& lanes[i].tester.inbound != lanes[j].tester.inbound
        }
}

/// Whether every bus is known and the ends are those of `lanes`.
spec fn keeps<B>(rounds: Rounds<B>, lanes: Seq<Lane<B>>) -> bool {
    &&& rounds.lanes.len() == lanes.len()
    &&& forall|i: int|
        0 <= i < lanes.len() ==> {
            &&& (#[trigger] rounds.lanes[i]).tester == lanes[i].tester
            &&& rounds.lanes[i].ecu == lanes[i].ecu
        }
    &&& forall|bus: B| #[trigger] rounds.buses.dom().contains(bus)
}

/// A turn of one lane is a turn of its round alone, and nothing to the others.
proof fn a_turn_stays_in_its_lane<B>(
    rounds: Rounds<B>,
    lanes: Seq<Lane<B>>,
    turn: LaneTurn,
    i: int,
)
    requires
        apart(lanes),
        keeps(rounds, lanes),
        0 <= i < lanes.len(),
    ensures
        match rounds.turn(turn) {
            Some(after) => {
                &&& keeps(after, lanes)
                &&& if turn.lane == i {
                    rounds.round(i).turn(turn.turn, turn.now) == Some(after.round(i))
                } else {
                    after.round(i) == rounds.round(i)
                }
            },
            None => turn.lane == i ==> rounds.round(i).turn(turn.turn, turn.now) is None,
        },
{
    let j: int = turn.lane;
    if 0 <= j < lanes.len() {
        assert(rounds.lanes[i].tester == lanes[i].tester && rounds.lanes[i].ecu == lanes[i].ecu);
        assert(rounds.lanes[j].tester == lanes[j].tester && rounds.lanes[j].ecu == lanes[j].ecu);
        match rounds.turn(turn) {
            Some(after) => {
                assert forall|k: int| 0 <= k < lanes.len() implies {
                    &&& (#[trigger] after.lanes[k]).tester == lanes[k].tester
                    &&& after.lanes[k].ecu == lanes[k].ecu
                } by {
                    assert(rounds.lanes[k].tester == lanes[k].tester);
                    assert(rounds.lanes[k].ecu == lanes[k].ecu);
                }
                assert(keeps(after, lanes));
                assert(after.lanes[i].tester == lanes[i].tester);
            },
            None => {},
        }
    }
}

proof fn lanes_run_alone<B>(lanes: Seq<Lane<B>>, schedule: Seq<LaneTurn>, i: int)
    requires
        apart(lanes),
        0 <= i < lanes.len(),
    ensures
        keeps(Rounds::start(lanes).run(schedule), lanes),
        Rounds::start(lanes).run(schedule).round(i) == Rounds::start(lanes).round(i).run(
            own_turns(schedule, i),
        ),
    decreases schedule.len(),
{
    let start: Rounds<B> = Rounds::start(lanes);
    if schedule.len() > 0 {
        let before: Rounds<B> = start.run(schedule.drop_last());
        let own: Seq<(Turn, nat)> = own_turns(schedule.drop_last(), i);
        lanes_run_alone(lanes, schedule.drop_last(), i);
        a_turn_stays_in_its_lane(before, lanes, schedule.last(), i);
        if schedule.last().lane == i {
            let longer: Seq<(Turn, nat)> = own_turns(schedule, i);
            assert(longer.drop_last() =~= own);
            assert(longer.last() == (schedule.last().turn, schedule.last().now));
        }
    }
}

/// Whether no bus serves two directions or two of `sessions`.
pub open spec fn fresh_buses<B>(sessions: Seq<Session<B>>) -> bool {
    &&& forall|i: int|
        0 <= i < sessions.len() ==> (#[trigger] sessions[i]).to_ecu != sessions[i].to_tester
    &&& forall|i: int, j: int|
        0 <= i < sessions.len() && 0 <= j < sessions.len() && i != j ==> {
            &&& (#[trigger] sessions[i]).to_ecu != (#[trigger] sessions[j]).to_ecu
            &&& sessions[i].to_ecu != sessions[j].to_tester
            &&& sessions[i].to_tester != sessions[j].to_tester
        }
}

/// Rounds driven at once never read each other's frames: with a fresh pair of
/// buses per session, and in whatever order the ends of all of them take their
/// turns, each round stands where its own turns alone would have brought it. So
/// neither of its ends fails, its ECU hands over nothing but the payload that was
/// sent to it, and when it can move no more both its ends are through.
///
/// For each session, `ends` has the loopback that stood it up, `lanes` its tester
/// and its ECU, `names` the name of the bus to the ECU, `payloads` what is sent
/// and `nows` when the ECU began to listen. A bus handle and its clone are the
/// same bus.
pub proof fn rounds_at_once_do_not_meet<B: Clone>(
    ends: Seq<IsoTpTransportView<B>>,
    sessions: Seq<Session<B>>,
    lanes: Seq<Lane<B>>,
    names: Seq<Seq<char>>,
    payloads: Seq<Seq<u8>>,
    nows: Seq<nat>,
    schedule: Seq<LaneTurn>,
    i: int,
)
    requires
        fresh_buses(sessions),
        ends.len() == sessions.len(),
        lanes.len() == sessions.len(),
        names.len() == sessions.len(),
        payloads.len() == sessions.len(),
        nows.len() == sessions.len(),
        forall|k: int|
            0 <= k < sessions.len() ==> {
                &&& is_tester(ends[k], sessions[k], (#[trigger] lanes[k]).tester)
                &&& is_ecu(ends[k], sessions[k], lanes[k].ecu)
                &&& lanes[k] == Lane::start(
                    lanes[k].tester,
                    lanes[k].ecu,
                    names[k],
                    payloads[k],
                    nows[k],
                )
                &&& payloads[k].len() <= ends[k].ceiling()
            },
        forall|handle: B, clone: B| #[trigger] cloned(handle, clone) ==> handle == clone,
        0 <= i < sessions.len(),
    ensures
        ({
            let alone: Round = Round::start(
                lanes[i].tester,
                lanes[i].ecu,
                names[i],
                payloads[i],
                nows[i],
            );
            let round: Round = Rounds::start(lanes).run(schedule).round(i);
            let whole: ArrivedView = ArrivedView {
                origin_uri: origin_uri(names[i], lanes[i].ecu.id),
                bytes: payloads[i],
            };
            &&& round == alone.run(own_turns(schedule, i))
            &&& round.tester is Ok
            &&& round.ecu is Ok
            &&& round.ecu matches Ok(CollectStepView::Done { arrived }) ==> arrived == whole
            &&& round.at_rest() ==> {
                &&& round.tester == Ok::<DeliverStepView, IsoTpError>(DeliverStepView::Done)
                &&& round.ecu == Ok::<CollectStepView, IsoTpError>(
                    CollectStepView::Done { arrived: whole },
                )
            }
        }),
{
    assert forall|k: int| 0 <= k < lanes.len() implies {
        &&& (#[trigger] lanes[k]).tester.outbound == sessions[k].to_ecu
        &&& lanes[k].tester.inbound == sessions[k].to_tester
        &&& lanes[k].tester.outbound == lanes[k].ecu.inbound
        &&& lanes[k].tester.inbound == lanes[k].ecu.outbound
        &&& lanes[k].tester.outbound != lanes[k].tester.inbound
    } by {
        the_peer_has_the_buses_swapped(ends[k], sessions[k], lanes[k].tester, lanes[k].ecu);
        assert(cloned(sessions[k].to_ecu, lanes[k].tester.outbound));
        assert(cloned(sessions[k].to_tester, lanes[k].tester.inbound));
        assert(sessions[k].to_ecu != sessions[k].to_tester);
    }
    assert forall|k: int, l: int|
        0 <= k < lanes.len() && 0 <= l < lanes.len() && k != l implies {
        &&& (#[trigger] lanes[k]).tester.outbound != (#[trigger] lanes[l]).tester.outbound
        &&& lanes[k].tester.outbound != lanes[l].tester.inbound
        &&& lanes[k].tester.inbound != lanes[l].tester.outbound
        &&& lanes[k].tester.inbound != lanes[l].tester.inbound
    } by {
        assert(sessions[k].to_ecu != sessions[l].to_ecu);
        assert(sessions[l].to_ecu != sessions[k].to_ecu);
    }
    assert(apart(lanes));
    lanes_run_alone(lanes, schedule, i);
    let alone: Round = Round::start(
        lanes[i].tester,
        lanes[i].ecu,
        names[i],
        payloads[i],
        nows[i],
    );
    assert(Rounds::start(lanes).round(i) == alone);
    every_round_returns_the_payload_whole(
        lanes[i].tester,
        lanes[i].ecu,
        names[i],
        payloads[i],
        nows[i],
        own_turns(schedule, i),
    );
}

} // verus!
