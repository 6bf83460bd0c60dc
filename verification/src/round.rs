//! A whole round: a sender and a receiver on two directed buses that keep their
//! frames in order, in every order in which the two ends can take their turns.

use crate::bus::FrameView;
use crate::collect::{ArrivedView, CollectStepView, CollectorView, PartialView};
use crate::deliver::{opening_frame, opening_length, DeliverStepView, DeliveryView, OutgoingView};
use crate::error::IsoTpError;
use crate::frame::{
    consecutive_frame, consecutive_frames_read_back, first_frames_read_back,
    flow_frames_read_back, single_frames_read_back, FlowStatus, SINGLE_MAX,
};
use crate::pacing::{granted, one_taken};
use crate::transport::{origin_uri, IsoTpTransportView};
use vstd::prelude::*;

verus! {

/// Whose turn it is.
pub enum Turn {
    /// The end that sends.
    Tester,
    /// The end that receives.
    Ecu,
}

/// Where the two ends and the two buses between them stand.
pub struct Round {
    /// What the tester does next, or what it failed with.
    pub tester: Result<DeliverStepView, IsoTpError>,
    /// What the ECU does next, or what it failed with.
    pub ecu: Result<CollectStepView, IsoTpError>,
    /// The frames on their way to the ECU, the oldest first.
    pub to_ecu: Seq<FrameView>,
    /// The frames on their way to the tester, the oldest first.
    pub to_tester: Seq<FrameView>,
}

impl Round {
    /// `tester` is about to deliver `payload`, and `ecu` listens since `now` on
    /// the bus named `bus`.
    pub open spec fn start<B>(
        tester: IsoTpTransportView<B>,
        ecu: IsoTpTransportView<B>,
        bus: Seq<char>,
        payload: Seq<u8>,
        now: nat,
    ) -> Round {
        Round {
            tester: Ok(tester.outgoing(payload).open()),
            ecu: Ok(ecu.collector(bus).open(now)),
            to_ecu: Seq::empty(),
            to_tester: Seq::empty(),
        }
    }

    /// The round after a turn of the tester at `now`. There is none where the
    /// tester is through, or reads a bus on which nothing has come yet.
    pub open spec fn tester_turn(self, now: nat) -> Option<Round> {
        match self.tester {
            Ok(DeliverStepView::Transmit { frame, then }) => Some(
                Round { tester: Ok(then.proceed(now)), to_ecu: self.to_ecu.push(frame), ..self },
            ),
            Ok(DeliverStepView::Pause { millis, then }) => Some(
                Round { tester: Ok(then.proceed(now)), ..self },
            ),
            Ok(DeliverStepView::Receive { waiting }) => if self.to_tester.len() == 0 {
                None
            } else {
                Some(
                    Round {
                        tester: waiting.heard(Some(self.to_tester[0].data), now),
                        to_tester: self.to_tester.skip(1),
                        ..self
                    },
                )
            },
            _ => None,
        }
    }

    /// The round after a turn of the ECU at `now`, in the same way.
    pub open spec fn ecu_turn(self, now: nat) -> Option<Round> {
        match self.ecu {
            Ok(CollectStepView::Transmit { frame, then }) => Some(
                Round { ecu: Ok(then.proceed(now)), to_tester: self.to_tester.push(frame), ..self },
            ),
            Ok(CollectStepView::Receive { listening }) => if self.to_ecu.len() == 0 {
                None
            } else {
                Some(
                    Round {
                        ecu: listening.heard(Some(self.to_ecu[0].data), now),
                        to_ecu: self.to_ecu.skip(1),
                        ..self
                    },
                )
            },
            _ => None,
        }
    }

    /// The round after one turn.
    pub open spec fn turn(self, turn: Turn, now: nat) -> Option<Round> {
        match turn {
            Turn::Tester => self.tester_turn(now),
            Turn::Ecu => self.ecu_turn(now),
        }
    }

    /// The round after the turns of `schedule`. A turn at which there is
    /// nothing to do passes.
    pub open spec fn run(self, schedule: Seq<(Turn, nat)>) -> Round
        decreases schedule.len(),
    {
        if schedule.len() == 0 {
            self
        } else {
            let before: Round = self.run(schedule.drop_last());
            match before.turn(schedule.last().0, schedule.last().1) {
                Some(after) => after,
                None => before,
            }
        }
    }

    /// The turns of `schedule` at which there was something to do.
    pub open spec fn moves(self, schedule: Seq<(Turn, nat)>) -> nat
        decreases schedule.len(),
    {
        if schedule.len() == 0 {
            0
        } else {
            let before: Round = self.run(schedule.drop_last());
            match before.turn(schedule.last().0, schedule.last().1) {
                Some(after) => self.moves(schedule.drop_last()) + 1,
                None => self.moves(schedule.drop_last()),
            }
        }
    }

    /// Whether neither end can move: both are through, or wait for a bus on
    /// which nothing will come.
    pub open spec fn at_rest(self) -> bool {
        forall|turn: Turn, now: nat| #[trigger] self.turn(turn, now) is None
    }
}

/// How the tester stands.
enum Mode {
    Wait,
    Send,
    Pause,
    Over,
}

/// How the ECU stands.
enum Ear {
    Listen,
    Answer,
    Over,
}

/// Where a round stands: `sent` consecutive frames are out and `taken` of them
/// are in; `room` is what the tester may still send of its block.
enum Place {
    /// Nothing is out.
    Fresh,
    /// The opening frame is on its way.
    Opened,
    /// A single frame is in.
    Short,
    /// A first frame is in.
    Body { sent: nat, taken: nat, room: Option<u8>, mode: Mode, ear: Ear },
}

/// The data of one round that never change.
struct Terms {
    id: u32,
    timeout: nat,
    payload: Seq<u8>,
    end: CollectorView,
}

impl Terms {
    spec fn out(self, sent: nat) -> OutgoingView {
        OutgoingView { id: self.id, payload: self.payload, timeout: self.timeout, sent }
    }

    spec fn reached(self, sent: nat) -> nat {
        if self.out(sent).more() {
            self.out(sent).next()
        } else {
            self.payload.len()
        }
    }

    spec fn partial(self, taken: nat, room: Option<u8>) -> PartialView {
        PartialView {
            length: self.payload.len(),
            bytes: self.payload.take(self.reached(taken) as int),
            expected: ((taken + 1) % 16) as u8,
            room,
        }
    }

    spec fn block(self) -> u8 {
        self.end.pacing.block_size
    }

    spec fn gap(self) -> u8 {
        self.end.pacing.separation
    }

    spec fn tester_stands(
        self,
        tester: Result<DeliverStepView, IsoTpError>,
        sent: nat,
        room: Option<u8>,
        mode: Mode,
    ) -> bool {
        let out: OutgoingView = self.out(sent);
        match mode {
            Mode::Wait => (tester matches Ok(DeliverStepView::Receive { waiting }) && waiting.out
                == out) && out.more(),
            Mode::Send => tester == Ok::<DeliverStepView, IsoTpError>(
                out.advance(room, self.gap()),
            ) && out.more() && room != Some(0u8),
            Mode::Pause => tester == Ok::<DeliverStepView, IsoTpError>(
                DeliverStepView::Pause {
                    millis: self.gap(),
                    then: DeliveryView::Paused { out, room, separation: self.gap() },
                },
            ) && (out.more() ==> room != Some(0u8)),
            Mode::Over => tester == Ok::<DeliverStepView, IsoTpError>(DeliverStepView::Done)
                && !out.more(),
        }
    }

    spec fn ecu_stands(
        self,
        ecu: Result<CollectStepView, IsoTpError>,
        taken: nat,
        room: Option<u8>,
        ear: Ear,
    ) -> bool {
        let partial: PartialView = self.partial(taken, room);
        match ear {
            Ear::Listen => (ecu matches Ok(CollectStepView::Receive { listening }) && listening.end
                == self.end && listening.partial == Some(partial)) && self.out(taken).more(),
            Ear::Answer => ecu == Ok::<CollectStepView, IsoTpError>(self.end.answer(partial))
                && self.out(taken).more(),
            Ear::Over => self.arrived(ecu) && !self.out(taken).more(),
        }
    }

    spec fn arrived(self, ecu: Result<CollectStepView, IsoTpError>) -> bool {
        ecu == Ok::<CollectStepView, IsoTpError>(
            CollectStepView::Done {
                arrived: ArrivedView { origin_uri: self.end.origin, bytes: self.payload },
            },
        )
    }

    /// The room that the ECU counts when the tester counts `room` and `flying`
    /// frames are between them.
    spec fn seen(self, room: Option<u8>, flying: int) -> Option<u8> {
        match room {
            Some(left) => Some((left + flying) as u8),
            None => None,
        }
    }

    spec fn flying(self, to_ecu: Seq<FrameView>, sent: nat, taken: nat) -> bool {
        &&& taken <= sent
        &&& to_ecu.len() == sent - taken
        &&& forall|j: int|
            0 <= j < to_ecu.len() ==> (#[trigger] to_ecu[j]).data == consecutive_frame(
                (taken + j + 1) as nat,
                self.out((taken + j) as nat).chunk(),
            )
    }

    spec fn stands(self, round: Round, place: Place) -> bool {
        match place {
            Place::Fresh => {
                &&& round.tester == Ok::<DeliverStepView, IsoTpError>(self.out(0).open())
                &&& self.untouched(round)
                &&& round.to_ecu.len() == 0
                &&& round.to_tester.len() == 0
            },
            Place::Opened => {
                &&& if self.payload.len() <= SINGLE_MAX {
                    round.tester == Ok::<DeliverStepView, IsoTpError>(DeliverStepView::Done)
                } else {
                    self.tester_stands(round.tester, 0, None, Mode::Wait)
                }
                &&& self.untouched(round)
                &&& round.to_ecu.len() == 1
                &&& round.to_ecu[0].data == opening_frame(self.payload)
                &&& round.to_tester.len() == 0
            },
            Place::Short => {
                &&& self.payload.len() <= SINGLE_MAX
                &&& round.tester == Ok::<DeliverStepView, IsoTpError>(DeliverStepView::Done)
                &&& self.arrived(round.ecu)
                &&& round.to_ecu.len() == 0
                &&& round.to_tester.len() == 0
            },
            Place::Body { sent, taken, room, mode, ear } => {
                &&& self.payload.len() > SINGLE_MAX
                &&& sent > 0 ==> self.out((sent - 1) as nat).more()
                &&& self.flying(round.to_ecu, sent, taken)
                &&& self.tester_stands(round.tester, sent, room, mode)
                &&& match mode {
                    Mode::Wait => match ear {
                        Ear::Answer => {
                            &&& sent == taken
                            &&& round.to_tester.len() == 0
                            &&& self.ecu_stands(round.ecu, taken, granted(self.block()), ear)
                        },
                        Ear::Listen => if sent == taken {
                            &&& round.to_tester.len() == 1
                            &&& round.to_tester[0] == self.end.go_ahead()
                            &&& self.ecu_stands(round.ecu, taken, granted(self.block()), ear)
                        } else {
                            &&& round.to_tester.len() == 0
                            &&& self.block() != 0
                            &&& sent - taken <= 255
                            &&& self.ecu_stands(
                                round.ecu,
                                taken,
                                Some((sent - taken) as u8),
                                ear,
                            )
                        },
                        Ear::Over => false,
                    },
                    _ => {
                        &&& round.to_tester.len() == 0
                        &&& !(ear is Answer)
                        &&& room is None <==> self.block() == 0
                        &&& room matches Some(left) ==> left + (sent - taken) <= 255
                        &&& self.ecu_stands(
                            round.ecu,
                            taken,
                            self.seen(room, sent - taken),
                            ear,
                        )
                    },
                }
            },
        }
    }

    spec fn untouched(self, round: Round) -> bool {
        round.ecu matches Ok(CollectStepView::Receive { listening }) && listening.end == self.end
            && listening.partial is None
    }

    /// The moves that can still come, at most.
    spec fn work(self, place: Place) -> int {
        let frames: int = self.payload.len() as int;
        match place {
            Place::Fresh => 7 * frames + 9,
            Place::Opened => 7 * frames + 8,
            Place::Short => 0,
            Place::Body { sent, taken, room, mode, ear } => {
                let tester: int = match mode {
                    Mode::Wait => 2,
                    Mode::Pause => 1,
                    _ => 0,
                };
                let ecu: int = match ear {
                    Ear::Answer => 2,
                    _ => 0,
                };
                let token: int = if mode is Wait && ear is Listen && sent == taken {
                    1
                } else {
                    0
                };
                4 * (frames - sent) + 3 * (frames - taken) + tester + ecu + token
            },
        }
    }

    /// The mode that a step of [`OutgoingView::advance`] puts the tester in.
    spec fn advanced(self, sent: nat) -> Mode {
        if self.out(sent).more() {
            Mode::Send
        } else {
            Mode::Over
        }
    }

    /// The mode that a step of [`OutgoingView::rest`] puts the tester in.
    spec fn rested(self, sent: nat) -> Mode {
        if self.gap() != 0 {
            Mode::Pause
        } else {
            self.advanced(sent)
        }
    }

    /// A turn of the tester leads from one place to another, nearer the end.
    proof fn tester_moves(self, round: Round, place: Place, now: nat) -> (next: Place)
        requires
            self.payload.len() <= u32::MAX,
            self.stands(round, place),
            round.tester_turn(now) is Some,
        ensures
            self.stands(round.tester_turn(now)->0, next),
            self.work(next) < self.work(place),
    {
        let after: Round = round.tester_turn(now)->0;
        match place {
            Place::Fresh => {
                assert(after.to_ecu[0].data == opening_frame(self.payload));
                Place::Opened
            },
            Place::Body { sent, taken, room, mode, ear } => {
                match mode {
                    Mode::Wait => {
                        flow_frames_read_back(FlowStatus::Continue, self.block(), self.gap());
                        let fresh: Option<u8> = granted(self.block());
                        let next_mode: Mode = if sent == 0 {
                            self.advanced(sent)
                        } else {
                            self.rested(sent)
                        };
                        assert(self.seen(fresh, 0) == fresh);
                        let next: Place = Place::Body {
                            sent,
                            taken,
                            room: fresh,
                            mode: next_mode,
                            ear,
                        };
                        next
                    },
                    Mode::Send => {
                        let left: Option<u8> = one_taken(room);
                        let next_sent: nat = sent + 1;
                        assert(self.out(next_sent) == (OutgoingView {
                            sent: sent + 1,
                            ..self.out(sent)
                        }));
                        assert(after.to_ecu[after.to_ecu.len() - 1].data == consecutive_frame(
                            next_sent,
                            self.out(sent).chunk(),
                        ));
                        let next_mode: Mode = if left == Some(0u8) && self.out(next_sent).more() {
                            Mode::Wait
                        } else {
                            self.rested(next_sent)
                        };
                        let next: Place = Place::Body {
                            sent: next_sent,
                            taken,
                            room: left,
                            mode: next_mode,
                            ear,
                        };
                        assert(self.flying(after.to_ecu, next_sent, taken));
                        next
                    },
                    Mode::Pause => {
                        let next: Place = Place::Body {
                            sent,
                            taken,
                            room,
                            mode: self.advanced(sent),
                            ear,
                        };
                        next
                    },
                    Mode::Over => place,
                }
            },
            _ => place,
        }
    }

    /// The bytes in are those of the payload up to where the next frame begins.
    proof fn chunks_join(self, taken: nat, room: Option<u8>)
        requires
            self.out(taken).more(),
        ensures
            self.partial(taken, room).extended(self.out(taken).chunk()) == self.partial(
                taken + 1,
                one_taken(room),
            ),
            self.partial(taken + 1, one_taken(room)).whole() <==> !self.out(taken + 1).more(),
    {
        let longer: PartialView = self.partial(taken, room).extended(self.out(taken).chunk());
        assert(longer.bytes =~= self.partial(taken + 1, one_taken(room)).bytes);
    }

    /// A turn of the ECU leads from one place to another, nearer the end.
    proof fn ecu_moves(self, round: Round, place: Place, now: nat) -> (next: Place)
        requires
            self.payload.len() <= u32::MAX,
            self.stands(round, place),
            round.ecu_turn(now) is Some,
        ensures
            self.stands(round.ecu_turn(now)->0, next),
            self.work(next) < self.work(place),
    {
        let after: Round = round.ecu_turn(now)->0;
        match place {
            Place::Opened => {
                if self.payload.len() <= SINGLE_MAX {
                    single_frames_read_back(self.payload);
                    Place::Short
                } else {
                    let opening: Seq<u8> = self.payload.take(opening_length(self.payload) as int);
                    first_frames_read_back(self.payload.len(), opening);
                    assert(PartialView::begun(self.payload.len(), opening, self.block())
                        == self.partial(0, granted(self.block())));
                    let next: Place = Place::Body {
                        sent: 0,
                        taken: 0,
                        room: None,
                        mode: Mode::Wait,
                        ear: Ear::Answer,
                    };
                    next
                }
            },
            Place::Body { sent, taken, room, mode, ear } => {
                match ear {
                    Ear::Answer => {
                        assert(!self.partial(taken, granted(self.block())).whole());
                        assert(after.to_tester[0] == self.end.go_ahead());
                        let next: Place = Place::Body {
                            sent,
                            taken,
                            room,
                            mode,
                            ear: Ear::Listen,
                        };
                        next
                    },
                    Ear::Listen => {
                        let chunk: Seq<u8> = self.out(taken).chunk();
                        assert(round.to_ecu[0].data == consecutive_frame(taken + 1, chunk));
                        consecutive_frames_read_back(taken + 1, chunk);
                        let next_taken: nat = taken + 1;
                        assert forall|j: int| 0 <= j < after.to_ecu.len() implies (
                        #[trigger] after.to_ecu[j]).data == consecutive_frame(
                            (next_taken + j + 1) as nat,
                            self.out((next_taken + j) as nat).chunk(),
                        ) by {
                            assert(after.to_ecu[j] == round.to_ecu[j + 1]);
                        }
                        let counted: Option<u8> = if mode is Wait {
                            Some((sent - taken) as u8)
                        } else {
                            self.seen(room, sent - taken)
                        };
                        self.chunks_join(taken, counted);
                        let next_ear: Ear = if mode is Wait && next_taken == sent {
                            Ear::Answer
                        } else if self.out(next_taken).more() {
                            Ear::Listen
                        } else {
                            Ear::Over
                        };
                        if !self.out(next_taken).more() {
                            assert(self.payload.take(self.payload.len() as int) =~= self.payload);
                        }
                        let next: Place = Place::Body {
                            sent,
                            taken: next_taken,
                            room,
                            mode,
                            ear: next_ear,
                        };
                        next
                    },
                    Ear::Over => place,
                }
            },
            _ => place,
        }
    }

    /// No place is a failure, and in every place but the last an end can move.
    proof fn places_are_live(self, round: Round, place: Place)
        requires
            self.stands(round, place),
        ensures
            round.tester is Ok,
            round.ecu is Ok,
            round.ecu matches Ok(CollectStepView::Done { arrived }) ==> arrived == (ArrivedView {
                origin_uri: self.end.origin,
                bytes: self.payload,
            }),
            round.tester_turn(0) is None && round.ecu_turn(0) is None ==> {
                &&& round.tester == Ok::<DeliverStepView, IsoTpError>(DeliverStepView::Done)
                &&& self.arrived(round.ecu)
                &&& round.to_ecu.len() == 0
                &&& round.to_tester.len() == 0
            },
            self.work(place) >= 0,
    {
    }
}

/// On buses that keep their frames in order and lose none, between ends that
/// hear each other in time, every payload that the tester may send at all
/// arrives whole: in whatever order the ends take their turns, and whatever
/// pacing the ECU asks for, neither end ever fails, the ECU hands over nothing
/// but the payload, and the round comes to rest, with both ends through and
/// both buses empty, after a number of moves that the length of the payload
/// bounds.
pub proof fn every_round_returns_the_payload_whole<B>(
    tester: IsoTpTransportView<B>,
    ecu: IsoTpTransportView<B>,
    bus: Seq<char>,
    payload: Seq<u8>,
    now: nat,
    schedule: Seq<(Turn, nat)>,
)
    requires
        payload.len() <= tester.ceiling(),
    ensures
        ({
            let start: Round = Round::start(tester, ecu, bus, payload, now);
            let round: Round = start.run(schedule);
            let whole: ArrivedView = ArrivedView {
                origin_uri: origin_uri(bus, ecu.id),
                bytes: payload,
            };
            &&& round.tester is Ok
            &&& round.ecu is Ok
            &&& round.ecu matches Ok(CollectStepView::Done { arrived }) ==> arrived == whole
            &&& round.at_rest() ==> {
                &&& round.tester == Ok::<DeliverStepView, IsoTpError>(DeliverStepView::Done)
                &&& round.ecu == Ok::<CollectStepView, IsoTpError>(
                    CollectStepView::Done { arrived: whole },
                )
                &&& round.to_ecu.len() == 0
                &&& round.to_tester.len() == 0
            }
            &&& start.moves(schedule) <= 7 * payload.len() + 9
        }),
{
    let terms: Terms = Terms {
        id: tester.id,
        timeout: tester.timeout,
        payload,
        end: ecu.collector(bus),
    };
    let start: Round = Round::start(tester, ecu, bus, payload, now);
    let place: Place = reached_place(terms, start, schedule);
    let round: Round = start.run(schedule);
    terms.places_are_live(round, place);
    assert(round.turn(Turn::Tester, 0) == round.tester_turn(0));
    assert(round.turn(Turn::Ecu, 0) == round.ecu_turn(0));
}

proof fn reached_place(terms: Terms, start: Round, schedule: Seq<(Turn, nat)>) -> (place: Place)
    requires
        terms.payload.len() <= u32::MAX,
        terms.stands(start, Place::Fresh),
    ensures
        terms.stands(start.run(schedule), place),
        start.moves(schedule) + terms.work(place) <= terms.work(Place::Fresh),
    decreases schedule.len(),
{
    if schedule.len() == 0 {
        Place::Fresh
    } else {
        let before: Place = reached_place(terms, start, schedule.drop_last());
        let round: Round = start.run(schedule.drop_last());
        let now: nat = schedule.last().1;
        match round.turn(schedule.last().0, now) {
            Some(after) => match schedule.last().0 {
                Turn::Tester => terms.tester_moves(round, before, now),
                Turn::Ecu => terms.ecu_moves(round, before, now),
            },
            None => before,
        }
    }
}

} // verus!
