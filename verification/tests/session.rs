use std::collections::VecDeque;

use iso_tp::bus::{read_flow, read_frame, read_pci, Flow, Frame};
use iso_tp::collect::{Answering, Listening};
use iso_tp::deliver::{Clearance, Delivery};
use iso_tp::frame::{consecutive, first, flow, single, FlowStatus, Pci, CLASSIC_CEILING};
use iso_tp::{
    Arrived, CollectStep, DeliverStep, IsoTpError, IsoTpTransport, Pacing, Session,
    SessionNumbers, Standing, ECU_ID, TESTER_ID,
};

const TIMEOUT: u128 = 5_000_000_000;

/// Two buses by number, and what was done on them.
struct Wire {
    buses: Vec<VecDeque<Vec<u8>>>,
    frames: Vec<Frame>,
    pauses: Vec<u8>,
    clock: u128,
}

fn wire() -> Wire {
    Wire {
        buses: vec![VecDeque::new(), VecDeque::new()],
        frames: vec![],
        pauses: vec![],
        clock: 0,
    }
}

fn put(wire: &mut Wire, bus: usize, frame: Frame) {
    assert!(frame.data.len() <= 8, "a CAN frame carries eight bytes");
    wire.buses[bus].push_back(frame.data.clone());
    wire.frames.push(frame);
}

/// Carry a delivery on until it is through or waits for a silent bus.
fn send_on(
    wire: &mut Wire,
    end: &IsoTpTransport<usize>,
    from: DeliverStep,
) -> Result<DeliverStep, IsoTpError> {
    let mut step = from;
    loop {
        step = match step {
            DeliverStep::Transmit { frame, then } => {
                put(wire, *end.outbound(), frame);
                then.proceed(wire.clock)
            }
            DeliverStep::Pause { millis, then } => {
                wire.pauses.push(millis);
                wire.clock += u128::from(millis) * 1_000_000;
                then.proceed(wire.clock)
            }
            DeliverStep::Receive { waiting } => match wire.buses[*end.inbound()].pop_front() {
                Some(bytes) => waiting.heard(Some(bytes), wire.clock)?,
                None => return Ok(DeliverStep::Receive { waiting }),
            },
            DeliverStep::Done => return Ok(DeliverStep::Done),
        };
    }
}

/// Carry a collection on until it is through or waits for a silent bus.
fn take_on(
    wire: &mut Wire,
    end: &IsoTpTransport<usize>,
    from: CollectStep,
) -> Result<CollectStep, IsoTpError> {
    let mut step = from;
    loop {
        step = match step {
            CollectStep::Transmit { frame, then } => {
                put(wire, *end.outbound(), frame);
                then.proceed(wire.clock)
            }
            CollectStep::Receive { listening } => match wire.buses[*end.inbound()].pop_front() {
                Some(bytes) => listening.heard(Some(bytes), wire.clock)?,
                None => return Ok(CollectStep::Receive { listening }),
            },
            CollectStep::Done { arrived } => return Ok(CollectStep::Done { arrived }),
        };
    }
}

/// Both ends in turn until the message is in.
fn exchange(
    wire: &mut Wire,
    tester: &IsoTpTransport<usize>,
    ecu: &IsoTpTransport<usize>,
    opening: DeliverStep,
) -> Result<Arrived, IsoTpError> {
    let mut sending = opening;
    let mut taking = ecu.collect("loopback", wire.clock);
    loop {
        sending = send_on(wire, tester, sending)?;
        taking = take_on(wire, ecu, taking)?;
        if let CollectStep::Done { arrived } = taking {
            sending = send_on(wire, tester, sending)?;
            assert!(matches!(sending, DeliverStep::Done), "the sender is through");
            return Ok(arrived);
        }
    }
}

/// One round of a loopback: a session stood up, a message through it, the
/// session taken.
fn round(
    wire: &mut Wire,
    loopback: &IsoTpTransport<usize>,
    standing: &mut Standing<usize>,
    numbers: &mut SessionNumbers,
    payload: &[u8],
) -> Result<Arrived, IsoTpError> {
    let ecu = loopback.far_end(standing, Session::fresh(0, 1), numbers);
    let address = ecu.address().to_string();
    let outcome = match loopback.send_to(standing, &address, payload) {
        Ok((tester, opening)) => exchange(wire, &tester, ecu.end(), opening),
        Err(refusal) => {
            let (tester, frame) = loopback
                .unblock(standing, &address)
                .expect("the session stands");
            put(wire, *tester.outbound(), frame);
            let judged = take_on(wire, ecu.end(), ecu.end().collect("loopback", wire.clock));
            assert!(matches!(judged, Err(IsoTpError::NotAnOpening)));
            Err(refusal)
        }
    };
    ecu.take_one(standing, outcome)
}

fn round_trip(payload: &[u8], pacing: Pacing) -> Vec<u8> {
    let loopback = IsoTpTransport::loopback(0, TIMEOUT).paced(pacing);
    round(
        &mut wire(),
        &loopback,
        &mut Standing::new(),
        &mut SessionNumbers::new(),
        payload,
    )
    .expect("the round")
    .bytes
}

fn patterned(length: usize) -> Vec<u8> {
    (0..length).map(|n| (n * 7 % 253) as u8).collect()
}

#[test]
fn the_loopback_returns_the_edge_payloads_whole_and_refuses_over_the_brim() {
    let loopback = IsoTpTransport::loopback(0, TIMEOUT);
    let mut standing = Standing::new();
    let mut numbers = SessionNumbers::new();
    let mut wire = wire();
    let edges = vec![
        ("empty", vec![]),
        ("one byte", vec![0]),
        ("every byte", (0..=255).collect()),
        ("a full single frame", patterned(7)),
        ("one over a single frame", patterned(8)),
        ("a first frame and one chunk", patterned(13)),
        ("one byte over that", patterned(14)),
        ("the brim", patterned(CLASSIC_CEILING)),
    ];
    for (name, bytes) in edges {
        let arrived = round(&mut wire, &loopback, &mut standing, &mut numbers, &bytes)
            .unwrap_or_else(|error| panic!("{name}: {}", error.message()));
        assert_eq!(arrived.bytes, bytes, "{name}");
        assert_eq!(arrived.origin_uri, "isotp://loopback/0x7e8", "{name}");
    }
    assert_eq!(loopback.ceiling(), CLASSIC_CEILING);
    let started = wire.clock;
    let error = round(
        &mut wire,
        &loopback,
        &mut standing,
        &mut numbers,
        &patterned(CLASSIC_CEILING + 1),
    )
    .expect_err("one over the brim");
    assert_eq!(
        error,
        IsoTpError::OverCeiling {
            length: CLASSIC_CEILING + 1,
            ceiling: CLASSIC_CEILING
        }
    );
    assert_eq!(
        wire.clock, started,
        "a refused send is judged, never waited on"
    );
    assert!(standing.is_empty(), "a taken session is forgotten");
}

#[test]
fn a_short_payload_rides_one_single_frame() {
    assert_eq!(round_trip(b"hello", Pacing::default()), b"hello");
    assert_eq!(round_trip(&[], Pacing::default()), b"");
}

#[test]
fn a_long_payload_segments_and_reassembles_whole() {
    let payload: Vec<u8> = (0..3000)
        .map(|n| u8::try_from(n % 256).unwrap_or(0))
        .collect();
    assert_eq!(round_trip(&payload, Pacing::default()), payload);
}

#[test]
fn block_size_and_separation_pace_the_transfer_the_same() {
    let payload: Vec<u8> = (0..1000)
        .map(|n| u8::try_from(n % 251).unwrap_or(0))
        .collect();
    let pacing = Pacing {
        block_size: 4,
        separation: 1,
        escape: false,
    };
    assert_eq!(round_trip(&payload, pacing), payload);
}

#[test]
fn the_escape_carries_beyond_the_classic_ceiling() {
    let pacing = Pacing {
        block_size: 0,
        separation: 0,
        escape: true,
    };
    let payload: Vec<u8> = (0..5000)
        .map(|n| u8::try_from(n % 256).unwrap_or(0))
        .collect();
    assert_eq!(round_trip(&payload, pacing), payload);
}

#[test]
fn a_payload_over_the_ceiling_is_refused_without_the_escape() {
    let tester = IsoTpTransport::new(0usize, 1usize, TESTER_ID);
    assert_eq!(tester.ceiling(), CLASSIC_CEILING);
    assert!(tester.deliver(&vec![0u8; 5000]).is_err());
    assert_eq!(tester.name(), "iso-tp");
}

#[test]
fn the_ceiling_with_and_without_the_escape() {
    let plain = IsoTpTransport::new((), (), TESTER_ID);
    assert_eq!(plain.ceiling(), 4095);
    let far = plain.paced(Pacing {
        block_size: 0,
        separation: 0,
        escape: true,
    });
    assert_eq!(far.ceiling(), 4_294_967_295);
    assert!(far.deliver(&[0u8; 5000]).is_ok());
    assert_eq!(far.timeout(), 1_000_000_000);
    assert_eq!(far.timing_out_after(7).timeout(), 7);
}

#[test]
fn a_default_pacing_asks_for_nothing() {
    assert_eq!(
        Pacing::default(),
        Pacing {
            block_size: 0,
            separation: 0,
            escape: false
        }
    );
    assert_eq!(
        IsoTpTransport::new((), (), 1).pacing(),
        Pacing::default()
    );
}

#[test]
fn the_receiver_paces_a_sender_that_was_paced_otherwise() {
    let payload = patterned(100);
    let tester = IsoTpTransport::new(0usize, 1usize, TESTER_ID).paced(Pacing {
        block_size: 9,
        separation: 77,
        escape: false,
    });
    let ecu = IsoTpTransport::new(1usize, 0usize, ECU_ID).paced(Pacing {
        block_size: 5,
        separation: 3,
        escape: false,
    });
    let mut wire = wire();
    let opening = tester.deliver(&payload).expect("under the ceiling");
    let arrived = exchange(&mut wire, &tester, &ecu, opening).expect("the round");
    assert_eq!(arrived.bytes, payload);
    // 94 bytes after the opening six: fourteen consecutive frames, in blocks
    // of five, five and four, each block behind a flow control.
    let kinds: Vec<u8> = wire.frames.iter().map(|f| f.data[0]).collect();
    assert_eq!(
        kinds,
        [
            0x10, 0x30, 0x21, 0x22, 0x23, 0x24, 0x25, 0x30, 0x26, 0x27, 0x28, 0x29, 0x2a, 0x30,
            0x2b, 0x2c, 0x2d, 0x2e
        ]
    );
    assert_eq!(wire.frames[1].data, [0x30, 5, 3]);
    assert_eq!(wire.frames[1].id, ECU_ID);
    assert_eq!(wire.frames[2].id, TESTER_ID);
    assert_eq!(wire.pauses, vec![3; 14]);
    assert_eq!(wire.frames[17].data, [&[0x2e], &payload[97..]].concat());
}

#[test]
fn a_long_transfer_wraps_its_sequence_numbers() {
    let payload = patterned(6 + 7 * 40);
    let mut wire = wire();
    let loopback = IsoTpTransport::loopback(0, TIMEOUT);
    let arrived = round(
        &mut wire,
        &loopback,
        &mut Standing::new(),
        &mut SessionNumbers::new(),
        &payload,
    )
    .expect("round");
    assert_eq!(arrived.bytes, payload);
    assert_eq!(wire.frames[2 + 14].data[0], 0x2f);
    assert_eq!(wire.frames[2 + 15].data[0], 0x20);
    assert_eq!(wire.frames[2 + 16].data[0], 0x21);
}

#[test]
fn frames_go_under_the_format_their_identifier_asks_for() {
    assert_eq!(
        Frame::under(0x7ff, vec![1]),
        Frame {
            id: 0x7ff,
            extended: false,
            data: vec![1]
        }
    );
    assert_eq!(
        Frame::under(0x800, vec![]),
        Frame {
            id: 0x800,
            extended: true,
            data: vec![]
        }
    );
    let end = IsoTpTransport::new((), (), 0x18da_f110);
    match end.deliver(b"hi") {
        Ok(DeliverStep::Transmit { frame, .. }) => assert_eq!(
            frame,
            Frame {
                id: 0x18da_f110,
                extended: true,
                data: vec![2, b'h', b'i']
            }
        ),
        _ => panic!("a delivery opens with a frame"),
    }
}

/// A sender of `payload` whose first frame is out, at clock zero.
fn cleared_for(payload: &[u8]) -> Clearance {
    let end = IsoTpTransport::new((), (), TESTER_ID).timing_out_after(100);
    match opened(&end, payload).proceed(0) {
        DeliverStep::Receive { waiting } => waiting,
        _ => panic!("a first frame waits for flow control"),
    }
}

fn opened(end: &IsoTpTransport<()>, payload: &[u8]) -> Delivery {
    match end.deliver(payload) {
        Ok(DeliverStep::Transmit { then, .. }) => then,
        _ => panic!("a delivery opens with a frame"),
    }
}

fn refused(step: Result<DeliverStep, IsoTpError>) -> IsoTpError {
    match step {
        Err(error) => error,
        Ok(_) => panic!("the step went through"),
    }
}

#[test]
fn a_sender_is_refused_what_is_not_clearance() {
    let payload = patterned(20);
    let overflow = flow(FlowStatus::Overflow, 0, 0);
    assert_eq!(
        refused(cleared_for(&payload).heard(Some(overflow), 1)),
        IsoTpError::ReceiverOverflowed
    );
    assert_eq!(
        refused(cleared_for(&payload).heard(Some(vec![0x01, 5]), 1)),
        IsoTpError::NotFlowControl
    );
    assert_eq!(
        refused(cleared_for(&payload).heard(Some(vec![]), 1)),
        IsoTpError::EmptyFrame
    );
    assert_eq!(
        refused(cleared_for(&payload).heard(Some(vec![0x35, 0, 0]), 1)),
        IsoTpError::UnknownFlowStatus(5)
    );
}

#[test]
fn a_silent_peer_is_waited_for_until_the_deadline() {
    let waiting = match cleared_for(&patterned(20)).heard(None, 99) {
        Ok(DeliverStep::Receive { waiting }) => waiting,
        _ => panic!("silence before the deadline"),
    };
    assert_eq!(refused(waiting.heard(None, 100)), IsoTpError::NoFrame);
}

#[test]
fn waits_do_not_move_the_deadline() {
    let wait = flow(FlowStatus::Wait, 0, 0);
    let waiting = match cleared_for(&patterned(20)).heard(Some(wait.clone()), 60) {
        Ok(DeliverStep::Receive { waiting }) => waiting,
        _ => panic!("held before the deadline"),
    };
    // The wait for a frame began anew at 60, the wait for clearance did not.
    let waiting = match waiting.heard(None, 120) {
        Ok(DeliverStep::Receive { waiting }) => waiting,
        _ => panic!("silence for less than the timeout"),
    };
    assert_eq!(
        refused(waiting.heard(Some(wait), 121)),
        IsoTpError::NoClearance
    );
    let late = match cleared_for(&patterned(20)).heard(
        Some(flow(FlowStatus::Continue, 0, 0)),
        1_000_000,
    ) {
        Ok(DeliverStep::Transmit { frame, .. }) => frame,
        _ => panic!("clearance counts whenever it comes"),
    };
    assert_eq!(late.data[0], 0x21);
}

/// A receiver that waits for an opening, at clock zero.
fn listener(pacing: Pacing) -> Listening {
    let end = IsoTpTransport::new((), (), ECU_ID)
        .paced(pacing)
        .timing_out_after(100);
    match end.collect("can0", 0) {
        CollectStep::Receive { listening } => listening,
        _ => panic!("a receiver listens first"),
    }
}

/// A receiver of a message of `length` bytes whose first six are in.
fn inside(length: usize, pacing: Pacing) -> Listening {
    let bytes = first(length, &[1, 2, 3, 4, 5, 6], false).expect("first");
    let answering: Answering = match listener(pacing).heard(Some(bytes), 1) {
        Ok(CollectStep::Transmit { then, .. }) => then,
        _ => panic!("a first frame is answered"),
    };
    match answering.proceed(2) {
        CollectStep::Receive { listening } => listening,
        _ => panic!("more is due"),
    }
}

fn stopped(step: Result<CollectStep, IsoTpError>) -> IsoTpError {
    match step {
        Err(error) => error,
        Ok(_) => panic!("the step went through"),
    }
}

#[test]
fn a_session_opens_with_data_or_not_at_all() {
    let go = flow(FlowStatus::Continue, 0, 0);
    assert_eq!(
        stopped(listener(Pacing::default()).heard(Some(go), 0)),
        IsoTpError::NotAnOpening
    );
    let stray = consecutive(1, &[1]).expect("consecutive");
    assert_eq!(
        stopped(listener(Pacing::default()).heard(Some(stray), 0)),
        IsoTpError::NotAnOpening
    );
    assert_eq!(
        stopped(listener(Pacing::default()).heard(Some(vec![0x50]), 0)),
        IsoTpError::UnknownType(5)
    );
}

#[test]
fn a_sequence_out_of_order_ends_the_session() {
    let late = consecutive(2, &[7]).expect("consecutive");
    assert_eq!(
        stopped(inside(20, Pacing::default()).heard(Some(late), 3)),
        IsoTpError::OutOfSequence
    );
    let opening = single(&[1]).expect("single");
    assert_eq!(
        stopped(inside(20, Pacing::default()).heard(Some(opening), 3)),
        IsoTpError::NotConsecutive
    );
}

#[test]
fn a_receiver_gives_up_on_a_silent_sender() {
    assert_eq!(
        stopped(listener(Pacing::default()).heard(None, 100)),
        IsoTpError::NoFrame
    );
    let listening = match inside(20, Pacing::default()).heard(None, 101) {
        Ok(CollectStep::Receive { listening }) => listening,
        _ => panic!("the wait began at two"),
    };
    assert_eq!(stopped(listening.heard(None, 102)), IsoTpError::NoFrame);
}

#[test]
fn padding_after_the_last_byte_is_dropped() {
    let last = consecutive(1, &[7, 8, 0xcc, 0xcc]).expect("consecutive");
    match inside(8, Pacing::default()).heard(Some(last), 3) {
        Ok(CollectStep::Done { arrived }) => {
            assert_eq!(arrived.bytes, [1, 2, 3, 4, 5, 6, 7, 8]);
            assert_eq!(arrived.origin_uri, "isotp://can0/0x7e8");
        }
        _ => panic!("the message is whole"),
    }
}

#[test]
fn a_first_frame_that_holds_it_all_is_answered_and_done() {
    match listener(Pacing::default()).heard(Some(vec![0x10, 2, 9, 8, 7]), 1) {
        Ok(CollectStep::Transmit { frame, then }) => {
            assert_eq!(frame.data, [0x30, 0, 0]);
            match then.proceed(1) {
                CollectStep::Done { arrived } => assert_eq!(arrived.bytes, [9, 8]),
                _ => panic!("nothing more is due"),
            }
        }
        _ => panic!("a first frame is answered"),
    }
}

#[test]
fn a_block_is_answered_only_while_more_is_due() {
    let pacing = Pacing {
        block_size: 1,
        separation: 9,
        escape: false,
    };
    let one = consecutive(1, &[7; 7]).expect("consecutive");
    let answering = match inside(20, pacing).heard(Some(one), 3) {
        Ok(CollectStep::Transmit { frame, then }) => {
            assert_eq!(frame.data, [0x30, 1, 9]);
            then
        }
        _ => panic!("a block is complete"),
    };
    let listening = match answering.proceed(4) {
        CollectStep::Receive { listening } => listening,
        _ => panic!("seven bytes are due"),
    };
    let two = consecutive(2, &[8; 7]).expect("consecutive");
    assert!(matches!(
        listening.heard(Some(two), 5),
        Ok(CollectStep::Done { .. })
    ));
}

#[test]
fn reads_of_the_bus_are_judged() {
    assert_eq!(read_frame(Some(vec![1]), 0, 0, 9), Ok(Some(vec![1])));
    assert_eq!(read_frame(None, 5, 10, 14), Ok(None));
    assert_eq!(read_frame(None, 5, 10, 15), Err(IsoTpError::NoFrame));
    assert_eq!(
        read_frame(None, u128::MAX, 10, u128::MAX),
        Ok(None),
        "a deadline past the end of the clock"
    );
    assert_eq!(
        read_pci(Some(vec![0x01, 4]), 0, 1, 0),
        Ok(Some(Pci::Single { data: vec![4] }))
    );
    assert_eq!(read_pci(Some(vec![0x90]), 0, 1, 0), Err(IsoTpError::UnknownType(9)));
    assert_eq!(
        read_flow(Some(vec![0x31, 2, 3]), 0, 1, 0),
        Ok(Some(Flow {
            status: FlowStatus::Wait,
            block_size: 2,
            separation: 3
        }))
    );
    assert_eq!(
        read_flow(Some(vec![0x01, 4]), 0, 1, 0),
        Err(IsoTpError::NotFlowControl)
    );
    assert_eq!(read_flow(None, 0, 1, 0), Ok(None));
}

#[test]
fn sessions_stand_by_address_until_they_are_taken() {
    let loopback = IsoTpTransport::loopback(0usize, TIMEOUT);
    let mut standing = Standing::new();
    let mut numbers = SessionNumbers::new();
    assert!(standing.is_empty());
    let one = loopback.far_end(&mut standing, Session::fresh(10, 11), &mut numbers);
    for _ in 2..12 {
        numbers.draw();
    }
    let two = loopback.far_end(&mut standing, Session::fresh(20, 21), &mut numbers);
    assert_eq!(one.address(), "isotp://loopback/1");
    assert_eq!(two.address(), "isotp://loopback/12");
    let tester = loopback
        .tester(&standing, "isotp://loopback/12")
        .expect("it stands");
    assert_eq!((*tester.outbound(), *tester.inbound()), (20, 21));
    assert_eq!((*two.end().outbound(), *two.end().inbound()), (21, 20));
    assert_eq!(tester.timeout(), TIMEOUT);
    assert_eq!(one.take_one(&mut standing, "taken"), "taken");
    assert!(!standing.is_empty());
    assert_eq!(
        loopback.tester(&standing, "isotp://loopback/1").err(),
        Some(IsoTpError::UnknownSession {
            address: "isotp://loopback/1".to_string()
        })
    );
    assert!(loopback.unblock(&standing, "isotp://loopback/1").is_none());
    assert!(matches!(
        loopback.send_to(&standing, "isotp://loopback/1", b"x"),
        Err(IsoTpError::UnknownSession { .. })
    ));
    assert!(loopback.tester(&standing, two.address()).is_ok());
    two.take_one(&mut standing, ());
    assert!(standing.is_empty());
}

#[test]
fn a_session_in_the_place_of_another() {
    let mut standing = Standing::new();
    standing.insert("a".to_string(), Session::fresh(1, 2));
    standing.insert("b".to_string(), Session::fresh(3, 4));
    standing.insert("a".to_string(), Session::fresh(5, 6));
    assert_eq!(standing.session("a").map(|s| s.to_ecu), Ok(5));
    assert_eq!(standing.session("b").map(|s| s.to_tester), Ok(4));
    standing.remove("a");
    assert!(standing.session("a").is_err());
    standing.remove("c");
    standing.remove("b");
    assert!(standing.is_empty());
}

#[test]
fn numbers_are_drawn_one_after_the_other() {
    let mut numbers = SessionNumbers::new();
    let loopback = IsoTpTransport::loopback(0usize, TIMEOUT);
    let mut standing = Standing::new();
    assert_eq!(numbers.draw(), 1);
    assert_eq!(numbers.draw(), 2);
    let a = loopback.far_end(&mut standing, Session::fresh(0, 1), &mut numbers);
    let b = loopback.far_end(&mut standing, Session::fresh(2, 3), &mut numbers);
    assert_eq!(a.address(), "isotp://loopback/3");
    assert_eq!(b.address(), "isotp://loopback/4");
    assert_eq!(numbers.draw(), 5);
}

#[test]
fn two_rounds_at_once_do_not_meet() {
    let loopback = IsoTpTransport::loopback(0usize, TIMEOUT).paced(Pacing {
        block_size: 2,
        separation: 0,
        escape: false,
    });
    let mut standing = Standing::new();
    let mut numbers = SessionNumbers::new();
    let mut wire = wire();
    wire.buses.push(VecDeque::new());
    wire.buses.push(VecDeque::new());
    let one = loopback.far_end(&mut standing, Session::fresh(0, 1), &mut numbers);
    let two = loopback.far_end(&mut standing, Session::fresh(2, 3), &mut numbers);
    let first_payload = patterned(50);
    let second_payload: Vec<u8> = patterned(61).into_iter().rev().collect();
    let (first_tester, mut first_step) = loopback
        .send_to(&standing, one.address(), &first_payload)
        .expect("it stands");
    let (second_tester, mut second_step) = loopback
        .send_to(&standing, two.address(), &second_payload)
        .expect("it stands");
    let mut first_taking = one.end().collect("loopback", 0);
    let mut second_taking = two.end().collect("loopback", 0);
    for _ in 0..12 {
        first_step = send_on(&mut wire, &first_tester, first_step).expect("no failure");
        second_step = send_on(&mut wire, &second_tester, second_step).expect("no failure");
        second_taking = take_on(&mut wire, two.end(), second_taking).expect("no failure");
        first_taking = take_on(&mut wire, one.end(), first_taking).expect("no failure");
    }
    match first_taking {
        CollectStep::Done { arrived } => assert_eq!(arrived.bytes, first_payload),
        _ => panic!("the first round is through"),
    }
    match second_taking {
        CollectStep::Done { arrived } => assert_eq!(arrived.bytes, second_payload),
        _ => panic!("the second round is through"),
    }
    assert!(matches!(first_step, DeliverStep::Done));
    assert!(matches!(second_step, DeliverStep::Done));
}

#[test]
fn flow_controls_are_counted_by_the_block() {
    // Consecutive frames, block size, flow controls.
    let counts = [(1, 0, 1), (9, 0, 1), (1, 3, 1), (3, 3, 1), (4, 3, 2), (6, 3, 2), (7, 3, 3)];
    for (frames, block_size, flows) in counts {
        let tester = IsoTpTransport::new(0usize, 1usize, TESTER_ID);
        let ecu = IsoTpTransport::new(1usize, 0usize, ECU_ID).paced(Pacing {
            block_size,
            separation: 0,
            escape: false,
        });
        let payload = patterned(6 + 7 * frames);
        let mut wire = wire();
        let opening = tester.deliver(&payload).expect("under the ceiling");
        let arrived = exchange(&mut wire, &tester, &ecu, opening).expect("the round");
        assert_eq!(arrived.bytes, payload);
        let answers = wire.frames.iter().filter(|f| f.id == ECU_ID).count();
        assert_eq!(answers, flows, "{frames} frames in blocks of {block_size}");
    }
}

/// What a sender put on the bus or waited for, from `step` on, with one of
/// `clearances` read at each wait: the frames, the gaps, and the clearances left.
fn cleared_by(step: DeliverStep, clearances: &[Vec<u8>]) -> (Vec<Vec<u8>>, Vec<u8>, usize) {
    let mut frames = Vec::new();
    let mut gaps = Vec::new();
    let mut read = 0;
    let mut now = 7;
    let mut step = step;
    loop {
        now += 1000;
        step = match step {
            DeliverStep::Transmit { frame, then } => {
                frames.push(frame.data);
                then.proceed(now)
            }
            DeliverStep::Pause { millis, then } => {
                gaps.push(millis);
                then.proceed(now)
            }
            DeliverStep::Receive { waiting } => {
                read += 1;
                waiting
                    .heard(Some(clearances[read - 1].clone()), now)
                    .expect("a clearance")
            }
            DeliverStep::Done => return (frames, gaps, clearances.len() - read),
        };
    }
}

#[test]
fn any_clearances_let_a_message_through_whole() {
    let payload = patterned(6 + 7 * 10);
    let end = IsoTpTransport::new((), (), TESTER_ID);
    let clearances = [
        flow(FlowStatus::Continue, 3, 5),
        flow(FlowStatus::Continue, 1, 0),
        flow(FlowStatus::Continue, 0, 2),
        flow(FlowStatus::Continue, 4, 0),
    ];
    let mut expected = vec![first(payload.len(), &payload[..6], false).expect("first")];
    for (i, chunk) in payload[6..].chunks(7).enumerate() {
        expected.push(consecutive(((i + 1) % 16) as u8, chunk).expect("consecutive"));
    }
    let (frames, gaps, unread) = cleared_by(end.deliver(&payload).expect("opened"), &clearances);
    assert_eq!(frames, expected);
    assert_eq!(unread, 1);
    assert_eq!(gaps, [5, 5, 2, 2, 2, 2, 2, 2, 2]);

    let (frames, gaps, unread) = cleared_by(end.deliver(b"short").expect("opened"), &clearances);
    assert_eq!(frames, [single(b"short").expect("single")]);
    assert_eq!((gaps.len(), unread), (0, 4), "a single frame takes no clearance");
}

#[test]
fn one_block_size_takes_so_many_clearances() {
    // Consecutive frames, block size, clearances read.
    let counts = [(1, 0, 1), (9, 0, 1), (1, 3, 1), (3, 3, 1), (4, 3, 2), (6, 3, 2), (7, 3, 3)];
    let end = IsoTpTransport::new((), (), TESTER_ID);
    for (frames, block_size, flows) in counts {
        let clearances = vec![flow(FlowStatus::Continue, block_size, 1); 5];
        let payload = patterned(6 + 7 * frames);
        let (sent, _, unread) = cleared_by(end.deliver(&payload).expect("opened"), &clearances);
        assert_eq!(sent.len(), 1 + frames);
        assert_eq!(5 - unread, flows, "{frames} frames in blocks of {block_size}");
    }
}

#[test]
fn the_wait_after_a_block_begins_when_its_last_frame_is_out() {
    let waiting = cleared_for(&patterned(40));
    let step = waiting.heard(Some(flow(FlowStatus::Continue, 2, 3)), 10);
    let step = match step {
        Ok(DeliverStep::Transmit { then, .. }) => then.proceed(200),
        _ => panic!("the first frame of the block"),
    };
    let step = match step {
        DeliverStep::Pause { millis, then } => {
            assert_eq!(millis, 3);
            then.proceed(400)
        }
        _ => panic!("the gap"),
    };
    let step = match step {
        DeliverStep::Transmit { then, .. } => then.proceed(600),
        _ => panic!("the second frame of the block"),
    };
    let waiting = match step {
        DeliverStep::Receive { waiting } => waiting,
        _ => panic!("the block is out"),
    };
    let waiting = match waiting.heard(None, 699) {
        Ok(DeliverStep::Receive { waiting }) => waiting,
        _ => panic!("before the deadline"),
    };
    assert_eq!(refused(waiting.heard(None, 700)), IsoTpError::NoFrame);
}

#[test]
fn a_message_is_the_same_whatever_the_clock_reads() {
    let pacing = Pacing {
        block_size: 2,
        separation: 0,
        escape: false,
    };
    let payload = patterned(40);
    for readings in [0u128, 5, 100_000] {
        let mut now = 0;
        let mut answers = 0;
        let mut heard = vec![first(40, &payload[..6], false).expect("first")];
        for (i, chunk) in payload[6..].chunks(7).enumerate() {
            heard.push(consecutive((i + 1) as u8, chunk).expect("consecutive"));
        }
        let mut frames = heard.into_iter();
        let mut step = CollectStep::Receive {
            listening: listener(pacing),
        };
        loop {
            now += readings;
            step = match step {
                CollectStep::Transmit { frame, then } => {
                    assert_eq!(frame.data, flow(FlowStatus::Continue, 2, 0));
                    answers += 1;
                    then.proceed(now)
                }
                CollectStep::Receive { listening } => {
                    listening.heard(frames.next(), now).expect("in sequence")
                }
                CollectStep::Done { arrived } => {
                    assert_eq!(arrived.bytes, payload);
                    break;
                }
            };
        }
        assert!(frames.next().is_none());
        assert_eq!(answers, 3, "five frames in blocks of two");
    }
}

#[test]
fn a_far_end_displaces_no_session() {
    let loopback = IsoTpTransport::loopback(0usize, TIMEOUT);
    let mut standing = Standing::new();
    let mut numbers = SessionNumbers::new();
    let one = loopback.far_end(&mut standing, Session::fresh(10, 11), &mut numbers);
    let two = loopback.far_end(&mut standing, Session::fresh(20, 21), &mut numbers);
    one.take_one(&mut standing, ());
    numbers.draw();
    assert!(standing.session("isotp://loopback/4").is_err());
    let four = loopback.far_end(&mut standing, Session::fresh(40, 41), &mut numbers);
    assert_eq!(four.address(), "isotp://loopback/4");
    assert_eq!(standing.session(two.address()).map(|s| s.to_ecu), Ok(20));
    assert_eq!(standing.session(four.address()).map(|s| s.to_ecu), Ok(40));
    assert!(standing.session("isotp://loopback/1").is_err());
}
