use iso_tp::error::IsoTpError;
use iso_tp::frame::{
    consecutive, first, flow, parse, single, FlowStatus, Pci, CLASSIC_CEILING, FIRST_DATA,
};

#[test]
fn a_single_frame_carries_a_short_payload_and_parses_back() {
    let frame = single(&[1, 2, 3]).expect("single");
    assert_eq!(frame, [0x03, 1, 2, 3]);
    assert_eq!(
        parse(&frame).expect("pci"),
        Pci::Single {
            data: vec![1, 2, 3]
        }
    );
    assert!(single(&[0; 8]).is_err(), "eight bytes is too many");
}

#[test]
fn a_first_frame_names_its_length_short_and_escaped() {
    let short = first(100, &[0xaa; FIRST_DATA], false).expect("first");
    assert_eq!(short[0], 0x10);
    assert_eq!(short[1], 100);
    assert_eq!(
        parse(&short).expect("pci"),
        Pci::First {
            length: 100,
            data: vec![0xaa; FIRST_DATA],
        }
    );
    let escaped = first(70_000, &[0xbb; FIRST_DATA], true).expect("escape");
    assert_eq!(&escaped[0..2], &[0x10, 0x00]);
    assert_eq!(
        parse(&escaped).expect("pci"),
        Pci::First {
            length: 70_000,
            data: vec![0xbb; FIRST_DATA],
        }
    );
    assert!(first(5, &[], false).is_err(), "fits a single frame");
    assert!(first(9000, &[], false).is_err(), "no escape allowed");
}

#[test]
fn consecutive_and_flow_frames_round_trip() {
    let cf = consecutive(0x13, &[9, 9]).expect("cf");
    assert_eq!(cf[0], 0x23, "the sequence wraps into four bits");
    assert_eq!(
        parse(&cf).expect("pci"),
        Pci::Consecutive {
            index: 3,
            data: vec![9, 9],
        }
    );
    let fc = flow(FlowStatus::Continue, 8, 20);
    assert_eq!(fc, [0x30, 8, 20]);
    assert_eq!(
        parse(&fc).expect("pci"),
        Pci::Flow {
            status: FlowStatus::Continue,
            block_size: 8,
            separation: 20,
        }
    );
}

#[test]
fn a_frame_of_an_unknown_type_is_refused() {
    assert!(parse(&[0x40]).is_err(), "type four does not exist");
    assert!(parse(&[]).is_err(), "an empty frame is nothing");
    assert!(parse(&[0x07, 1, 2]).is_err(), "a single frame that lies");
    assert!(FlowStatus::from_nibble(9).is_err(), "no such flow status");
}

#[test]
fn the_nibbles_of_the_statuses() {
    assert_eq!(FlowStatus::Continue.nibble(), 0);
    assert_eq!(FlowStatus::Wait.nibble(), 1);
    assert_eq!(FlowStatus::Overflow.nibble(), 2);
    assert_eq!(FlowStatus::from_nibble(0), Ok(FlowStatus::Continue));
    assert_eq!(FlowStatus::from_nibble(1), Ok(FlowStatus::Wait));
    assert_eq!(FlowStatus::from_nibble(2), Ok(FlowStatus::Overflow));
    assert_eq!(
        FlowStatus::from_nibble(9),
        Err(IsoTpError::UnknownFlowStatus(9))
    );
}

#[test]
fn the_length_of_a_first_frame_byte_by_byte() {
    assert_eq!(first(8, &[1], false), Ok(vec![0x10, 8, 1]));
    assert_eq!(first(CLASSIC_CEILING, &[], false), Ok(vec![0x1f, 0xff]));
    assert_eq!(first(0x123, &[7, 8], true), Ok(vec![0x11, 0x23, 7, 8]));
    assert_eq!(
        first(4096, &[5, 6], true),
        Ok(vec![0x10, 0x00, 0x00, 0x00, 0x10, 0x00, 5, 6])
    );
    assert_eq!(
        first(0x0102_0304, &[], true),
        Ok(vec![0x10, 0x00, 0x01, 0x02, 0x03, 0x04])
    );
    assert_eq!(
        first(usize::MAX, &[], true),
        Ok(vec![0x10, 0x00, 0xff, 0xff, 0xff, 0xff])
    );
}

#[test]
fn builders_say_why_they_refuse() {
    assert_eq!(single(&[0; 7]), Ok(vec![7, 0, 0, 0, 0, 0, 0, 0]));
    assert_eq!(single(&[]), Ok(vec![0]));
    assert_eq!(single(&[0; 8]), Err(IsoTpError::SingleTooLong));
    assert_eq!(first(7, &[], true), Err(IsoTpError::FitsSingle));
    assert_eq!(first(4096, &[], false), Err(IsoTpError::NeedsEscape));
    assert_eq!(consecutive(1, &[0; 8]), Err(IsoTpError::ConsecutiveTooLong));
    assert_eq!(
        consecutive(255, &[1, 2, 3, 4, 5, 6, 7]),
        Ok(vec![0x2f, 1, 2, 3, 4, 5, 6, 7])
    );
    assert_eq!(flow(FlowStatus::Wait, 1, 2), [0x31, 1, 2]);
    assert_eq!(flow(FlowStatus::Overflow, 0, 0), [0x32, 0, 0]);
}

#[test]
fn the_parser_says_what_is_wrong() {
    assert_eq!(parse(&[]), Err(IsoTpError::EmptyFrame));
    assert_eq!(parse(&[0x40]), Err(IsoTpError::UnknownType(4)));
    assert_eq!(parse(&[0xff, 1]), Err(IsoTpError::UnknownType(15)));
    assert_eq!(parse(&[0x07, 1, 2]), Err(IsoTpError::ShortSingle));
    assert_eq!(parse(&[0x10]), Err(IsoTpError::ShortEscape));
    assert_eq!(parse(&[0x12]), Err(IsoTpError::ShortFirst));
    assert_eq!(
        parse(&[0x10, 0x00, 0, 0, 1]),
        Err(IsoTpError::ShortEscape)
    );
    assert_eq!(parse(&[0x30]), Err(IsoTpError::NoBlockSize));
    assert_eq!(parse(&[0x30, 4]), Err(IsoTpError::NoSeparation));
    assert_eq!(parse(&[0x33, 4, 5]), Err(IsoTpError::UnknownFlowStatus(3)));
}

#[test]
fn padding_and_odd_lengths_are_read_as_they_stand() {
    assert_eq!(
        parse(&[0x02, 1, 2, 0xcc, 0xcc]),
        Ok(Pci::Single { data: vec![1, 2] })
    );
    assert_eq!(parse(&[0x00]), Ok(Pci::Single { data: vec![] }));
    assert_eq!(
        parse(&[0x10, 0x05, 9]),
        Ok(Pci::First {
            length: 5,
            data: vec![9]
        })
    );
    assert_eq!(
        parse(&[0x10, 0x00, 0, 0, 0, 3, 1, 2]),
        Ok(Pci::First {
            length: 3,
            data: vec![1, 2]
        })
    );
    assert_eq!(
        parse(&[0x2f]),
        Ok(Pci::Consecutive {
            index: 15,
            data: vec![]
        })
    );
    assert_eq!(
        parse(&[0x32, 4, 5, 6]),
        Ok(Pci::Flow {
            status: FlowStatus::Overflow,
            block_size: 4,
            separation: 5
        })
    );
}
