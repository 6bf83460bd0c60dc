use iso_tp::numeral::write_numeral;
use iso_tp::IsoTpError;

fn told(error: IsoTpError) -> String {
    error.message()
}

#[test]
fn every_error_has_its_words() {
    assert_eq!(told(IsoTpError::UnknownFlowStatus(9)), "a flow status of 9");
    assert_eq!(
        told(IsoTpError::SingleTooLong),
        "a single frame carries at most seven bytes"
    );
    assert_eq!(
        told(IsoTpError::FitsSingle),
        "a payload that fits a single frame"
    );
    assert_eq!(
        told(IsoTpError::NeedsEscape),
        "a payload over 4095 bytes without the length escape"
    );
    assert_eq!(
        told(IsoTpError::ConsecutiveTooLong),
        "a consecutive frame carries at most seven bytes"
    );
    assert_eq!(
        told(IsoTpError::EmptyFrame),
        "an empty CAN frame is no ISO-TP frame"
    );
    assert_eq!(told(IsoTpError::UnknownType(15)), "a PCI type of 15");
    assert_eq!(
        told(IsoTpError::ShortSingle),
        "a single frame shorter than its length"
    );
    assert_eq!(
        told(IsoTpError::ShortFirst),
        "a first frame too short for its length"
    );
    assert_eq!(
        told(IsoTpError::ShortEscape),
        "a first frame that promises an escape but is short"
    );
    assert_eq!(
        told(IsoTpError::NoBlockSize),
        "a flow-control frame with no block size"
    );
    assert_eq!(
        told(IsoTpError::NoSeparation),
        "a flow-control frame with no separation time"
    );
    assert_eq!(
        told(IsoTpError::OverCeiling {
            length: 5000,
            ceiling: 4095
        }),
        "5000 bytes is over the ISO-TP ceiling of 4095"
    );
    assert_eq!(
        told(IsoTpError::NotAnOpening),
        "a session that did not open with data"
    );
    assert_eq!(told(IsoTpError::ReceiverOverflowed), "the receiver overflowed");
    assert_eq!(
        told(IsoTpError::NoClearance),
        "no flow control before the deadline"
    );
    assert_eq!(
        told(IsoTpError::NotConsecutive),
        "a consecutive frame was expected"
    );
    assert_eq!(
        told(IsoTpError::OutOfSequence),
        "a consecutive frame out of sequence"
    );
    assert_eq!(
        told(IsoTpError::NotFlowControl),
        "a frame that was not flow control"
    );
    assert_eq!(
        told(IsoTpError::NoFrame),
        "no ISO-TP frame before the deadline"
    );
    assert_eq!(
        told(IsoTpError::UnknownSession {
            address: "isotp://loopback/7".to_string()
        }),
        "isotp://loopback/7 is not a session stood up here"
    );
}

#[test]
fn numerals_in_both_bases() {
    assert_eq!(write_numeral(0, 10), "0");
    assert_eq!(write_numeral(10, 10), "10");
    assert_eq!(write_numeral(u64::MAX, 10), "18446744073709551615");
    assert_eq!(write_numeral(0, 16), "0");
    assert_eq!(write_numeral(0x7e8, 16), "7e8");
    assert_eq!(write_numeral(0xdead_beef, 16), "deadbeef");
    for n in 0..2000u64 {
        assert_eq!(write_numeral(n, 10), format!("{n}"));
        assert_eq!(write_numeral(n, 16), format!("{n:x}"));
    }
}
