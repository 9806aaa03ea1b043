//! Tests of the error wire codec: every kind round-trips with its
//! parameters, and malformed frames are rejected.

use data_node::codec::decode_error;
use data_node::codec::encode_error;
use data_node::error::ConvertError;
use data_node::error::DataNodeError;

fn round_trip(e: DataNodeError) -> DataNodeError {
    decode_error(&encode_error(&e)).expect("an encoded error must decode")
}

#[test]
fn create_block_error_round_trips() {
    match round_trip(DataNodeError::CreateBlockError("boom: no inode".to_string())) {
        DataNodeError::CreateBlockError(s) => assert_eq!(s, "boom: no inode"),
        other => panic!("wrong kind: {:?}", other),
    }
}

#[test]
fn block_not_found_round_trips() {
    match round_trip(DataNodeError::BlockNotFound("17".to_string())) {
        DataNodeError::BlockNotFound(s) => assert_eq!(s, "17"),
        other => panic!("wrong kind: {:?}", other),
    }
}

#[test]
fn wrong_uuid_round_trips_raw_bytes() {
    match round_trip(DataNodeError::WrongUuid(vec![0, 1, 2, 254, 255])) {
        DataNodeError::WrongUuid(raw) => assert_eq!(raw, vec![0, 1, 2, 254, 255]),
        other => panic!("wrong kind: {:?}", other),
    }
}

#[test]
fn read_update_delete_errors_round_trip() {
    match round_trip(DataNodeError::ReadBlockError("r".to_string())) {
        DataNodeError::ReadBlockError(s) => assert_eq!(s, "r"),
        other => panic!("wrong kind: {:?}", other),
    }
    match round_trip(DataNodeError::UpdateBlockError("üñïçødé".to_string())) {
        DataNodeError::UpdateBlockError(s) => assert_eq!(s, "üñïçødé"),
        other => panic!("wrong kind: {:?}", other),
    }
    match round_trip(DataNodeError::DeleteBlockError(String::new())) {
        DataNodeError::DeleteBlockError(s) => assert_eq!(s, ""),
        other => panic!("wrong kind: {:?}", other),
    }
}

#[test]
fn no_space_round_trips() {
    match round_trip(DataNodeError::NoSpace) {
        DataNodeError::NoSpace => {}
        other => panic!("wrong kind: {:?}", other),
    }
}

#[test]
fn block_overflow_round_trips_both_sizes() {
    match round_trip(DataNodeError::BlockOverflow(32, 4097)) {
        DataNodeError::BlockOverflow(block_size, got) => {
            assert_eq!(block_size, 32);
            assert_eq!(got, 4097);
        }
        other => panic!("wrong kind: {:?}", other),
    }
}

#[test]
fn malformed_frames_are_rejected() {
    // Empty frame.
    assert!(matches!(decode_error(&[]), Err(ConvertError::StatusToType(_))));
    // Unknown tag.
    assert!(matches!(decode_error(&[9]), Err(ConvertError::StatusToType(_))));
    // Ragged character payload.
    assert!(matches!(decode_error(&[1, 0, 0, 0]), Err(ConvertError::StatusToType(_))));
    // A surrogate is no scalar value.
    assert!(matches!(decode_error(&[2, 0x00, 0xD8, 0, 0]), Err(ConvertError::StatusToType(_))));
    // Trailing payload after a bare kind.
    assert!(matches!(decode_error(&[7, 1]), Err(ConvertError::StatusToType(_))));
    // A truncated overflow frame.
    assert!(matches!(decode_error(&[8, 1, 2, 3]), Err(ConvertError::StatusToType(_))));
}

#[test]
fn messages_render_kind_and_parameters() {
    assert_eq!(DataNodeError::NoSpace.message(), "No space");
    assert_eq!(
        DataNodeError::BlockOverflow(32, 64).message(),
        "Trying to write 64 bytes in block of 32 bytes size"
    );
    assert_eq!(
        DataNodeError::BlockNotFound("17".to_string()).message(),
        "Block 17 was not found"
    );
    assert_eq!(
        DataNodeError::CreateBlockError("disk gone".to_string()).message(),
        "Fail to create block disk gone"
    );
    assert_eq!(
        DataNodeError::WrongUuid(vec![1, 2, 3]).message(),
        "Got wrong uuid format of 3 bytes"
    );
    assert_eq!(
        ConvertError::StatusToType("odd".to_string()).message(),
        "odd"
    );
}
