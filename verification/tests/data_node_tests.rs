//! Engine-level tests: block lifecycle, chunked reads, capacity, errors.

use data_node::block_id::block_id_bytes;
use data_node::block_storage_service::BlockStorageServiceImpl;
use data_node::config::Config;
use data_node::data_node::DataNode;
use data_node::data_node_info::DataNodeInfo;
use data_node::disk::DiskScan;
use data_node::error::DataNodeError;

fn test_config(block_size: u32, read_buffer: usize) -> Config {
    Config {
        main_server_address: "http://[::1]:8000".to_string(),
        self_address: "http://[::1]".to_string(),
        port: 40000,
        block_size,
        disk_usage: None,
        working_directory: "test_dir".to_string(),
        read_buffer,
    }
}

fn one_disk_scan(available_space: u64) -> Vec<DiskScan> {
    vec![DiskScan {
        mount: "/mnt/disk0".to_string(),
        available_space,
        readonly: false,
        existing_blocks: 0,
    }]
}

fn test_engine(block_size: u32, read_buffer: usize, available_space: u64) -> DataNode {
    let info = DataNodeInfo::new(test_config(block_size, read_buffer), one_disk_scan(available_space), None)
        .expect("fingerprint check cannot fail on a first run");
    DataNode::new(info)
}

#[test]
fn data_node_test_block_crud() {
    let message = b"Hello, Pavel";

    let mut data_node = test_engine(32, 8, 1 << 20);
    let buffer_size = data_node.get_data_node_info().read_buffer;

    let uuid = data_node.create_block().unwrap();

    data_node.update_block(uuid, message).unwrap();
    let (_disk, len) = data_node.get_block_info(uuid).unwrap();
    assert_eq!(len, message.len());

    let chunk_count = len / buffer_size;
    let last_chunk = len - chunk_count * buffer_size;

    let mut read_message: Vec<u8> = vec![];
    for i in 0..(chunk_count + 1) {
        let bytes = if i == chunk_count {
            if last_chunk == 0 {
                break;
            }
            (i * buffer_size, i * buffer_size + last_chunk)
        } else {
            (i * buffer_size, (i + 1) * buffer_size)
        };
        let read = data_node.read_block(uuid, bytes.0, bytes.1).unwrap();
        read_message.extend_from_slice(&read);
    }

    assert_eq!(message.as_slice(), read_message.as_slice());
    data_node.delete_block(uuid).unwrap();
}

#[test]
fn test_multi_read_access() {
    let message: Vec<u8> = std::iter::repeat(*b"Hello, Pavel ")
        .take(4096)
        .flatten()
        .collect::<Vec<_>>();
    assert_eq!(message.len(), 13 * 4096);

    let mut data_node = test_engine(65536, 1000, 1 << 30);
    let buffer_size = data_node.get_data_node_info().read_buffer;

    let uuid = data_node.create_block().unwrap();
    data_node.update_block(uuid, &message).unwrap();
    let (_disk, len) = data_node.get_block_info(uuid).unwrap();

    let chunk_count = len / buffer_size;
    let last_chunk = len - chunk_count * buffer_size;
    let mut results: Vec<Vec<u8>> = vec![];
    for _ in 0..100 {
        let mut read_message: Vec<u8> = vec![];
        for i in 0..(chunk_count + 1) {
            let bytes = if i == chunk_count {
                if last_chunk == 0 {
                    break;
                }
                (i * buffer_size, i * buffer_size + last_chunk)
            } else {
                (i * buffer_size, (i + 1) * buffer_size)
            };
            let read = data_node.read_block(uuid, bytes.0, bytes.1).unwrap();
            read_message.extend_from_slice(&read);
        }
        results.push(read_message);
    }
    for i in results {
        assert_eq!(message.as_slice(), i.as_slice());
    }

    data_node.delete_block(uuid).unwrap();
}

#[test]
fn create_reserves_capacity_first_fit() {
    let mut engine = test_engine(32, 8, 64);
    let info = engine.get_data_node_info();
    assert_eq!(info.total_space, 64);
    assert_eq!(info.disks.len(), 1);
    assert_eq!(info.disks[0].used_space, 0);

    let _first = engine.create_block().unwrap();
    assert_eq!(engine.get_data_node_info().disks[0].used_space, 32);
    let _second = engine.create_block().unwrap();
    assert_eq!(engine.get_data_node_info().disks[0].used_space, 64);

    match engine.create_block() {
        Err(DataNodeError::NoSpace) => {}
        other => panic!("expected NoSpace, got {:?}", other),
    }
    assert_eq!(engine.get_data_node_info().disks[0].used_space, 64);
}

#[test]
fn two_created_blocks_have_distinct_ids() {
    let mut engine = test_engine(32, 8, 1 << 20);
    let a = engine.create_block().unwrap();
    let b = engine.create_block().unwrap();
    assert_ne!(a, b);
}

#[test]
fn update_overflow_rejected_and_contents_kept() {
    let mut engine = test_engine(8, 4, 1 << 20);
    let id = engine.create_block().unwrap();
    engine.update_block(id, b"12345678").unwrap();

    match engine.update_block(id, b"123456789") {
        Err(DataNodeError::BlockOverflow(block_size, got)) => {
            assert_eq!(block_size, 8);
            assert_eq!(got, 9);
        }
        other => panic!("expected BlockOverflow, got {:?}", other),
    }

    let read = engine.read_block(id, 0, 8).unwrap();
    assert_eq!(read.as_slice(), b"12345678");
}

#[test]
fn payload_of_exactly_block_size_is_accepted() {
    let mut engine = test_engine(8, 4, 1 << 20);
    let id = engine.create_block().unwrap();
    engine.update_block(id, b"12345678").unwrap();
    assert_eq!(engine.read_block(id, 0, 8).unwrap().as_slice(), b"12345678");
}

#[test]
fn delete_then_read_is_block_not_found() {
    let mut engine = test_engine(32, 8, 1 << 20);
    let id = engine.create_block().unwrap();
    engine.update_block(id, b"payload").unwrap();
    engine.delete_block(id).unwrap();

    match engine.read_block(id, 0, 7) {
        Err(DataNodeError::BlockNotFound(_)) => {}
        other => panic!("expected BlockNotFound, got {:?}", other),
    }
    match engine.delete_block(id) {
        Err(DataNodeError::BlockNotFound(_)) => {}
        other => panic!("expected BlockNotFound, got {:?}", other),
    }
}

#[test]
fn delete_keeps_capacity_reserved() {
    let mut engine = test_engine(32, 8, 32);
    let id = engine.create_block().unwrap();
    engine.delete_block(id).unwrap();
    assert_eq!(engine.get_data_node_info().disks[0].used_space, 32);
    match engine.create_block() {
        Err(DataNodeError::NoSpace) => {}
        other => panic!("expected NoSpace, got {:?}", other),
    }
}

#[test]
fn read_out_of_range_is_read_block_error() {
    let mut engine = test_engine(32, 8, 1 << 20);
    let id = engine.create_block().unwrap();
    engine.update_block(id, b"abc").unwrap();
    match engine.read_block(id, 0, 4) {
        Err(DataNodeError::ReadBlockError(_)) => {}
        other => panic!("expected ReadBlockError, got {:?}", other),
    }
}

#[test]
fn service_round_trip_through_chunks() {
    let engine = test_engine(64, 8, 1 << 20);
    let mut service = BlockStorageServiceImpl::new(engine);

    let id = service.create_block().unwrap();
    let wire_id = block_id_bytes(id);

    let payload = b"Hello, Pavel";
    service.update_block(&wire_id, payload).unwrap();

    let chunks = service.read_block(&wire_id).unwrap();
    assert_eq!(chunks.len(), 2);
    assert_eq!(chunks[0].len(), 8);
    assert_eq!(chunks[1].len(), 4);
    let joined: Vec<u8> = chunks.concat();
    assert_eq!(joined.as_slice(), payload.as_slice());

    service.delete_block(&wire_id).unwrap();
}

#[test]
fn service_chunks_exact_multiple_has_no_empty_tail() {
    let engine = test_engine(64, 8, 1 << 20);
    let mut service = BlockStorageServiceImpl::new(engine);

    let id = service.create_block().unwrap();
    let wire_id = block_id_bytes(id);
    service.update_block(&wire_id, b"0123456789abcdef").unwrap();

    let chunks = service.read_block(&wire_id).unwrap();
    assert_eq!(chunks.len(), 2);
    assert_eq!(chunks[0].len(), 8);
    assert_eq!(chunks[1].len(), 8);
    let joined: Vec<u8> = chunks.concat();
    assert_eq!(joined.as_slice(), b"0123456789abcdef");
}

#[test]
fn service_empty_block_yields_no_chunks() {
    let engine = test_engine(64, 8, 1 << 20);
    let mut service = BlockStorageServiceImpl::new(engine);
    let id = service.create_block().unwrap();
    let wire_id = block_id_bytes(id);
    let chunks = service.read_block(&wire_id).unwrap();
    assert_eq!(chunks.len(), 0);
}

#[test]
fn service_malformed_id_is_wrong_uuid() {
    let engine = test_engine(64, 8, 1 << 20);
    let mut service = BlockStorageServiceImpl::new(engine);

    match service.read_block(b"short") {
        Err(DataNodeError::WrongUuid(raw)) => assert_eq!(raw.as_slice(), b"short"),
        other => panic!("expected WrongUuid, got {:?}", other),
    }
    match service.update_block(b"way too long to be a block id", b"x") {
        Err(DataNodeError::WrongUuid(_)) => {}
        other => panic!("expected WrongUuid, got {:?}", other),
    }
    match service.delete_block(&[0u8; 15]) {
        Err(DataNodeError::WrongUuid(raw)) => assert_eq!(raw.len(), 15),
        other => panic!("expected WrongUuid, got {:?}", other),
    }
}
