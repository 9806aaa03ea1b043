//! Tests of the flat tag-addressed store and its wire-id adapter.

use data_node::block_id::block_id_bytes;
use data_node::block_storage::BlockStorage;
use data_node::block_storage::BlockStorageDecorator;
use data_node::error::DataNodeError;

#[test]
fn block_storage_test_block_crud() {
    let first_record = b"Hello, World";
    let second_record = b"Hello, Pavel";

    let mut block_storage = BlockStorage::new(40000);
    let uuid = block_storage.create_block(first_record).unwrap();
    assert_eq!(
        first_record.as_slice(),
        block_storage.read_block(uuid).unwrap().as_slice()
    );
    block_storage.update_block(uuid, second_record).unwrap();
    assert_eq!(
        second_record.as_slice(),
        block_storage.read_block(uuid).unwrap().as_slice()
    );
    block_storage.delete_block(uuid).unwrap();
}

#[test]
fn block_storage_missing_block_errors() {
    let mut store = BlockStorage::new(7);
    match store.read_block(42) {
        Err(DataNodeError::BlockNotFound(id)) => assert_eq!(id, "42"),
        other => panic!("expected BlockNotFound, got {:?}", other),
    }
    match store.update_block(42, b"x") {
        Err(DataNodeError::BlockNotFound(id)) => assert_eq!(id, "42"),
        other => panic!("expected BlockNotFound, got {:?}", other),
    }
    match store.delete_block(42) {
        Err(DataNodeError::DeleteBlockError(id)) => assert_eq!(id, "42"),
        other => panic!("expected DeleteBlockError, got {:?}", other),
    }
}

#[test]
fn creating_under_a_taken_id_fails_without_change() {
    let mut store = BlockStorage::new(3);
    store.create_block_with_id(99, b"original").unwrap();
    match store.create_block_with_id(99, b"usurper") {
        Err(DataNodeError::CreateBlockError(id)) => assert_eq!(id, "99"),
        other => panic!("expected CreateBlockError, got {:?}", other),
    }
    assert_eq!(store.read_block(99).unwrap().as_slice(), b"original");
}

#[test]
fn decorator_addresses_store_by_wire_id() {
    let mut decorator = BlockStorageDecorator::new(BlockStorage::new(1));
    let id = decorator.create_block(b"first").unwrap();
    let wire_id = block_id_bytes(id);

    assert_eq!(decorator.read_block(&wire_id).unwrap().as_slice(), b"first");
    decorator.update_block(&wire_id, b"second").unwrap();
    assert_eq!(decorator.read_block(&wire_id).unwrap().as_slice(), b"second");
    decorator.delete_block(&wire_id).unwrap();
    match decorator.read_block(&wire_id) {
        Err(DataNodeError::BlockNotFound(_)) => {}
        other => panic!("expected BlockNotFound, got {:?}", other),
    }
}
