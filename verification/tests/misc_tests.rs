//! Tests of block-id wire format, decimal rendering, configuration and the
//! registry rule.

use data_node::block_id::block_id_bytes;
use data_node::block_id::parse_block_id;
use data_node::chunks::chunk_count;
use data_node::chunks::chunk_range;
use data_node::config::working_directory_name;
use data_node::config::Config;
use data_node::data_node_info::DataNodeInfo;
use data_node::decimal::u128_to_dec_string;
use data_node::decimal::u64_to_dec_string;
use data_node::error::DataNodeError;
use data_node::error::RegistryError;
use data_node::registry::RegistryController;

#[test]
fn decimal_rendering_is_exact() {
    assert_eq!(u128_to_dec_string(0), "0");
    assert_eq!(u128_to_dec_string(7), "7");
    assert_eq!(u128_to_dec_string(10), "10");
    assert_eq!(u128_to_dec_string(40000), "40000");
    assert_eq!(
        u128_to_dec_string(u128::MAX),
        "340282366920938463463374607431768211455"
    );
    assert_eq!(u64_to_dec_string(u64::MAX), "18446744073709551615");
}

#[test]
fn block_id_wire_round_trip() {
    let id: u128 = 0xa1a2a3a4_b1b2_c1c2_d1d2_d3d4d5d6d7d8;
    let bytes = block_id_bytes(id);
    assert_eq!(bytes.len(), 16);
    assert_eq!(bytes[0], 0xa1);
    assert_eq!(bytes[15], 0xd8);
    assert_eq!(parse_block_id(&bytes).unwrap(), id);

    let raw = [0u8; 16];
    assert_eq!(parse_block_id(&raw).unwrap(), 0);
    assert_eq!(block_id_bytes(0), vec![0u8; 16]);
}

#[test]
fn non_sixteen_byte_ids_are_wrong_uuid() {
    for len in [0usize, 1, 15, 17, 32] {
        let raw = vec![7u8; len];
        match parse_block_id(&raw) {
            Err(DataNodeError::WrongUuid(bytes)) => assert_eq!(bytes, raw),
            other => panic!("expected WrongUuid for length {}, got {:?}", len, other),
        }
    }
}

#[test]
fn chunk_arithmetic_is_exact() {
    assert_eq!(chunk_count(0, 8), 0);
    assert_eq!(chunk_count(1, 8), 1);
    assert_eq!(chunk_count(16, 8), 2);
    assert_eq!(chunk_count(17, 8), 3);

    assert_eq!(chunk_range(17, 8, 0), Some((0, 8)));
    assert_eq!(chunk_range(17, 8, 1), Some((8, 16)));
    assert_eq!(chunk_range(17, 8, 2), Some((16, 17)));
    assert_eq!(chunk_range(17, 8, 3), None);
    assert_eq!(chunk_range(16, 8, 2), None);
    assert_eq!(chunk_range(0, 8, 0), None);
}

#[test]
fn working_directory_carries_block_size() {
    assert_eq!(working_directory_name("test_dir", 32), "test_dir_32");
    assert_eq!(working_directory_name("blocks", 65536), "blocks_65536");
}

#[test]
fn config_getters_return_fields() {
    let config = Config {
        main_server_address: "http://[::1]:8000".to_string(),
        self_address: "http://[::1]".to_string(),
        port: 40000,
        block_size: 32,
        disk_usage: Some(4096),
        working_directory: "test_dir".to_string(),
        read_buffer: 8,
    };
    assert_eq!(config.main_server_addr(), "http://[::1]:8000");
    assert_eq!(config.port(), 40000);
    assert_eq!(config.block_size(), 32);
    assert_eq!(config.disk_usage(), Some(4096));
}

#[test]
fn total_space_is_capped_by_configured_ceiling() {
    assert_eq!(DataNodeInfo::get_total_space(None, 500), 500);
    assert_eq!(DataNodeInfo::get_total_space(Some(200), 500), 200);
    assert_eq!(DataNodeInfo::get_total_space(Some(900), 500), 500);
}

#[test]
fn registry_accepts_only_its_block_size() {
    let controller = RegistryController {};
    assert!(controller.registry(32).is_ok());
    match controller.registry(33) {
        Err(RegistryError::WrongBlockSize(got, small, large)) => {
            assert_eq!(got, 33);
            assert_eq!(small, 32);
            assert_eq!(large, 64);
        }
        Ok(()) => panic!("expected WrongBlockSize"),
    }
}
