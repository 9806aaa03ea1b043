//! Tests of the configuration fingerprint guard.

use data_node::config::Config;
use data_node::data_node_info::DataNodeInfo;
use data_node::disk::DiskScan;
use data_node::fingerprint::check_fingerprint;
use data_node::fingerprint::fingerprint;
use data_node::fingerprint::StartupError;

#[test]
fn fingerprint_is_deterministic() {
    assert_eq!(fingerprint(32), fingerprint(32));
    assert_eq!(fingerprint(4096), fingerprint(4096));
}

#[test]
fn fingerprint_distinguishes_coarse_block_sizes() {
    // The seeds (block_size * 2) >> 6 differ: 1 against 128.
    assert_ne!(fingerprint(32), fingerprint(4096));
}

#[test]
fn first_run_always_passes() {
    assert!(check_fingerprint(None, 32, 0).is_ok());
    assert!(check_fingerprint(None, 32, 12345).is_ok());
}

#[test]
fn same_block_size_passes_silently() {
    let stored = fingerprint(32);
    assert!(check_fingerprint(Some(stored), 32, 999).is_ok());
}

#[test]
fn changed_block_size_over_data_is_fatal() {
    let stored = fingerprint(32);
    match check_fingerprint(Some(stored), 4096, 64) {
        Err(StartupError::BlockSizeChanged { stored: s, computed }) => {
            assert_eq!(s, stored);
            assert_eq!(computed, fingerprint(4096));
        }
        Ok(()) => panic!("expected the guard to refuse"),
    }
}

#[test]
fn changed_block_size_over_empty_disks_passes() {
    let stored = fingerprint(32);
    assert!(check_fingerprint(Some(stored), 4096, 0).is_ok());
}

#[test]
fn engine_construction_refuses_unsafe_restart() {
    let config = Config {
        main_server_address: "http://[::1]:8000".to_string(),
        self_address: "http://[::1]".to_string(),
        port: 40000,
        block_size: 4096,
        disk_usage: None,
        working_directory: "test_dir".to_string(),
        read_buffer: 8,
    };
    // One disk already holding two blocks created under the old size.
    let scans = vec![DiskScan {
        mount: "/mnt/disk0".to_string(),
        available_space: 1 << 20,
        readonly: false,
        existing_blocks: 2,
    }];
    let stored = fingerprint(32);
    match DataNodeInfo::new(config, scans, Some(stored)) {
        Err(StartupError::BlockSizeChanged { .. }) => {}
        Ok(_) => panic!("expected the guard to refuse"),
    }
}

#[test]
fn engine_construction_accepts_same_size_restart() {
    let config = Config {
        main_server_address: "http://[::1]:8000".to_string(),
        self_address: "http://[::1]".to_string(),
        port: 40000,
        block_size: 32,
        disk_usage: None,
        working_directory: "test_dir".to_string(),
        read_buffer: 8,
    };
    let scans = vec![DiskScan {
        mount: "/mnt/disk0".to_string(),
        available_space: 1 << 20,
        readonly: false,
        existing_blocks: 2,
    }];
    let stored = fingerprint(32);
    let info = DataNodeInfo::new(config, scans, Some(stored)).unwrap();
    assert_eq!(info.working_directory, "test_dir_32");
    assert_eq!(info.disks[0].used_space, 64);
    assert_eq!(info.total_space, (1 << 20) + 64);
}
