//! Concurrent readers: many simultaneous streamed reads of the same
//! unmodified block all observe identical bytes.

use data_node::block_id::block_id_bytes;
use data_node::block_storage_service::BlockStorageServiceImpl;
use data_node::config::Config;
use data_node::data_node::DataNode;
use data_node::data_node_info::DataNodeInfo;
use data_node::disk::DiskScan;
use std::sync::Arc;

#[test]
fn concurrent_reads_return_identical_bytes() {
    let config = Config {
        main_server_address: "http://[::1]:8000".to_string(),
        self_address: "http://[::1]".to_string(),
        port: 40000,
        block_size: 65536,
        disk_usage: None,
        working_directory: "test_dir".to_string(),
        read_buffer: 1000,
    };
    let scans = vec![DiskScan {
        mount: "/mnt/disk0".to_string(),
        available_space: 1 << 30,
        readonly: false,
        existing_blocks: 0,
    }];
    let info = DataNodeInfo::new(config, scans, None).unwrap();
    let mut service = BlockStorageServiceImpl::new(DataNode::new(info));

    let payload: Vec<u8> = std::iter::repeat(*b"Hello, Pavel ")
        .take(4096)
        .flatten()
        .collect();
    assert_eq!(payload.len(), 13 * 4096);

    let id = service.create_block().unwrap();
    let wire_id = block_id_bytes(id);
    service.update_block(&wire_id, &payload).unwrap();

    let service = Arc::new(service);
    let runtime = tokio::runtime::Builder::new_multi_thread()
        .worker_threads(4)
        .build()
        .unwrap();
    let results: Vec<Vec<u8>> = runtime.block_on(async {
        let mut handles = vec![];
        for _ in 0..100 {
            let service = service.clone();
            let wire_id = wire_id.clone();
            handles.push(tokio::spawn(async move {
                let chunks = service.read_block(&wire_id).unwrap();
                chunks.concat()
            }));
        }
        let mut collected = vec![];
        for handle in handles {
            collected.push(handle.await.unwrap());
        }
        collected
    });

    assert_eq!(results.len(), 100);
    for bytes in results {
        assert_eq!(bytes.as_slice(), payload.as_slice());
    }
}
