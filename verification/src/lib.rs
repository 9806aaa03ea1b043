//! A verified block-storage engine for a data node: disk discovery and
//! capacity accounting, block lifecycle (create/read/update/delete) across
//! multiple disks, a persisted configuration fingerprint that blocks unsafe
//! block-size changes across restarts, and a chunked streaming read path.

pub mod block_id;
pub mod block_storage;
pub mod block_storage_service;
pub mod chunks;
pub mod codec;
pub mod config;
pub mod data_node;
pub mod data_node_info;
pub mod decimal;
pub mod disk;
pub mod error;
pub mod fingerprint;
pub mod registry;
