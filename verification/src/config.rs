//! Engine configuration.
//!
//! Loading (file or command line) is owned by the surrounding process; the
//! engine consumes the plain values and derives from them the per-block-size
//! working directory name, so that directories created under different block
//! sizes never collide and can be told apart by name alone.

use crate::decimal::dec_digits;
use crate::decimal::u128_to_dec_string;
use vstd::prelude::*;
use vstd::string::StringExecFns;

verus! {

/// Configuration of one data node.
pub struct Config {
    /// Address of the main server and registry.
    pub main_server_address: String,
    /// Address this node serves on.
    pub self_address: String,
    /// Listen port.
    pub port: u16,
    /// Ceiling for any single block's payload, in bytes.
    pub block_size: u32,
    /// Optional ceiling on the disk space to use; `None` means all of it.
    pub disk_usage: Option<u128>,
    /// Base name of the per-disk working directory.
    pub working_directory: String,
    /// Chunk size of the streaming read path, in bytes.
    pub read_buffer: usize,
}

impl Config {
    /// Address of the main server and registry.
    pub fn main_server_addr(&self) -> (r: &str)
        ensures
            r@ == self.main_server_address@,
    {
        self.main_server_address.as_str()
    }

    /// Listen port.
    pub fn port(&self) -> (r: u16)
        ensures
            r == self.port,
    {
        self.port
    }

    /// Ceiling for any single block's payload, in bytes.
    pub fn block_size(&self) -> (r: u32)
        ensures
            r == self.block_size,
    {
        self.block_size
    }

    /// Optional ceiling on the disk space to use.
    pub fn disk_usage(&self) -> (r: Option<u128>)
        ensures
            r == self.disk_usage,
    {
        self.disk_usage
    }
}

/// The name of the per-block-size working directory: the configured base
/// name, an underscore, and the block size in decimal.
pub open spec fn spec_working_directory(base: Seq<char>, block_size: u32) -> Seq<char> {
    base + "_"@ + dec_digits(block_size as nat)
}

/// Derives the working directory name for a block size.
pub fn working_directory_name(base: &str, block_size: u32) -> (r: String)
    ensures
        r@ == spec_working_directory(base@, block_size),
{
    String::from_str(base).concat("_").concat(u128_to_dec_string(block_size as u128).as_str())
}

} // verus!
