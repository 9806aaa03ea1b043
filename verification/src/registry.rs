//! The registry's acceptance rule for data nodes.
//!
//! The central registry accepts a registering data node only when its
//! configured block size is one the cluster is run with; the refusal names
//! the sizes the server can handle. The wire endpoint around this rule lives
//! in the surrounding process.

use crate::error::RegistryError;
use crate::error::RegistryErrorV;
use vstd::prelude::*;

verus! {

/// The block size the registry accepts.
pub const ACCEPTED_BLOCK_SIZE: usize = 32;

/// The smaller block size the refusal message names.
pub const HANDLED_SMALL_BLOCK_SIZE: usize = 32;

/// The larger block size the refusal message names.
pub const HANDLED_LARGE_BLOCK_SIZE: usize = 64;

/// The registry endpoint's decision logic.
pub struct RegistryController {}

impl RegistryController {
    /// Decides a data node's registration: accepted exactly when the node's
    /// block size is the one the registry runs with, else refused with
    /// `WrongBlockSize` naming the offered size and the handled sizes.
    pub fn registry(&self, block_size: usize) -> (r: Result<(), RegistryError>)
        ensures
            block_size == ACCEPTED_BLOCK_SIZE <==> r is Ok,
            block_size != ACCEPTED_BLOCK_SIZE ==> (r matches Err(e) && e@
                == RegistryErrorV::WrongBlockSize(
                block_size as int,
                HANDLED_SMALL_BLOCK_SIZE as int,
                HANDLED_LARGE_BLOCK_SIZE as int,
            )),
    {
        if block_size != ACCEPTED_BLOCK_SIZE {
            return Err(
                RegistryError::WrongBlockSize(
                    block_size,
                    HANDLED_SMALL_BLOCK_SIZE,
                    HANDLED_LARGE_BLOCK_SIZE,
                ),
            );
        }
        Ok(())
    }
}

} // verus!
