//! The block service facade over the engine.
//!
//! Translates wire-format requests — a block id as 16 raw bytes — into
//! engine calls. A malformed id yields `WrongUuid` before the engine is
//! touched. A streaming read resolves the block once, slices it into
//! `read_buffer`-sized chunks, and yields them strictly in ascending order;
//! the surrounding process pushes them one by one into its bounded conduit
//! and stops at the first failed push (the consumer went away).

use crate::block_id::be_value;
use crate::block_id::parse_block_id;
use crate::chunks::chunk_count;
use crate::chunks::chunk_range;
use crate::chunks::lemma_chunk_index;
use crate::chunks::lemma_chunks_len;
use crate::chunks::num_chunks;
use crate::chunks::spec_chunks;
use crate::data_node::DataNode;
use crate::decimal::dec_digits;
use crate::error::res_view;
use crate::error::DataNodeError;
use crate::error::DataNodeErrorV;
use vstd::prelude::*;

verus! {

/// The views of a sequence of chunks.
pub open spec fn chunk_views(s: Seq<Vec<u8>>) -> Seq<Seq<u8>> {
    s.map_values(|c: Vec<u8>| c@)
}

/// The protocol-facing service around the engine.
pub struct BlockStorageServiceImpl {
    /// The engine serving this facade.
    pub inner: DataNode,
}

impl BlockStorageServiceImpl {
    /// Well-formedness of the underlying engine.
    pub open spec fn wf(self) -> bool {
        self.inner.wf()
    }

    /// Wraps an engine.
    pub fn new(block_storage: DataNode) -> (r: BlockStorageServiceImpl)
        ensures
            r.inner == block_storage,
    {
        BlockStorageServiceImpl { inner: block_storage }
    }

    /// Creates a new block; see [`DataNode::create_block`]: `NoSpace`,
    /// changing nothing, exactly when no disk has room; `CreateBlockError`
    /// only on a collision of the freshly drawn id, the reservation kept;
    /// success owed when there is room and the store is empty.
    pub fn create_block(&mut self) -> (r: Result<u128, DataNodeError>)
        requires
            old(self).wf(),
        ensures
            (*final(self)).wf(),
            !old(self).inner@.some_disk_fits() <==> (r matches Err(e) && e@
                == DataNodeErrorV::NoSpace),
            r matches Err(e) && e@ == DataNodeErrorV::NoSpace ==> *final(self) == *old(self),
            old(self).inner@.some_disk_fits() && old(self).inner@.blocks.len() == 0 ==> res_view(
                r,
            ) is Ok,
            match res_view(r) {
                Ok(id) => {
                    &&& !old(self).inner@.has_block(id)
                    &&& exists|d: int|
                        #[trigger] old(self).inner@.is_first_fit(d)
                            && final(self).inner@ == old(self).inner@.create_state(id, d)
                },
                Err(e) => {
                    &&& (e matches DataNodeErrorV::NoSpace || e matches
                        DataNodeErrorV::CreateBlockError(_))
                    &&& e matches DataNodeErrorV::CreateBlockError(msg) ==> {
                        &&& exists|taken: u128|
                            msg == #[trigger] dec_digits(taken as nat)
                                && old(self).inner@.has_block(taken)
                        &&& final(self).inner@.blocks == old(self).inner@.blocks
                        &&& exists|d: int|
                            #[trigger] old(self).inner@.is_first_fit(d)
                                && final(self).inner@.info == old(self).inner@.reserve_state(d)
                    }
                },
            },
    {
        self.inner.create_block()
    }

    /// Serves a whole block as its ordered chunk sequence: exactly the
    /// chunks a streaming read delivers, full `read_buffer`-sized chunks
    /// followed by one short final chunk when the block's size is not an
    /// exact multiple. A malformed id (not exactly 16 bytes) yields
    /// `WrongUuid` before the engine is touched; an unknown id yields
    /// `BlockNotFound`; any stored block is served.
    pub fn read_block(&self, block_id: &[u8]) -> (r: Result<Vec<Vec<u8>>, DataNodeError>)
        requires
            self.wf(),
        ensures
            block_id@.len() != 16 ==> (r matches Err(e) && e@ == DataNodeErrorV::WrongUuid(
                block_id@,
            )),
            block_id@.len() == 16 ==> ({
                let id = be_value(block_id@) as u128;
                match r {
                    Ok(chunks) => self.inner@.has_block(id) && chunk_views(chunks@) == spec_chunks(
                        self.inner@.block_data(id),
                        self.inner@.info.read_buffer as nat,
                    ),
                    Err(e) => !self.inner@.has_block(id) && e@ == DataNodeErrorV::BlockNotFound(
                        dec_digits(id as nat),
                    ),
                }
            }),
    {
        let id = match parse_block_id(block_id) {
            Ok(id) => id,
            Err(e) => {
                return Err(e);
            },
        };
        let (_disk, size) = match self.inner.get_block_info(id) {
            Ok(p) => p,
            Err(e) => {
                return Err(e);
            },
        };
        let buffer = self.inner.get_data_node_info().read_buffer;
        let ghost data = self.inner@.block_data(id);
        let n = chunk_count(size, buffer);
        proof {
            lemma_chunks_len(data, buffer as nat);
        }
        let mut chunks: Vec<Vec<u8>> = Vec::new();
        let mut i: usize = 0;
        proof {
            assert(chunk_views(chunks@) =~= spec_chunks(data, buffer as nat).take(0));
        }
        while i < n
            invariant
                self.wf(),
                self.inner@.has_block(id),
                data == self.inner@.block_data(id),
                buffer == self.inner@.info.read_buffer,
                buffer > 0,
                size == data.len(),
                n == num_chunks(data.len(), buffer as nat),
                n == spec_chunks(data, buffer as nat).len(),
                i <= n,
                chunk_views(chunks@) == spec_chunks(data, buffer as nat).take(i as int),
            decreases n - i,
        {
            let ghost pre_chunks = chunks@;
            let (start, end) = match chunk_range(size, buffer, i) {
                Some(se) => se,
                None => {
                    proof {
                        assert(false);
                    }
                    (0, 0)
                },
            };
            let chunk = match self.inner.read_block(id, start, end) {
                Ok(c) => c,
                Err(_) => {
                    proof {
                        assert(false);
                    }
                    Vec::new()
                },
            };
            proof {
                lemma_chunk_index(data, buffer as nat, i as int);
                assert(chunk@ == spec_chunks(data, buffer as nat)[i as int]);
                let spec = spec_chunks(data, buffer as nat);
                assert(chunk_views(chunks@.push(chunk)) =~= chunk_views(pre_chunks).push(chunk@));
                assert(spec.take(i + 1).drop_last() =~= spec.take(i as int));
                assert(spec.take(i + 1).last() == spec[i as int]);
                assert(chunk_views(chunks@.push(chunk)) =~= spec.take(i + 1));
            }
            chunks.push(chunk);
            i = i + 1;
        }
        proof {
            assert(spec_chunks(data, buffer as nat).take(n as int) =~= spec_chunks(
                data,
                buffer as nat,
            ));
        }
        Ok(chunks)
    }

    /// Overwrites a block's bytes; a malformed id yields `WrongUuid` and
    /// changes nothing; see [`DataNode::update_block`].
    pub fn update_block(&mut self, block_id: &[u8], data: &[u8]) -> (r: Result<(), DataNodeError>)
        requires
            old(self).wf(),
        ensures
            (*final(self)).wf(),
            block_id@.len() != 16 ==> (r matches Err(e) && e@ == DataNodeErrorV::WrongUuid(
                block_id@,
            ) && *final(self) == *old(self)),
            block_id@.len() == 16 ==> ({
                let id = be_value(block_id@) as u128;
                &&& res_view(r) == old(self).inner@.update_result(id, data@.len() as int)
                &&& final(self).inner@ == old(self).inner@.update_state(id, data@)
            }),
    {
        match parse_block_id(block_id) {
            Ok(id) => self.inner.update_block(id, data),
            Err(e) => Err(e),
        }
    }

    /// Removes a block; a malformed id yields `WrongUuid` and changes
    /// nothing; see [`DataNode::delete_block`].
    pub fn delete_block(&mut self, block_id: &[u8]) -> (r: Result<(), DataNodeError>)
        requires
            old(self).wf(),
        ensures
            (*final(self)).wf(),
            block_id@.len() != 16 ==> (r matches Err(e) && e@ == DataNodeErrorV::WrongUuid(
                block_id@,
            ) && *final(self) == *old(self)),
            block_id@.len() == 16 ==> ({
                let id = be_value(block_id@) as u128;
                &&& res_view(r) == old(self).inner@.delete_result(id)
                &&& final(self).inner@ == old(self).inner@.delete_state(id)
            }),
    {
        match parse_block_id(block_id) {
            Ok(id) => self.inner.delete_block(id),
            Err(e) => Err(e),
        }
    }
}

} // verus!
