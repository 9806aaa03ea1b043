//! A flat, tag-addressed block store.
//!
//! A simpler sibling of the engine: one storage area named by a numeric
//! tag, no per-disk capacity accounting and no block-size ceiling. Blocks
//! carry the same random 128-bit identifiers, and the backing directory —
//! named after the tag — is mirrored by the surrounding process exactly as
//! for the engine.

use crate::block_id::fresh_block_id;
use crate::block_id::parse_block_id;
use crate::decimal::dec_digits;
use crate::decimal::u128_to_dec_string;
use crate::error::res_view;
use crate::error::DataNodeError;
use crate::error::DataNodeErrorV;
use vstd::prelude::*;
use vstd::slice::slice_to_vec;

verus! {

/// The numeric tag naming one storage area.
pub type StorageTag = u16;

/// One stored block: its identifier and its bytes.
pub struct StoredBlock {
    pub id: u128,
    pub data: Vec<u8>,
}

/// Abstract value of a [`StoredBlock`].
pub struct StoredBlockV {
    pub id: u128,
    pub data: Seq<u8>,
}

impl View for StoredBlock {
    type V = StoredBlockV;

    open spec fn view(&self) -> StoredBlockV {
        StoredBlockV { id: self.id, data: self.data@ }
    }
}

/// The views of a sequence of stored blocks.
pub open spec fn stored_views(s: Seq<StoredBlock>) -> Seq<StoredBlockV> {
    s.map_values(|b: StoredBlock| b@)
}

/// Whether the store holds an entry with this id.
pub open spec fn stored_have(blocks: Seq<StoredBlockV>, id: u128) -> bool {
    exists|i: int| 0 <= i < blocks.len() && blocks[i].id == id
}

/// The index of the entry with this id.
pub open spec fn stored_at(blocks: Seq<StoredBlockV>, id: u128) -> int {
    choose|i: int| 0 <= i < blocks.len() && blocks[i].id == id
}

/// Under unique ids, any index holding `id` is the index `stored_at` names.
proof fn lemma_stored_at_unique(blocks: Seq<StoredBlockV>, id: u128, i: int)
    requires
        forall|a: int, b: int| 0 <= a < b < blocks.len() ==> blocks[a].id != blocks[b].id,
        0 <= i < blocks.len(),
        blocks[i].id == id,
    ensures
        stored_have(blocks, id),
        stored_at(blocks, id) == i,
{
    assert(stored_have(blocks, id));
    let j = stored_at(blocks, id);
    assert(0 <= j < blocks.len() && blocks[j].id == id);
    if i < j {
        assert(blocks[i].id != blocks[j].id);
    } else if j < i {
        assert(blocks[j].id != blocks[i].id);
    }
}

/// The flat block store.
pub struct BlockStorage {
    /// The tag naming this store's backing directory.
    pub tag: StorageTag,
    /// The stored blocks, in creation order.
    pub blocks: Vec<StoredBlock>,
}

impl BlockStorage {
    /// Abstract contents of the store.
    pub open spec fn contents(self) -> Seq<StoredBlockV> {
        stored_views(self.blocks@)
    }

    /// Well-formedness: block ids are unique.
    pub open spec fn wf(self) -> bool {
        forall|a: int, b: int| 0 <= a < b < self.contents().len() ==> self.contents()[a].id
            != self.contents()[b].id
    }

    /// Opens an empty store under a tag. (The caller creates the backing
    /// directory named after the tag.)
    pub fn new(tag: StorageTag) -> (r: BlockStorage)
        ensures
            r.wf(),
            r.tag == tag,
            r.contents() == Seq::<StoredBlockV>::empty(),
    {
        let r = BlockStorage { tag, blocks: Vec::new() };
        proof {
            assert(r.contents() =~= Seq::<StoredBlockV>::empty());
        }
        r
    }

    /// Finds the block with this id by linear search, first match winning.
    fn find_block(&self, id: u128) -> (r: Option<usize>)
        ensures
            match r {
                Some(i) => 0 <= i < self.contents().len() && self.contents()[i as int].id == id,
                None => !stored_have(self.contents(), id),
            },
    {
        let mut i: usize = 0;
        while i < self.blocks.len()
            invariant
                i <= self.contents().len(),
                self.contents().len() == self.blocks@.len(),
                forall|j: int| 0 <= j < i ==> (#[trigger] self.contents()[j]).id != id,
            decreases self.contents().len() - i,
        {
            if self.blocks[i].id == id {
                return Some(i);
            }
            i = i + 1;
        }
        None
    }

    /// Creates a block holding `data` under a given id: stored exactly when
    /// the id is free; a taken id fails with `CreateBlockError` carrying the
    /// id, changing nothing.
    pub fn create_block_with_id(&mut self, id: u128, data: &[u8]) -> (r: Result<
        (),
        DataNodeError,
    >)
        requires
            old(self).wf(),
        ensures
            (*final(self)).wf(),
            final(self).tag == old(self).tag,
            match res_view(r) {
                Ok(()) => {
                    &&& !stored_have(old(self).contents(), id)
                    &&& final(self).contents() == old(self).contents().push(
                        StoredBlockV { id, data: data@ },
                    )
                },
                Err(e) => {
                    &&& stored_have(old(self).contents(), id)
                    &&& e == DataNodeErrorV::CreateBlockError(dec_digits(id as nat))
                    &&& *final(self) == *old(self)
                },
            },
    {
        let ghost pre = self.contents();
        match self.find_block(id) {
            Some(i) => {
                proof {
                    lemma_stored_at_unique(pre, id, i as int);
                }
                Err(DataNodeError::CreateBlockError(u128_to_dec_string(id)))
            },
            None => {
                self.blocks.push(StoredBlock { id, data: slice_to_vec(data) });
                proof {
                    assert(self.contents() =~= pre.push(StoredBlockV { id, data: data@ }));
                    assert forall|a: int, b: int|
                        0 <= a < b < self.contents().len() implies self.contents()[a].id
                        != self.contents()[b].id by {
                        if b == self.contents().len() - 1 {
                            assert(!stored_have(pre, id));
                        } else {
                            assert(pre[a].id != pre[b].id);
                        }
                    }
                }
                Ok(())
            },
        }
    }

    /// Creates a block holding `data` under a freshly drawn random id.
    /// Fails with `CreateBlockError` carrying the id only when the drawn id
    /// collides with an existing block, changing nothing; on an empty
    /// store, where no drawn id can collide, success is owed.
    pub fn create_block(&mut self, data: &[u8]) -> (r: Result<u128, DataNodeError>)
        requires
            old(self).wf(),
        ensures
            (*final(self)).wf(),
            final(self).tag == old(self).tag,
            old(self).contents().len() == 0 ==> res_view(r) is Ok,
            match res_view(r) {
                Ok(id) => {
                    &&& !stored_have(old(self).contents(), id)
                    &&& final(self).contents() == old(self).contents().push(
                        StoredBlockV { id, data: data@ },
                    )
                },
                Err(e) => {
                    &&& exists|taken: u128|
                        e == DataNodeErrorV::CreateBlockError(
                            #[trigger] dec_digits(taken as nat),
                        ) && stored_have(old(self).contents(), taken)
                    &&& *final(self) == *old(self)
                },
            },
    {
        let id = fresh_block_id();
        match self.create_block_with_id(id, data) {
            Ok(_) => Ok(id),
            Err(e) => {
                proof {
                    assert(dec_digits(id as nat) == dec_digits(id as nat));
                }
                Err(e)
            },
        }
    }

    /// Reads a block's whole bytes: `BlockNotFound` carrying the id exactly
    /// when the store does not hold it.
    pub fn read_block(&self, block_id: u128) -> (r: Result<Vec<u8>, DataNodeError>)
        requires
            self.wf(),
        ensures
            match r {
                Ok(bytes) => stored_have(self.contents(), block_id) && bytes@ == self.contents()[stored_at(
                    self.contents(),
                    block_id,
                )].data,
                Err(e) => !stored_have(self.contents(), block_id) && e@
                    == DataNodeErrorV::BlockNotFound(dec_digits(block_id as nat)),
            },
    {
        match self.find_block(block_id) {
            None => Err(DataNodeError::BlockNotFound(u128_to_dec_string(block_id))),
            Some(i) => {
                proof {
                    lemma_stored_at_unique(self.contents(), block_id, i as int);
                }
                Ok(slice_to_vec(self.blocks[i].data.as_slice()))
            },
        }
    }

    /// Overwrites a block's bytes (a full overwrite): `BlockNotFound`
    /// carrying the id exactly when the store does not hold it, and then
    /// nothing changes.
    pub fn update_block(&mut self, block_id: u128, data: &[u8]) -> (r: Result<(), DataNodeError>)
        requires
            old(self).wf(),
        ensures
            (*final(self)).wf(),
            final(self).tag == old(self).tag,
            match res_view(r) {
                Ok(()) => {
                    &&& stored_have(old(self).contents(), block_id)
                    &&& final(self).contents() == old(self).contents().update(
                        stored_at(old(self).contents(), block_id),
                        StoredBlockV { id: block_id, data: data@ },
                    )
                },
                Err(e) => {
                    &&& !stored_have(old(self).contents(), block_id)
                    &&& e == DataNodeErrorV::BlockNotFound(dec_digits(block_id as nat))
                    &&& *final(self) == *old(self)
                },
            },
    {
        let ghost pre = self.contents();
        match self.find_block(block_id) {
            None => Err(DataNodeError::BlockNotFound(u128_to_dec_string(block_id))),
            Some(i) => {
                proof {
                    lemma_stored_at_unique(pre, block_id, i as int);
                }
                let mut entry = self.blocks.remove(i);
                entry.data = slice_to_vec(data);
                self.blocks.insert(i, entry);
                proof {
                    assert(self.contents() =~= pre.update(
                        i as int,
                        StoredBlockV { id: block_id, data: data@ },
                    ));
                    assert forall|a: int, b: int|
                        0 <= a < b < self.contents().len() implies self.contents()[a].id
                        != self.contents()[b].id by {
                        assert(pre[a].id != pre[b].id);
                    }
                }
                Ok(())
            },
        }
    }

    /// Removes a block: `DeleteBlockError` carrying the id exactly when the
    /// store does not hold it.
    pub fn delete_block(&mut self, block_id: u128) -> (r: Result<(), DataNodeError>)
        requires
            old(self).wf(),
        ensures
            (*final(self)).wf(),
            final(self).tag == old(self).tag,
            match res_view(r) {
                Ok(()) => {
                    &&& stored_have(old(self).contents(), block_id)
                    &&& final(self).contents() == old(self).contents().remove(
                        stored_at(old(self).contents(), block_id),
                    )
                },
                Err(e) => {
                    &&& !stored_have(old(self).contents(), block_id)
                    &&& e == DataNodeErrorV::DeleteBlockError(dec_digits(block_id as nat))
                    &&& *final(self) == *old(self)
                },
            },
    {
        let ghost pre = self.contents();
        match self.find_block(block_id) {
            None => Err(DataNodeError::DeleteBlockError(u128_to_dec_string(block_id))),
            Some(i) => {
                proof {
                    lemma_stored_at_unique(pre, block_id, i as int);
                }
                self.blocks.remove(i);
                proof {
                    assert(self.contents() =~= pre.remove(i as int));
                    assert forall|a: int, b: int|
                        0 <= a < b < self.contents().len() implies self.contents()[a].id
                        != self.contents()[b].id by {
                        let pa = if a < i as int {
                            a
                        } else {
                            a + 1
                        };
                        let pb = if b < i as int {
                            b
                        } else {
                            b + 1
                        };
                        assert(pre[pa].id != pre[pb].id);
                    }
                }
                Ok(())
            },
        }
    }
}

/// A thin adapter that lets wire-format callers address the flat store by a
/// raw 16-byte id. Its callers hand it trusted ids: a slice of another
/// length is a caller bug, so it is excluded here rather than mapped to an
/// error.
pub struct BlockStorageDecorator {
    /// The store being adapted.
    pub inner: BlockStorage,
}

impl BlockStorageDecorator {
    /// Well-formedness of the underlying store.
    pub open spec fn wf(self) -> bool {
        self.inner.wf()
    }

    /// Wraps a store.
    pub fn new(block_storage: BlockStorage) -> (r: BlockStorageDecorator)
        ensures
            r.inner == block_storage,
    {
        BlockStorageDecorator { inner: block_storage }
    }

    /// Creates a block holding `data`; see [`BlockStorage::create_block`].
    pub fn create_block(&mut self, data: &[u8]) -> (r: Result<u128, DataNodeError>)
        requires
            old(self).wf(),
        ensures
            (*final(self)).wf(),
            match res_view(r) {
                Ok(id) => {
                    &&& !stored_have(old(self).inner.contents(), id)
                    &&& final(self).inner.contents() == old(self).inner.contents().push(
                        StoredBlockV { id, data: data@ },
                    )
                },
                Err(e) => e matches DataNodeErrorV::CreateBlockError(_) && *final(self) == *old(
                    self,
                ),
            },
    {
        self.inner.create_block(data)
    }

    /// Reads a block's whole bytes by its 16-byte wire id.
    pub fn read_block(&self, block_id: &[u8]) -> (r: Result<Vec<u8>, DataNodeError>)
        requires
            self.wf(),
            block_id@.len() == 16,
        ensures
            ({
                let id = crate::block_id::be_value(block_id@) as u128;
                match r {
                    Ok(bytes) => stored_have(self.inner.contents(), id) && bytes@
                        == self.inner.contents()[stored_at(self.inner.contents(), id)].data,
                    Err(e) => !stored_have(self.inner.contents(), id) && e@
                        == DataNodeErrorV::BlockNotFound(dec_digits(id as nat)),
                }
            }),
    {
        let id = match parse_block_id(block_id) {
            Ok(id) => id,
            Err(_) => {
                proof {
                    assert(false);
                }
                0
            },
        };
        self.inner.read_block(id)
    }

    /// Overwrites a block's bytes by its 16-byte wire id.
    pub fn update_block(&mut self, block_id: &[u8], data: &[u8]) -> (r: Result<(), DataNodeError>)
        requires
            old(self).wf(),
            block_id@.len() == 16,
        ensures
            (*final(self)).wf(),
            ({
                let id = crate::block_id::be_value(block_id@) as u128;
                match res_view(r) {
                    Ok(()) => {
                        &&& stored_have(old(self).inner.contents(), id)
                        &&& final(self).inner.contents() == old(self).inner.contents().update(
                            stored_at(old(self).inner.contents(), id),
                            StoredBlockV { id, data: data@ },
                        )
                    },
                    Err(e) => {
                        &&& !stored_have(old(self).inner.contents(), id)
                        &&& e == DataNodeErrorV::BlockNotFound(dec_digits(id as nat))
                        &&& *final(self) == *old(self)
                    },
                }
            }),
    {
        let id = match parse_block_id(block_id) {
            Ok(id) => id,
            Err(_) => {
                proof {
                    assert(false);
                }
                0
            },
        };
        self.inner.update_block(id, data)
    }

    /// Removes a block by its 16-byte wire id.
    pub fn delete_block(&mut self, block_id: &[u8]) -> (r: Result<(), DataNodeError>)
        requires
            old(self).wf(),
            block_id@.len() == 16,
        ensures
            (*final(self)).wf(),
            ({
                let id = crate::block_id::be_value(block_id@) as u128;
                match res_view(r) {
                    Ok(()) => {
                        &&& stored_have(old(self).inner.contents(), id)
                        &&& final(self).inner.contents() == old(self).inner.contents().remove(
                            stored_at(old(self).inner.contents(), id),
                        )
                    },
                    Err(e) => {
                        &&& !stored_have(old(self).inner.contents(), id)
                        &&& e == DataNodeErrorV::DeleteBlockError(dec_digits(id as nat))
                        &&& *final(self) == *old(self)
                    },
                }
            }),
    {
        let id = match parse_block_id(block_id) {
            Ok(id) => id,
            Err(_) => {
                proof {
                    assert(false);
                }
                0
            },
        };
        self.inner.delete_block(id)
    }
}

} // verus!
