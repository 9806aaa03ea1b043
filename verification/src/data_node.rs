//! The block storage engine.
//!
//! The engine owns the disk registry and implements create, read, update and
//! delete for blocks identified by a 128-bit random identifier. It keeps an
//! in-memory index of every block — which disk owns it and its bytes — as
//! the authoritative model of the store; the surrounding process mirrors
//! each change onto the per-disk backing files it resolves from the block id
//! and the working directory. A block, once created, resides on exactly one
//! disk for its lifetime, and capacity is reserved first-fit at creation
//! time.
//!
//! Deliberate accounting policy: deleting a block does not release the
//! owning disk's reserved capacity, and a reservation is not rolled back
//! when block creation fails after a disk was selected.

use crate::block_id::fresh_block_id;
use crate::data_node_info::disk_fits;
use crate::data_node_info::DataNodeInfo;
use crate::data_node_info::DataNodeInfoV;
use crate::decimal::dec_digits;
use crate::decimal::u128_to_dec_string;
use crate::disk::DiskStatsV;
use crate::error::res_view;
use crate::error::DataNodeError;
use crate::error::DataNodeErrorV;
use vstd::prelude::*;
use vstd::slice::slice_subrange;
use vstd::slice::slice_to_vec;

verus! {

/// One stored block: its identifier, the index of its owning disk in the
/// registry, and its bytes.
pub struct BlockEntry {
    pub id: u128,
    pub disk: usize,
    pub data: Vec<u8>,
}

/// Abstract value of a [`BlockEntry`].
pub struct BlockEntryV {
    pub id: u128,
    pub disk: int,
    pub data: Seq<u8>,
}

impl View for BlockEntry {
    type V = BlockEntryV;

    open spec fn view(&self) -> BlockEntryV {
        BlockEntryV { id: self.id, disk: self.disk as int, data: self.data@ }
    }
}

/// The views of a sequence of block entries.
pub open spec fn block_views(s: Seq<BlockEntry>) -> Seq<BlockEntryV> {
    s.map_values(|b: BlockEntry| b@)
}

/// Whether a block sequence holds an entry with this id.
pub open spec fn blocks_have(blocks: Seq<BlockEntryV>, id: u128) -> bool {
    exists|i: int| 0 <= i < blocks.len() && blocks[i].id == id
}

/// The index of the entry with this id.
pub open spec fn blocks_at(blocks: Seq<BlockEntryV>, id: u128) -> int {
    choose|i: int| 0 <= i < blocks.len() && blocks[i].id == id
}

/// Abstract state of the engine: the configuration state and the stored
/// blocks.
pub struct DataNodeV {
    pub info: DataNodeInfoV,
    pub blocks: Seq<BlockEntryV>,
}

impl DataNodeV {
    /// Well-formedness: the configuration state is well-formed, every block
    /// points at a registry disk, respects the block-size ceiling, and block
    /// ids are unique.
    pub open spec fn wf(self) -> bool {
        &&& self.info.wf()
        &&& forall|i: int|
            0 <= i < self.blocks.len() ==> 0 <= (#[trigger] self.blocks[i]).disk
                < self.info.disks.len()
        &&& forall|i: int|
            0 <= i < self.blocks.len() ==> (#[trigger] self.blocks[i]).data.len()
                <= self.info.block_size
        &&& forall|i: int, j: int|
            0 <= i < j < self.blocks.len() ==> self.blocks[i].id != self.blocks[j].id
    }

    /// Whether some disk holds a block with this id.
    pub open spec fn has_block(self, id: u128) -> bool {
        blocks_have(self.blocks, id)
    }

    /// The index of the block with this id (well-defined under `wf`, where
    /// ids are unique).
    pub open spec fn block_at(self, id: u128) -> int {
        blocks_at(self.blocks, id)
    }

    /// The bytes of the block with this id.
    pub open spec fn block_data(self, id: u128) -> Seq<u8> {
        self.blocks[self.block_at(id)].data
    }

    /// The index of the disk owning the block with this id.
    pub open spec fn block_disk(self, id: u128) -> int {
        self.blocks[self.block_at(id)].disk
    }

    /// Whether some disk has room for one more block.
    pub open spec fn some_disk_fits(self) -> bool {
        exists|d: int|
            0 <= d < self.info.disks.len() && disk_fits(
                #[trigger] self.info.disks[d],
                self.info.block_size,
            )
    }

    /// Whether `d` is the first disk, in registry order, with room for one
    /// more block.
    pub open spec fn is_first_fit(self, d: int) -> bool {
        &&& 0 <= d < self.info.disks.len()
        &&& disk_fits(self.info.disks[d], self.info.block_size)
        &&& forall|j: int|
            0 <= j < d ==> !disk_fits(#[trigger] self.info.disks[j], self.info.block_size)
    }

    /// The state after a successful creation: one block's worth of capacity
    /// reserved on disk `d`, and an empty block with id `id` stored there.
    pub open spec fn create_state(self, id: u128, d: int) -> DataNodeV {
        DataNodeV {
            info: self.reserve_state(d),
            blocks: self.blocks.push(BlockEntryV { id, disk: d, data: Seq::empty() }),
        }
    }

    /// The state after reserving one block's worth of capacity on disk `d`
    /// (a creation that failed after disk selection leaves exactly this: the
    /// reservation is deliberately not rolled back).
    pub open spec fn reserve_state(self, d: int) -> DataNodeInfoV {
        DataNodeInfoV {
            disks: self.info.disks.update(
                d,
                DiskStatsV {
                    used_space: (self.info.disks[d].used_space + self.info.block_size) as u64,
                    ..self.info.disks[d]
                },
            ),
            ..self.info
        }
    }

    /// What `update_block` returns: overflow is rejected before anything is
    /// touched, then the block must exist.
    pub open spec fn update_result(self, id: u128, len: int) -> Result<(), DataNodeErrorV> {
        if len > self.info.block_size {
            Err(DataNodeErrorV::BlockOverflow(self.info.block_size as int, len))
        } else if !self.has_block(id) {
            Err(DataNodeErrorV::BlockNotFound(dec_digits(id as nat)))
        } else {
            Ok(())
        }
    }

    /// The state after `update_block`: a full overwrite of the block's bytes
    /// on success, no change otherwise.
    pub open spec fn update_state(self, id: u128, data: Seq<u8>) -> DataNodeV {
        if self.update_result(id, data.len() as int) is Ok {
            DataNodeV {
                info: self.info,
                blocks: self.blocks.update(
                    self.block_at(id),
                    BlockEntryV { data, ..self.blocks[self.block_at(id)] },
                ),
            }
        } else {
            self
        }
    }

    /// What `read_block` returns: the requested byte range of the block, or
    /// `BlockNotFound` when no disk holds the id, or `ReadBlockError` when
    /// the range does not lie within the block (a short read).
    pub open spec fn read_result(self, id: u128, start: int, end: int) -> Result<
        Seq<u8>,
        DataNodeErrorV,
    > {
        if !self.has_block(id) {
            Err(DataNodeErrorV::BlockNotFound(dec_digits(id as nat)))
        } else if !(0 <= start <= end <= self.block_data(id).len()) {
            Err(DataNodeErrorV::ReadBlockError(dec_digits(id as nat)))
        } else {
            Ok(self.block_data(id).subrange(start, end))
        }
    }

    /// What `delete_block` returns: the block must exist.
    pub open spec fn delete_result(self, id: u128) -> Result<(), DataNodeErrorV> {
        if !self.has_block(id) {
            Err(DataNodeErrorV::BlockNotFound(dec_digits(id as nat)))
        } else {
            Ok(())
        }
    }

    /// The state after `delete_block`: the block is removed; the owning
    /// disk's reserved capacity is deliberately not released.
    pub open spec fn delete_state(self, id: u128) -> DataNodeV {
        if self.has_block(id) {
            DataNodeV { info: self.info, blocks: self.blocks.remove(self.block_at(id)) }
        } else {
            self
        }
    }
}

/// Under unique ids, any index holding `id` is the index `block_at` names.
pub proof fn lemma_block_at_unique(s: DataNodeV, id: u128, i: int)
    requires
        s.wf(),
        0 <= i < s.blocks.len(),
        s.blocks[i].id == id,
    ensures
        s.has_block(id),
        s.block_at(id) == i,
{
    assert(s.has_block(id));
    let j = s.block_at(id);
    assert(0 <= j < s.blocks.len() && s.blocks[j].id == id);
    if i < j {
        assert(s.blocks[i].id != s.blocks[j].id);
    } else if j < i {
        assert(s.blocks[j].id != s.blocks[i].id);
    }
}

/// The block storage engine.
pub struct DataNode {
    /// The configuration state: registry, capacity counters, limits.
    pub data_node_info: DataNodeInfo,
    /// The stored blocks, in creation order; linear search resolves an id to
    /// its owning disk, first match winning.
    pub blocks: Vec<BlockEntry>,
}

impl View for DataNode {
    type V = DataNodeV;

    open spec fn view(&self) -> DataNodeV {
        DataNodeV { info: self.data_node_info@, blocks: block_views(self.blocks@) }
    }
}

impl DataNode {
    /// Well-formedness of the whole engine state.
    pub open spec fn wf(self) -> bool {
        self@.wf()
    }

    /// Starts the engine over a freshly built configuration state, with no
    /// blocks indexed yet. (The caller creates each disk's working directory
    /// and re-persists the fingerprint around this.)
    pub fn new(data_node_info: DataNodeInfo) -> (r: DataNode)
        requires
            data_node_info.wf(),
        ensures
            r.wf(),
            r@.info == data_node_info@,
            r@.blocks == Seq::<BlockEntryV>::empty(),
    {
        let r = DataNode { data_node_info, blocks: Vec::new() };
        proof {
            assert(block_views(r.blocks@) =~= Seq::<BlockEntryV>::empty());
        }
        r
    }

    /// The configuration state the engine runs under.
    pub fn get_data_node_info(&self) -> (r: &DataNodeInfo)
        ensures
            *r == self.data_node_info,
    {
        &self.data_node_info
    }

    /// Finds the block with this id by linear search, first match winning.
    fn find_block(&self, id: u128) -> (r: Option<usize>)
        ensures
            match r {
                Some(i) => 0 <= i < self@.blocks.len() && self@.blocks[i as int].id == id,
                None => !self@.has_block(id),
            },
    {
        let mut i: usize = 0;
        while i < self.blocks.len()
            invariant
                i <= self@.blocks.len(),
                self@.blocks.len() == self.blocks@.len(),
                forall|j: int| 0 <= j < i ==> (#[trigger] self@.blocks[j]).id != id,
            decreases self@.blocks.len() - i,
        {
            if self.blocks[i].id == id {
                return Some(i);
            }
            i = i + 1;
        }
        proof {
            assert(forall|j: int|
                0 <= j < self@.blocks.len() ==> (#[trigger] self@.blocks[j]).id != id);
        }
        None
    }

    /// Creates a block under a given id: selects a disk first-fit and
    /// reserves one block's worth of capacity on it (`NoSpace`, changing
    /// nothing, exactly when no disk has room), then stores a new empty
    /// block under the id. If the id is already taken the creation fails
    /// with `CreateBlockError` carrying the id — and the reservation made
    /// just before is deliberately not rolled back.
    pub fn create_block_with_id(&mut self, id: u128) -> (r: Result<(), DataNodeError>)
        requires
            old(self).wf(),
        ensures
            (*final(self)).wf(),
            res_view(r) == Err::<(), DataNodeErrorV>(DataNodeErrorV::NoSpace)
                <==> !old(self)@.some_disk_fits(),
            res_view(r) == Err::<(), DataNodeErrorV>(DataNodeErrorV::NoSpace) ==> *final(self)
                == *old(self),
            old(self)@.some_disk_fits() && !old(self)@.has_block(id) ==> res_view(r) is Ok,
            old(self)@.has_block(id) ==> !(res_view(r) is Ok),
            match res_view(r) {
                Ok(()) => {
                    &&& !old(self)@.has_block(id)
                    &&& exists|d: int|
                        #[trigger] old(self)@.is_first_fit(d)
                            && final(self)@ == old(self)@.create_state(id, d)
                },
                Err(e) => {
                    &&& (e matches DataNodeErrorV::NoSpace || e matches
                        DataNodeErrorV::CreateBlockError(_))
                    &&& e matches DataNodeErrorV::CreateBlockError(msg) ==> {
                        &&& msg == dec_digits(id as nat)
                        &&& old(self)@.has_block(id)
                        &&& final(self)@.blocks == old(self)@.blocks
                        &&& exists|d: int|
                            #[trigger] old(self)@.is_first_fit(d)
                                && final(self)@.info == old(self)@.reserve_state(d)
                    }
                },
            },
    {
        let ghost pre = self@;
        match self.data_node_info.get_disk_for_new_block() {
            Err(e) => {
                proof {
                    assert(block_views(self.blocks@) =~= pre.blocks);
                }
                Err(e)
            },
            Ok(d) => {
                proof {
                    assert(pre.is_first_fit(d as int));
                }
                match self.find_block(id) {
                    Some(_) => {
                        proof {
                            assert(block_views(self.blocks@) =~= pre.blocks);
                            assert(self@.info == pre.reserve_state(d as int));
                        }
                        Err(DataNodeError::CreateBlockError(u128_to_dec_string(id)))
                    },
                    None => {
                        self.blocks.push(BlockEntry { id, disk: d, data: Vec::new() });
                        proof {
                            assert(block_views(self.blocks@) =~= pre.blocks.push(
                                BlockEntryV { id, disk: d as int, data: Seq::empty() },
                            ));
                            assert(self@ == pre.create_state(id, d as int));
                            assert forall|i: int, j: int|
                                0 <= i < j < self@.blocks.len() implies self@.blocks[i].id
                                != self@.blocks[j].id by {
                                if j == self@.blocks.len() - 1 {
                                    assert(!pre.has_block(id));
                                }
                            }
                        }
                        Ok(())
                    },
                }
            },
        }
    }

    /// Creates a new block: draws a fresh random id, reserves capacity
    /// first-fit, and stores a new empty block under the id. Fails with
    /// `NoSpace`, changing nothing, exactly when no disk has room; fails
    /// with `CreateBlockError` only when the freshly drawn id collides with
    /// an existing block, in which case the reservation made just before is
    /// deliberately kept; with room and an empty store, where no drawn id
    /// can collide, success is owed.
    pub fn create_block(&mut self) -> (r: Result<u128, DataNodeError>)
        requires
            old(self).wf(),
        ensures
            (*final(self)).wf(),
            !old(self)@.some_disk_fits() <==> (r matches Err(e) && e@ == DataNodeErrorV::NoSpace),
            r matches Err(e) && e@ == DataNodeErrorV::NoSpace ==> *final(self) == *old(self),
            old(self)@.some_disk_fits() && old(self)@.blocks.len() == 0 ==> res_view(r) is Ok,
            match res_view(r) {
                Ok(id) => {
                    &&& !old(self)@.has_block(id)
                    &&& exists|d: int|
                        #[trigger] old(self)@.is_first_fit(d)
                            && final(self)@ == old(self)@.create_state(id, d)
                },
                Err(e) => {
                    &&& (e matches DataNodeErrorV::NoSpace || e matches
                        DataNodeErrorV::CreateBlockError(_))
                    &&& e matches DataNodeErrorV::CreateBlockError(msg) ==> {
                        &&& exists|taken: u128|
                            msg == #[trigger] dec_digits(taken as nat) && old(self)@.has_block(
                                taken,
                            )
                        &&& final(self)@.blocks == old(self)@.blocks
                        &&& exists|d: int|
                            #[trigger] old(self)@.is_first_fit(d)
                                && final(self)@.info == old(self)@.reserve_state(d)
                    }
                },
            },
    {
        let id = fresh_block_id();
        match self.create_block_with_id(id) {
            Ok(_) => Ok(id),
            Err(e) => {
                proof {
                    if e@ is CreateBlockError {
                        assert(dec_digits(id as nat) == dec_digits(id as nat));
                    }
                }
                Err(e)
            },
        }
    }

    /// Reads `start..end` of the block's bytes: `BlockNotFound` when no disk
    /// holds the id, `ReadBlockError` when the range does not lie within the
    /// block, else exactly those bytes.
    pub fn read_block(&self, id: u128, start: usize, end: usize) -> (r: Result<
        Vec<u8>,
        DataNodeError,
    >)
        requires
            self.wf(),
        ensures
            res_view(r) == self@.read_result(id, start as int, end as int),
    {
        match self.find_block(id) {
            None => Err(DataNodeError::BlockNotFound(u128_to_dec_string(id))),
            Some(i) => {
                proof {
                    lemma_block_at_unique(self@, id, i as int);
                }
                let entry = &self.blocks[i];
                if start > end || end > entry.data.len() {
                    Err(DataNodeError::ReadBlockError(u128_to_dec_string(id)))
                } else {
                    let r = slice_to_vec(slice_subrange(entry.data.as_slice(), start, end));
                    proof {
                        assert(r@ =~= self@.block_data(id).subrange(start as int, end as int));
                    }
                    Ok(r)
                }
            },
        }
    }

    /// Overwrites the block's bytes with `data` (a full overwrite, not an
    /// append). Rejects a payload over the block-size ceiling with
    /// `BlockOverflow`, before anything is touched and leaving the block's
    /// prior contents unchanged; then the block must exist.
    pub fn update_block(&mut self, id: u128, data: &[u8]) -> (r: Result<(), DataNodeError>)
        requires
            old(self).wf(),
        ensures
            (*final(self)).wf(),
            res_view(r) == old(self)@.update_result(id, data@.len() as int),
            final(self)@ == old(self)@.update_state(id, data@),
    {
        let ghost pre = self@;
        if data.len() > self.data_node_info.block_size as usize {
            return Err(
                DataNodeError::BlockOverflow(
                    self.data_node_info.block_size as usize,
                    data.len(),
                ),
            );
        }
        match self.find_block(id) {
            None => Err(DataNodeError::BlockNotFound(u128_to_dec_string(id))),
            Some(i) => {
                proof {
                    lemma_block_at_unique(pre, id, i as int);
                }
                let ghost old_entry = pre.blocks[i as int];
                let mut entry = self.blocks.remove(i);
                entry.data = slice_to_vec(data);
                self.blocks.insert(i, entry);
                proof {
                    assert(block_views(self.blocks@) =~= pre.blocks.update(
                        i as int,
                        BlockEntryV { data: data@, ..old_entry },
                    ));
                    assert(self@ == pre.update_state(id, data@));
                    assert forall|a: int, b: int|
                        0 <= a < b < self@.blocks.len() implies self@.blocks[a].id
                        != self@.blocks[b].id by {
                        assert(pre.blocks[a].id != pre.blocks[b].id);
                    }
                }
                Ok(())
            },
        }
    }

    /// Removes the block: `BlockNotFound` when no disk holds the id. The
    /// owning disk's reserved capacity is deliberately not released.
    pub fn delete_block(&mut self, id: u128) -> (r: Result<(), DataNodeError>)
        requires
            old(self).wf(),
        ensures
            (*final(self)).wf(),
            res_view(r) == old(self)@.delete_result(id),
            final(self)@ == old(self)@.delete_state(id),
    {
        let ghost pre = self@;
        match self.find_block(id) {
            None => Err(DataNodeError::BlockNotFound(u128_to_dec_string(id))),
            Some(i) => {
                proof {
                    lemma_block_at_unique(pre, id, i as int);
                }
                self.blocks.remove(i);
                proof {
                    assert(block_views(self.blocks@) =~= pre.blocks.remove(i as int));
                    assert(self@ == pre.delete_state(id));
                    assert forall|a: int, b: int|
                        0 <= a < b < self@.blocks.len() implies self@.blocks[a].id
                        != self@.blocks[b].id by {
                        let pa = if a < i as int {
                            a
                        } else {
                            a + 1
                        };
                        let pb = if b < i as int {
                            b
                        } else {
                            b + 1
                        };
                        assert(pre.blocks[pa].id != pre.blocks[pb].id);
                    }
                }
                Ok(())
            },
        }
    }

    /// Resolves a block to its owning disk's registry index and its current
    /// size in bytes: `BlockNotFound` when no disk holds the id.
    pub fn get_block_info(&self, id: u128) -> (r: Result<(usize, usize), DataNodeError>)
        requires
            self.wf(),
        ensures
            match r {
                Ok(p) => self@.has_block(id) && p.0 == self@.block_disk(id) && p.1
                    == self@.block_data(id).len(),
                Err(e) => !self@.has_block(id) && e@ == DataNodeErrorV::BlockNotFound(
                    dec_digits(id as nat),
                ),
            },
    {
        match self.find_block(id) {
            None => Err(DataNodeError::BlockNotFound(u128_to_dec_string(id))),
            Some(i) => {
                proof {
                    lemma_block_at_unique(self@, id, i as int);
                }
                let entry = &self.blocks[i];
                Ok((entry.disk, entry.data.len()))
            },
        }
    }
}

/// Round trip: creating a block, overwriting it with any payload within the
/// block-size ceiling, and reading it back in full yields exactly that
/// payload.
pub proof fn lemma_round_trip(s: DataNodeV, id: u128, d: int, data: Seq<u8>)
    requires
        s.wf(),
        !s.has_block(id),
        0 <= d < s.info.disks.len(),
        disk_fits(s.info.disks[d], s.info.block_size),
        data.len() <= s.info.block_size,
    ensures
        ({
            let created = s.create_state(id, d);
            let updated = created.update_state(id, data);
            updated.read_result(id, 0, data.len() as int) == Ok::<Seq<u8>, DataNodeErrorV>(data)
        }),
{
    let created = s.create_state(id, d);
    let n = created.blocks.len() - 1;
    assert(created.blocks[n].id == id);
    assert forall|i: int, j: int|
        0 <= i < j < created.blocks.len() implies created.blocks[i].id != created.blocks[j].id by {
        if j < n {
            assert(s.blocks[i].id != s.blocks[j].id);
        } else {
            assert(!s.has_block(id));
        }
    }
    lemma_blocks_at_unique(created.blocks, id, n);
    assert(created.has_block(id) && created.block_at(id) == n);
    let updated = created.update_state(id, data);
    assert(updated.blocks[n].id == id);
    assert forall|i: int, j: int|
        0 <= i < j < updated.blocks.len() implies updated.blocks[i].id != updated.blocks[j].id by {
        assert(created.blocks[i].id != created.blocks[j].id);
    }
    lemma_blocks_at_unique(updated.blocks, id, n);
    assert(updated.block_data(id) == data);
    assert(updated.block_data(id).subrange(0, data.len() as int) =~= data);
}

/// Under unique ids, any index holding `id` is the index `blocks_at` names.
proof fn lemma_blocks_at_unique(blocks: Seq<BlockEntryV>, id: u128, i: int)
    requires
        forall|a: int, b: int| 0 <= a < b < blocks.len() ==> blocks[a].id != blocks[b].id,
        0 <= i < blocks.len(),
        blocks[i].id == id,
    ensures
        blocks_have(blocks, id),
        blocks_at(blocks, id) == i,
{
    assert(blocks_have(blocks, id));
    let j = blocks_at(blocks, id);
    assert(0 <= j < blocks.len() && blocks[j].id == id);
    if i < j {
        assert(blocks[i].id != blocks[j].id);
    } else if j < i {
        assert(blocks[j].id != blocks[i].id);
    }
}

/// Overflow rejection: an update whose payload exceeds the block-size
/// ceiling always fails with `BlockOverflow` carrying the ceiling and the
/// payload size, and leaves the whole state — the block's prior contents
/// included — unchanged.
pub proof fn lemma_overflow_rejection(s: DataNodeV, id: u128, data: Seq<u8>)
    requires
        data.len() > s.info.block_size,
    ensures
        s.update_result(id, data.len() as int) == Err::<(), DataNodeErrorV>(
            DataNodeErrorV::BlockOverflow(s.info.block_size as int, data.len() as int),
        ),
        s.update_state(id, data) == s,
{
}

/// Delete then read: once a delete succeeded, any read of that id fails
/// with `BlockNotFound`.
pub proof fn lemma_delete_then_read(s: DataNodeV, id: u128, start: int, end: int)
    requires
        s.wf(),
        s.delete_result(id) is Ok,
    ensures
        s.delete_state(id).read_result(id, start, end) == Err::<Seq<u8>, DataNodeErrorV>(
            DataNodeErrorV::BlockNotFound(dec_digits(id as nat)),
        ),
{
    let at = s.block_at(id);
    assert(0 <= at < s.blocks.len() && s.blocks[at].id == id);
    let after = s.delete_state(id);
    assert forall|i: int| 0 <= i < after.blocks.len() implies (#[trigger] after.blocks[i]).id
        != id by {
        let pi = if i < at {
            i
        } else {
            i + 1
        };
        assert(after.blocks[i] == s.blocks[pi]);
        if pi < at {
            assert(s.blocks[pi].id != s.blocks[at].id);
        } else {
            assert(s.blocks[at].id != s.blocks[pi].id);
        }
    }
    assert(!after.has_block(id));
}

/// Capacity invariant: in every well-formed engine state, every disk's used
/// space is within its capacity. `create_block` fails with `NoSpace` rather
/// than violate this.
pub proof fn lemma_capacity_invariant(s: DataNodeV)
    requires
        s.wf(),
    ensures
        forall|i: int|
            0 <= i < s.info.disks.len() ==> (#[trigger] s.info.disks[i]).used_space
                <= s.info.disks[i].total_space,
{
}

/// Concurrent reads: reads do not change the engine, so any number of reads
/// of the same id and range against the same state return identical bytes.
pub proof fn lemma_reads_agree(
    s: DataNodeV,
    id: u128,
    start: int,
    end: int,
    r1: Result<Seq<u8>, DataNodeErrorV>,
    r2: Result<Seq<u8>, DataNodeErrorV>,
)
    requires
        r1 == s.read_result(id, start, end),
        r2 == s.read_result(id, start, end),
    ensures
        r1 == r2,
{
}

} // verus!
