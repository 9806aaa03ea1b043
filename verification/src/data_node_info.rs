//! Engine configuration state: the disk registry, the capacity totals, and
//! the startup fingerprint check.
//!
//! Built once at startup from the configuration, a filesystem scan of the
//! candidate volumes, and the fingerprint read back from the sidecar file.
//! Construction refuses to proceed when the fingerprint guard detects an
//! unsafe block-size change; the caller performs the sidecar and directory
//! I/O around it.

use crate::config::spec_working_directory;
use crate::config::working_directory_name;
use crate::config::Config;
use crate::disk::disk_views;
use crate::disk::get_disks;
use crate::disk::lemma_sum_take_le;
use crate::disk::lemma_sum_take_step;
use crate::disk::lemma_sum_update;
use crate::disk::lemma_sum_used_le_total;
use crate::disk::sorted_desc;
use crate::disk::spec_registry;
use crate::disk::sum_total;
use crate::disk::sum_used;
use crate::disk::DiskScan;
use crate::disk::DiskStats;
use crate::disk::DiskStatsV;
use crate::error::DataNodeError;
use crate::error::DataNodeErrorV;
use crate::fingerprint::check_fingerprint;
use crate::fingerprint::spec_check_fingerprint;
use crate::fingerprint::StartupError;
use vstd::prelude::*;

verus! {

/// The per-node configuration state the engine works against.
pub struct DataNodeInfo {
    /// Listen port, kept for the surrounding process.
    pub port: u16,
    /// Name of the per-block-size working directory on every disk.
    pub working_directory: String,
    /// Ceiling for any single block's payload, in bytes.
    pub block_size: u32,
    /// Chunk size of the streaming read path, in bytes.
    pub read_buffer: usize,
    /// Sum of all disks' adjusted capacities.
    pub total_space: u64,
    /// The disk registry, ordered by descending available space.
    pub disks: Vec<DiskStats>,
}

/// Abstract value of a [`DataNodeInfo`].
pub struct DataNodeInfoV {
    pub port: u16,
    pub working_directory: Seq<char>,
    pub block_size: u32,
    pub read_buffer: usize,
    pub total_space: u64,
    pub disks: Seq<DiskStatsV>,
}

impl View for DataNodeInfo {
    type V = DataNodeInfoV;

    open spec fn view(&self) -> DataNodeInfoV {
        DataNodeInfoV {
            port: self.port,
            working_directory: self.working_directory@,
            block_size: self.block_size,
            read_buffer: self.read_buffer,
            total_space: self.total_space,
            disks: disk_views(self.disks@),
        }
    }
}

/// Whether a disk has room for one more block of `block_size` bytes.
pub open spec fn disk_fits(d: DiskStatsV, block_size: u32) -> bool {
    d.used_space + block_size <= d.total_space
}

impl DataNodeInfoV {
    /// Well-formedness: every disk satisfies its capacity invariant, the
    /// recorded total is the sum of the disks' capacities, and the streaming
    /// chunk size is usable.
    pub open spec fn wf(self) -> bool {
        &&& forall|i: int| 0 <= i < self.disks.len() ==> (#[trigger] self.disks[i]).wf()
        &&& self.total_space == sum_total(self.disks)
        &&& self.read_buffer > 0
    }
}

impl DataNodeInfo {
    /// Well-formedness of the configuration state.
    pub open spec fn wf(self) -> bool {
        self@.wf()
    }

    /// Builds the configuration state: derives the working directory name,
    /// discovers the disk registry from the scan, sums the capacity
    /// counters, and consults the fingerprint guard. Refuses to start when
    /// the guard reports an unsafe block-size change.
    ///
    /// The capacity sum fitting 64 bits is a machine limit the caller
    /// checks before constructing.
    pub fn new(config: Config, scans: Vec<DiskScan>, stored_fingerprint: Option<u64>) -> (r:
        Result<DataNodeInfo, StartupError>)
        requires
            config.read_buffer > 0,
            sum_total(spec_registry(scans@.map_values(|s: DiskScan| s@), config.block_size))
                <= u64::MAX,
        ensures
            ({
                let registry = spec_registry(
                    scans@.map_values(|s: DiskScan| s@),
                    config.block_size,
                );
                let used = sum_used(registry);
                match r {
                    Ok(info) => {
                        &&& spec_check_fingerprint(
                            stored_fingerprint,
                            config.block_size,
                            used as u64,
                        ) is Ok
                        &&& info.wf()
                        &&& info@.port == config.port
                        &&& info@.block_size == config.block_size
                        &&& info@.read_buffer == config.read_buffer
                        &&& info@.working_directory == spec_working_directory(
                            config.working_directory@,
                            config.block_size,
                        )
                        &&& info@.total_space == sum_total(registry)
                        &&& info@.disks.to_multiset() == registry.to_multiset()
                        &&& sum_used(info@.disks) == used
                        &&& sorted_desc(info@.disks)
                    },
                    Err(e) => spec_check_fingerprint(
                        stored_fingerprint,
                        config.block_size,
                        used as u64,
                    ) == Err::<(), StartupError>(e),
                }
            }),
    {
        let block_size = config.block_size;
        let working_directory = working_directory_name(
            config.working_directory.as_str(),
            block_size,
        );
        let ghost registry = spec_registry(scans@.map_values(|s: DiskScan| s@), block_size);
        let disks = get_disks(scans, block_size);
        let ghost dv = disk_views(disks@);
        proof {
            lemma_sum_used_le_total(dv);
            assert(dv.take(0) =~= Seq::<DiskStatsV>::empty());
        }
        let mut total_space: u64 = 0;
        let mut used_space: u64 = 0;
        let mut i: usize = 0;
        while i < disks.len()
            invariant
                i <= disks@.len(),
                dv == disk_views(disks@),
                forall|j: int| 0 <= j < dv.len() ==> (#[trigger] dv[j]).wf(),
                0 <= sum_used(dv) <= sum_total(dv) <= u64::MAX,
                total_space == sum_total(dv.take(i as int)),
                used_space == sum_used(dv.take(i as int)),
            decreases disks@.len() - i,
        {
            proof {
                lemma_sum_take_step(dv, i as int);
                lemma_sum_take_le(dv, i as int + 1);
                lemma_sum_used_le_total(dv.take(i as int + 1));
                lemma_sum_used_le_total(dv.take(i as int));
            }
            total_space = total_space + disks[i].total_space;
            used_space = used_space + disks[i].used_space;
            i = i + 1;
        }
        proof {
            assert(dv.take(disks@.len() as int) =~= dv);
        }
        match check_fingerprint(stored_fingerprint, block_size, used_space) {
            Err(e) => Err(e),
            Ok(_) => Ok(
                DataNodeInfo {
                    port: config.port,
                    working_directory,
                    block_size,
                    read_buffer: config.read_buffer,
                    total_space,
                    disks,
                },
            ),
        }
    }

    /// Picks the disk for a new block by scanning the registry in order and
    /// taking the first disk with room for one full block (first-fit), and
    /// reserves that capacity on it at once. Fails with `NoSpace`, changing
    /// nothing, exactly when no disk has room.
    pub fn get_disk_for_new_block(&mut self) -> (r: Result<usize, DataNodeError>)
        requires
            old(self).wf(),
        ensures
            (*final(self)).wf(),
            match r {
                Ok(i) => {
                    &&& 0 <= i < old(self)@.disks.len()
                    &&& disk_fits(old(self)@.disks[i as int], old(self)@.block_size)
                    &&& forall|j: int|
                        0 <= j < i ==> !disk_fits(
                            #[trigger] old(self)@.disks[j],
                            old(self)@.block_size,
                        )
                    &&& final(self)@ == (DataNodeInfoV {
                        disks: old(self)@.disks.update(
                            i as int,
                            DiskStatsV {
                                used_space: (old(self)@.disks[i as int].used_space
                                    + old(self)@.block_size) as u64,
                                ..old(self)@.disks[i as int]
                            },
                        ),
                        ..old(self)@
                    })
                },
                Err(e) => {
                    &&& e@ == DataNodeErrorV::NoSpace
                    &&& *final(self) == *old(self)
                    &&& forall|j: int|
                        0 <= j < old(self)@.disks.len() ==> !disk_fits(
                            #[trigger] old(self)@.disks[j],
                            old(self)@.block_size,
                        )
                },
            },
    {
        let block_size = self.block_size as u64;
        let n = self.disks.len();
        let mut i: usize = 0;
        while i < n
            invariant
                *self == *old(self),
                self.wf(),
                n == self.disks@.len(),
                block_size == self.block_size as u64,
                i <= n,
                forall|j: int|
                    0 <= j < i ==> !disk_fits(#[trigger] self@.disks[j], self@.block_size),
            decreases n - i,
        {
            proof {
                assert(self@.disks[i as int].wf());
                assert(self@.disks[i as int] == self.disks@[i as int]@);
            }
            if block_size <= self.disks[i].available() {
                let ghost pre = self@.disks;
                let mut d = self.disks.remove(i);
                let ok = d.try_reserve(block_size);
                assert(ok);
                self.disks.insert(i, d);
                proof {
                    assert(disk_views(self.disks@) =~= pre.update(i as int, d@));
                    lemma_sum_update(pre, i as int, d@);
                }
                return Ok(i);
            }
            i = i + 1;
        }
        Err(DataNodeError::NoSpace)
    }

    /// Caps the space this node may use: the configured ceiling when one is
    /// set and smaller than the largest volume's available space, else that
    /// volume's available space.
    pub fn get_total_space(disk_usage: Option<u64>, largest_available: u64) -> (r: u64)
        ensures
            r == match disk_usage {
                Some(ceiling) => if ceiling <= largest_available {
                    ceiling
                } else {
                    largest_available
                },
                None => largest_available,
            },
    {
        match disk_usage {
            Some(ceiling) => {
                if ceiling <= largest_available {
                    ceiling
                } else {
                    largest_available
                }
            },
            None => largest_available,
        }
    }
}

} // verus!
