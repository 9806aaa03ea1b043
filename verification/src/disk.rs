//! Disk descriptors and the disk registry.
//!
//! A disk is one writable mounted volume. Its capacity is adjusted at
//! discovery time to include the blocks already present in its working
//! directory (counted as `existing blocks x block size`, an approximation),
//! so that "available" reflects true free space under this engine's own
//! accounting. The registry excludes read-only volumes and orders the rest by
//! descending available space, to support simple greedy allocation.

use vstd::prelude::*;
use vstd::seq_lib::group_to_multiset_ensures;

verus! {

/// What a filesystem scan reports about one candidate volume: its mount
/// point, the free space the OS reports, whether it is read-only, and how
/// many block files its working directory already holds.
pub struct DiskScan {
    pub mount: String,
    pub available_space: u64,
    pub readonly: bool,
    pub existing_blocks: u64,
}

/// Abstract value of a [`DiskScan`].
pub struct DiskScanV {
    pub mount: Seq<char>,
    pub available_space: u64,
    pub readonly: bool,
    pub existing_blocks: u64,
}

impl View for DiskScan {
    type V = DiskScanV;

    open spec fn view(&self) -> DiskScanV {
        DiskScanV {
            mount: self.mount@,
            available_space: self.available_space,
            readonly: self.readonly,
            existing_blocks: self.existing_blocks,
        }
    }
}

/// One writable volume tracked by the engine, with its own capacity
/// accounting.
pub struct DiskStats {
    /// Filesystem path identifying the volume.
    pub mount: String,
    /// Capacity in bytes, adjusted at discovery time to include the space of
    /// already-present blocks.
    pub total_space: u64,
    /// Bytes currently reserved for blocks on this disk.
    pub used_space: u64,
}

/// Abstract value of a [`DiskStats`].
pub struct DiskStatsV {
    pub mount: Seq<char>,
    pub total_space: u64,
    pub used_space: u64,
}

impl View for DiskStats {
    type V = DiskStatsV;

    open spec fn view(&self) -> DiskStatsV {
        DiskStatsV {
            mount: self.mount@,
            total_space: self.total_space,
            used_space: self.used_space,
        }
    }
}

impl DiskStatsV {
    /// Capacity invariant: the used-space counter never exceeds the disk's
    /// capacity.
    pub open spec fn wf(self) -> bool {
        self.used_space <= self.total_space
    }

    /// Bytes still free for new blocks under this engine's accounting.
    pub open spec fn available(self) -> int {
        self.total_space - self.used_space
    }
}

/// The disk descriptor a scan result qualifies for: `None` when the volume is
/// read-only (it is silently excluded from the registry) or when its adjusted
/// capacity does not fit in 64 bits.
pub open spec fn scan_disk(s: DiskScanV, block_size: u32) -> Option<DiskStatsV> {
    let used = s.existing_blocks * block_size;
    let total = s.available_space + used;
    if s.readonly || total > u64::MAX {
        None
    } else {
        Some(DiskStatsV { mount: s.mount, total_space: total as u64, used_space: used as u64 })
    }
}

impl DiskStats {
    /// Builds the descriptor of one scanned volume, or excludes it.
    ///
    /// The already-used space is estimated as the number of pre-existing
    /// block files times the configured block size, and the capacity is the
    /// reported free space plus that estimate.
    pub fn new(scan: DiskScan, block_size: u32) -> (r: Option<DiskStats>)
        ensures
            match r {
                Some(d) => scan_disk(scan@, block_size) == Some(d@) && d@.wf(),
                None => scan_disk(scan@, block_size) is None,
            },
    {
        if scan.readonly {
            return None;
        }
        proof {
            assert((scan.existing_blocks as int) * (block_size as int) < 0x1_0000_0000_0000_0000_0000_0000
                && (scan.existing_blocks as int) * (block_size as int) >= 0) by (nonlinear_arith)
                requires
                    scan.existing_blocks <= u64::MAX,
                    block_size <= u32::MAX,
            ;
        }
        let used: u128 = (scan.existing_blocks as u128) * (block_size as u128);
        let total: u128 = (scan.available_space as u128) + used;
        if total > u64::MAX as u128 {
            return None;
        }
        Some(
            DiskStats {
                mount: scan.mount,
                total_space: total as u64,
                used_space: used as u64,
            },
        )
    }

    /// Capacity invariant of this disk.
    pub open spec fn wf(self) -> bool {
        self@.wf()
    }

    /// Bytes still free for new blocks.
    pub fn available(&self) -> (r: u64)
        requires
            self.wf(),
        ensures
            r == self@.available(),
    {
        self.total_space - self.used_space
    }

    /// Reserves `bytes` on this disk if they fit, under exclusive access to
    /// the counter; a failed reservation changes nothing.
    pub fn try_reserve(&mut self, bytes: u64) -> (ok: bool)
        requires
            old(self).wf(),
        ensures
            (*final(self)).wf(),
            ok == (old(self).used_space + bytes <= old(self).total_space),
            ok ==> final(self)@ == (DiskStatsV {
                used_space: (old(self).used_space + bytes) as u64,
                ..old(self)@
            }),
            !ok ==> *final(self) == *old(self),
    {
        if bytes <= self.total_space - self.used_space {
            self.used_space = self.used_space + bytes;
            true
        } else {
            false
        }
    }

    /// Releases `bytes` back to this disk, saturating at zero.
    pub fn release(&mut self, bytes: u64)
        requires
            old(self).wf(),
        ensures
            (*final(self)).wf(),
            final(self)@ == (DiskStatsV {
                used_space: if bytes <= old(self).used_space {
                    (old(self).used_space - bytes) as u64
                } else {
                    0u64
                },
                ..old(self)@
            }),
    {
        if bytes <= self.used_space {
            self.used_space = self.used_space - bytes;
        } else {
            self.used_space = 0;
        }
    }
}

/// The descriptors the scanned volumes qualify for, in scan order.
pub open spec fn spec_registry(scans: Seq<DiskScanV>, block_size: u32) -> Seq<DiskStatsV>
    decreases scans.len(),
{
    if scans.len() == 0 {
        Seq::empty()
    } else {
        spec_registry(scans.drop_last(), block_size) + match scan_disk(scans.last(), block_size) {
            Some(d) => seq![d],
            None => Seq::empty(),
        }
    }
}

/// Total capacity across a sequence of disks.
pub open spec fn sum_total(s: Seq<DiskStatsV>) -> int
    decreases s.len(),
{
    if s.len() == 0 {
        0
    } else {
        sum_total(s.drop_last()) + s.last().total_space
    }
}

/// Total used space across a sequence of disks.
pub open spec fn sum_used(s: Seq<DiskStatsV>) -> int
    decreases s.len(),
{
    if s.len() == 0 {
        0
    } else {
        sum_used(s.drop_last()) + s.last().used_space
    }
}

/// Removing one disk removes exactly its contribution from both sums.
pub proof fn lemma_sum_remove(s: Seq<DiskStatsV>, j: int)
    requires
        0 <= j < s.len(),
    ensures
        sum_total(s.remove(j)) == sum_total(s) - s[j].total_space,
        sum_used(s.remove(j)) == sum_used(s) - s[j].used_space,
    decreases s.len(),
{
    if j == s.len() - 1 {
        assert(s.remove(j) =~= s.drop_last());
    } else {
        let t = s.drop_last();
        lemma_sum_remove(t, j);
        assert(s.remove(j).drop_last() =~= t.remove(j));
        assert(s.remove(j).last() == s.last());
    }
}

/// Replacing one disk shifts both sums by the difference it brings.
pub proof fn lemma_sum_update(s: Seq<DiskStatsV>, j: int, d: DiskStatsV)
    requires
        0 <= j < s.len(),
    ensures
        sum_total(s.update(j, d)) == sum_total(s) - s[j].total_space + d.total_space,
        sum_used(s.update(j, d)) == sum_used(s) - s[j].used_space + d.used_space,
    decreases s.len(),
{
    if j == s.len() - 1 {
        assert(s.update(j, d).drop_last() =~= s.drop_last());
        assert(s.update(j, d).last() == d);
    } else {
        lemma_sum_update(s.drop_last(), j, d);
        assert(s.update(j, d).drop_last() =~= s.drop_last().update(j, d));
        assert(s.update(j, d).last() == s.last());
    }
}

/// One step of a prefix sum.
pub proof fn lemma_sum_take_step(s: Seq<DiskStatsV>, i: int)
    requires
        0 <= i < s.len(),
    ensures
        sum_total(s.take(i + 1)) == sum_total(s.take(i)) + s[i].total_space,
        sum_used(s.take(i + 1)) == sum_used(s.take(i)) + s[i].used_space,
{
    assert(s.take(i + 1).drop_last() =~= s.take(i));
    assert(s.take(i + 1).last() == s[i]);
}

/// A prefix sum never exceeds the whole: every contribution is nonnegative.
pub proof fn lemma_sum_take_le(s: Seq<DiskStatsV>, i: int)
    requires
        0 <= i <= s.len(),
    ensures
        sum_total(s.take(i)) <= sum_total(s),
        sum_used(s.take(i)) <= sum_used(s),
    decreases s.len() - i,
{
    if i == s.len() {
        assert(s.take(i) =~= s);
    } else {
        lemma_sum_take_step(s, i);
        lemma_sum_take_le(s, i + 1);
    }
}

/// Across well-formed disks, the used sum is bounded by the capacity sum,
/// and both are nonnegative.
pub proof fn lemma_sum_used_le_total(s: Seq<DiskStatsV>)
    requires
        forall|i: int| 0 <= i < s.len() ==> (#[trigger] s[i]).wf(),
    ensures
        0 <= sum_used(s) <= sum_total(s),
    decreases s.len(),
{
    if s.len() > 0 {
        assert(s.last().wf());
        lemma_sum_used_le_total(s.drop_last());
    }
}

/// Disks ordered by descending available space.
pub open spec fn sorted_desc(s: Seq<DiskStatsV>) -> bool {
    forall|i: int, j: int| 0 <= i < j < s.len() ==> s[i].available() >= s[j].available()
}

/// The views of a sequence of disks.
pub open spec fn disk_views(s: Seq<DiskStats>) -> Seq<DiskStatsV> {
    s.map_values(|d: DiskStats| d@)
}

/// Sorts disks by descending available space (selection sort; the tie-break
/// is irrelevant to callers).
fn sort_disks_desc(mut disks: Vec<DiskStats>) -> (r: Vec<DiskStats>)
    requires
        forall|i: int| 0 <= i < disks@.len() ==> (#[trigger] disks@[i]).wf(),
    ensures
        sorted_desc(disk_views(r@)),
        disk_views(r@).to_multiset() == disk_views(disks@).to_multiset(),
        sum_total(disk_views(r@)) == sum_total(disk_views(disks@)),
        sum_used(disk_views(r@)) == sum_used(disk_views(disks@)),
        forall|i: int| 0 <= i < r@.len() ==> (#[trigger] r@[i]).wf(),
{
    broadcast use group_to_multiset_ensures;

    let ghost orig = disk_views(disks@);
    let mut out: Vec<DiskStats> = Vec::new();
    proof {
        assert(disk_views(out@) =~= Seq::<DiskStatsV>::empty());
        assert(disk_views(out@).to_multiset().add(disk_views(disks@).to_multiset())
            =~= orig.to_multiset());
    }
    while disks.len() > 0
        invariant
            forall|i: int| 0 <= i < disks@.len() ==> (#[trigger] disks@[i]).wf(),
            forall|i: int| 0 <= i < out@.len() ==> (#[trigger] out@[i]).wf(),
            sorted_desc(disk_views(out@)),
            forall|i: int, j: int|
                0 <= i < out@.len() && 0 <= j < disks@.len() ==> (#[trigger] out@[i])@.available()
                    >= (#[trigger] disks@[j])@.available(),
            disk_views(out@).to_multiset().add(disk_views(disks@).to_multiset())
                == orig.to_multiset(),
            sum_total(disk_views(out@)) + sum_total(disk_views(disks@)) == sum_total(orig),
            sum_used(disk_views(out@)) + sum_used(disk_views(disks@)) == sum_used(orig),
        decreases disks@.len(),
    {
        let mut m: usize = 0;
        let mut k: usize = 1;
        while k < disks.len()
            invariant
                disks@.len() > 0,
                m < k,
                k <= disks@.len(),
                forall|i: int| 0 <= i < disks@.len() ==> (#[trigger] disks@[i]).wf(),
                forall|j: int|
                    0 <= j < k ==> disks@[m as int]@.available() >= (#[trigger] disks@[j])@.available(),
            decreases disks@.len() - k,
        {
            if disks[m].available() < disks[k].available() {
                m = k;
            }
            k = k + 1;
        }
        let ghost pre_disks = disks@;
        let ghost pre_out = out@;
        let d = disks.remove(m);
        let ghost dv = d@;
        out.push(d);
        proof {
            broadcast use group_to_multiset_ensures;

            let pre_dv = disk_views(pre_disks);
            assert(disk_views(disks@) =~= pre_dv.remove(m as int));
            assert(disk_views(out@) =~= disk_views(pre_out).push(dv));
            assert(pre_dv[m as int] == dv);
            assert(pre_dv.to_multiset().count(dv) > 0) by {
                assert(pre_dv.contains(dv));
            }
            assert(disk_views(out@).to_multiset().add(disk_views(disks@).to_multiset())
                =~= disk_views(pre_out).to_multiset().add(pre_dv.to_multiset()));
            lemma_sum_remove(pre_dv, m as int);
            assert(disk_views(out@).drop_last() =~= disk_views(pre_out));
            assert(disk_views(out@).last() == dv);
        }
    }
    out
}

/// Discovers the disk registry from a filesystem scan: excludes read-only
/// volumes, adjusts each remaining volume's capacity for its pre-existing
/// blocks, and orders the result by descending available space.
pub fn get_disks(scans: Vec<DiskScan>, block_size: u32) -> (r: Vec<DiskStats>)
    ensures
        sorted_desc(disk_views(r@)),
        disk_views(r@).to_multiset() == spec_registry(
            scans@.map_values(|s: DiskScan| s@),
            block_size,
        ).to_multiset(),
        sum_total(disk_views(r@)) == sum_total(
            spec_registry(scans@.map_values(|s: DiskScan| s@), block_size),
        ),
        sum_used(disk_views(r@)) == sum_used(
            spec_registry(scans@.map_values(|s: DiskScan| s@), block_size),
        ),
        forall|i: int| 0 <= i < r@.len() ==> (#[trigger] r@[i]).wf(),
{
    let mut built: Vec<DiskStats> = Vec::new();
    let mut scans = scans;
    let ghost all = scans@;
    proof {
        assert(all.take(0).map_values(|s: DiskScan| s@) =~= Seq::<DiskScanV>::empty());
        assert(disk_views(built@) =~= spec_registry(
            all.take(0).map_values(|s: DiskScan| s@),
            block_size,
        ));
        assert(scans@ =~= all.skip(0));
    }
    while scans.len() > 0
        invariant
            scans@.len() <= all.len(),
            scans@ == all.skip(all.len() - scans@.len()),
            disk_views(built@) == spec_registry(
                all.take(all.len() - scans@.len()).map_values(|s: DiskScan| s@),
                block_size,
            ),
            forall|j: int| 0 <= j < built@.len() ==> (#[trigger] built@[j]).wf(),
        decreases scans@.len(),
    {
        let ghost n = all.len() - scans@.len();
        let ghost pre_built = built@;
        let scan = scans.remove(0);
        proof {
            assert(scan@ == all[n]@);
            assert(scans@ =~= all.skip(n + 1));
        }
        match DiskStats::new(scan, block_size) {
            Some(d) => {
                built.push(d);
            },
            None => {},
        }
        proof {
            let prev = all.take(n).map_values(|s: DiskScan| s@);
            let cur = all.take(n + 1).map_values(|s: DiskScan| s@);
            assert(cur.drop_last() =~= prev);
            assert(cur.last() == all[n]@);
            assert(disk_views(built@) =~= spec_registry(cur, block_size));
        }
    }
    proof {
        assert(all.take(all.len() as int).map_values(|s: DiskScan| s@) =~= all.map_values(
            |s: DiskScan| s@,
        ));
    }
    sort_disks_desc(built)
}

/// Whether the adjusted capacities of the volumes that qualify for the
/// registry sum to at most `u64::MAX`: the machine limit the engine
/// constructor requires its caller to have checked.
pub fn capacities_fit(scans: &Vec<DiskScan>, block_size: u32) -> (b: bool)
    ensures
        b == (sum_total(spec_registry(scans@.map_values(|s: DiskScan| s@), block_size))
            <= u64::MAX),
{
    let ghost views = scans@.map_values(|s: DiskScan| s@);
    let mut sum: u128 = 0;
    let mut i: usize = 0;
    let n = scans.len();
    proof {
        assert(views.take(0).map_values(|v: DiskScanV| v) =~= views.take(0));
        assert(sum == sum_total(spec_registry(views.take(0), block_size)));
    }
    while i < n
        invariant
            i <= scans@.len(),
            n == scans@.len(),
            scans@.len() <= usize::MAX,
            views == scans@.map_values(|s: DiskScan| s@),
            sum == sum_total(spec_registry(views.take(i as int), block_size)),
            sum <= (i as int) * 0xFFFF_FFFF_FFFF_FFFF,
        decreases scans@.len() - i,
    {
        let ghost prev = spec_registry(views.take(i as int), block_size);
        let ghost cur = spec_registry(views.take(i as int + 1), block_size);
        proof {
            assert(views.take(i as int + 1).drop_last() =~= views.take(i as int));
            assert(views.take(i as int + 1).last() == views[i as int]);
            assert(views[i as int] == scans@[i as int]@);
            assert((scans@[i as int].existing_blocks as int) * (block_size as int)
                < 0x1_0000_0000_0000_0000_0000_0000 && (scans@[i as int].existing_blocks as int)
                * (block_size as int) >= 0) by (nonlinear_arith)
                requires
                    scans@[i as int].existing_blocks <= u64::MAX,
                    block_size <= u32::MAX,
            ;
            assert(sum + 0xFFFF_FFFF_FFFF_FFFF <= (i as int + 1) * 0xFFFF_FFFF_FFFF_FFFF
                <= u128::MAX) by (nonlinear_arith)
                requires
                    sum <= (i as int) * 0xFFFF_FFFF_FFFF_FFFF,
                    0 <= i as int + 1 <= 0xFFFF_FFFF_FFFF_FFFF,
            ;
        }
        let s = &scans[i];
        if !s.readonly {
            let used: u128 = (s.existing_blocks as u128) * (block_size as u128);
            let total: u128 = (s.available_space as u128) + used;
            if total <= u64::MAX as u128 {
                proof {
                    assert(cur.drop_last() =~= prev);
                    assert(cur.last() == scan_disk(views[i as int], block_size)->Some_0);
                }
                sum = sum + total;
            } else {
                proof {
                    assert(cur =~= prev);
                }
            }
        } else {
            proof {
                assert(cur =~= prev);
            }
        }
        i = i + 1;
    }
    proof {
        assert(views.take(scans@.len() as int) =~= views);
    }
    sum <= u64::MAX as u128
}

} // verus!
