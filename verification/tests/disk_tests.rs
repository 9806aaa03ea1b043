//! Tests of disk discovery, capacity accounting and registry ordering.

use data_node::disk::capacities_fit;
use data_node::disk::get_disks;
use data_node::disk::DiskScan;
use data_node::disk::DiskStats;

fn scan(mount: &str, available_space: u64, readonly: bool, existing_blocks: u64) -> DiskScan {
    DiskScan {
        mount: mount.to_string(),
        available_space,
        readonly,
        existing_blocks,
    }
}

#[test]
fn readonly_volumes_are_excluded() {
    let disks = get_disks(
        vec![scan("/a", 100, false, 0), scan("/b", 200, true, 0), scan("/c", 50, false, 0)],
        32,
    );
    assert_eq!(disks.len(), 2);
    assert!(disks.iter().all(|d| d.mount != "/b"));
}

#[test]
fn capacity_is_adjusted_for_existing_blocks() {
    let disks = get_disks(vec![scan("/a", 1000, false, 3)], 32);
    assert_eq!(disks.len(), 1);
    assert_eq!(disks[0].used_space, 96);
    assert_eq!(disks[0].total_space, 1096);
}

#[test]
fn registry_is_sorted_by_descending_available_space() {
    let disks = get_disks(
        vec![
            scan("/small", 10, false, 0),
            scan("/large", 1000, false, 0),
            scan("/medium", 100, false, 0),
        ],
        32,
    );
    assert_eq!(disks.len(), 3);
    assert_eq!(disks[0].mount, "/large");
    assert_eq!(disks[1].mount, "/medium");
    assert_eq!(disks[2].mount, "/small");
}

#[test]
fn reserve_and_release_respect_capacity() {
    let mut disk = DiskStats::new(scan("/a", 100, false, 0), 32).unwrap();
    assert_eq!(disk.available(), 100);
    assert!(disk.try_reserve(60));
    assert_eq!(disk.used_space, 60);
    assert!(!disk.try_reserve(50));
    assert_eq!(disk.used_space, 60);
    assert!(disk.try_reserve(40));
    assert_eq!(disk.used_space, 100);
    disk.release(30);
    assert_eq!(disk.used_space, 70);
    disk.release(1000);
    assert_eq!(disk.used_space, 0);
}

#[test]
fn capacity_sum_limit_is_detected() {
    assert!(capacities_fit(&vec![scan("/a", 100, false, 0)], 32));
    // Two near-full-range volumes overflow the addressable sum.
    let huge = vec![scan("/a", u64::MAX, false, 0), scan("/b", u64::MAX, false, 0)];
    assert!(!capacities_fit(&huge, 32));
    // Read-only and oversized volumes never join the registry, so they do
    // not count toward the sum.
    let excluded = vec![
        scan("/a", u64::MAX, true, 0),
        scan("/b", u64::MAX, false, 1),
        scan("/c", 10, false, 0),
    ];
    assert!(capacities_fit(&excluded, 32));
}

#[test]
fn oversized_scan_is_excluded() {
    assert!(DiskStats::new(scan("/a", u64::MAX, false, 1), 32).is_none());
    assert!(DiskStats::new(scan("/b", 10, true, 0), 32).is_none());
}
