//! The configuration fingerprint guard.
//!
//! A data node must not be restarted with a different block-size
//! configuration while blocks sized for the old configuration remain on
//! disk: size-based assumptions elsewhere would silently break. The guard
//! hashes a transform of the configured block size (`(block_size * 2) >> 6`,
//! preserved bit-exactly for compatibility with existing sidecar files),
//! compares it against the value persisted in a sidecar file, and refuses to
//! start on a mismatch while any disk shows used space. The caller performs
//! the sidecar I/O; the decision itself is made here.

use std::collections::hash_map::DefaultHasher;
use std::hash::Hasher;
use vstd::bytes::spec_u64_to_le_bytes;
use vstd::bytes::u64_to_le_bytes;
use vstd::prelude::*;
use vstd::std_specs::hash::DefaultHasherAdditionalSpecFns;

verus! {

/// The value that is hashed: `(block_size * 2) >> 6`. Distinct block sizes
/// can share a seed (the transform drops low bits); such sizes are not told
/// apart by the guard.
pub open spec fn fingerprint_seed(block_size: u32) -> u64 {
    (((block_size as u64) * 2) as u64) >> 6u64
}

/// The persisted fingerprint: the standard hasher run over the little-endian
/// bytes of the seed.
pub open spec fn spec_fingerprint(block_size: u32) -> u64 {
    DefaultHasher::spec_finish(seq![spec_u64_to_le_bytes(fingerprint_seed(block_size))])
}

/// Computes the fingerprint of a block-size configuration.
pub fn fingerprint(block_size: u32) -> (h: u64)
    ensures
        h == spec_fingerprint(block_size),
{
    let seed: u64 = ((block_size as u64) * 2) >> 6u64;
    let bytes = u64_to_le_bytes(seed);
    let mut hasher = DefaultHasher::new();
    hasher.write(bytes.as_slice());
    let h = hasher.finish();
    proof {
        assert(hasher@ =~= seq![spec_u64_to_le_bytes(seed)]);
    }
    h
}

/// The fatal startup condition, surfaced as a typed error so that the
/// process entry point decides the process's fate.
#[derive(Debug, Clone, Copy, PartialEq, Eq, Structural)]
pub enum StartupError {
    /// The fingerprint persisted by an earlier run disagrees with the one
    /// computed from the configured block size, while blocks are still
    /// present on some disk.
    BlockSizeChanged { stored: u64, computed: u64 },
}

/// The guard's decision. `stored` is the fingerprint read back from the
/// sidecar file, or `None` on a first run; `used_space` is the total used
/// space found across all disks at startup.
pub open spec fn spec_check_fingerprint(stored: Option<u64>, block_size: u32, used_space: u64) -> Result<
    (),
    StartupError,
> {
    match stored {
        Some(h) => if h != spec_fingerprint(block_size) && used_space != 0 {
            Err(StartupError::BlockSizeChanged { stored: h, computed: spec_fingerprint(block_size) })
        } else {
            Ok(())
        },
        None => Ok(()),
    }
}

/// Decides whether the engine may start: a missing sidecar value (first run)
/// or a matching fingerprint always passes; a mismatch passes only while no
/// used space remains (treated as reconfiguration). After a passing check the
/// caller must persist the current fingerprint again.
pub fn check_fingerprint(stored: Option<u64>, block_size: u32, used_space: u64) -> (r: Result<
    (),
    StartupError,
>)
    ensures
        r == spec_check_fingerprint(stored, block_size, used_space),
{
    let computed = fingerprint(block_size);
    match stored {
        Some(h) => {
            if h != computed && used_space != 0 {
                Err(StartupError::BlockSizeChanged { stored: h, computed })
            } else {
                Ok(())
            }
        },
        None => Ok(()),
    }
}

/// The fingerprint guard law: restarting with the same block size always
/// passes; restarting over non-empty disks with a block size whose
/// fingerprint differs from the persisted one is refused; with zero used
/// space any restart passes. (Two distinct block sizes whose seeds collide
/// under the preserved transform share a fingerprint and are not told
/// apart.)
pub proof fn lemma_fingerprint_guard(x: u32, y: u32, used_space: u64)
    ensures
        spec_check_fingerprint(Some(spec_fingerprint(x)), x, used_space) is Ok,
        used_space != 0 && spec_fingerprint(y) != spec_fingerprint(x) ==> spec_check_fingerprint(
            Some(spec_fingerprint(x)),
            y,
            used_space,
        ) is Err,
        used_space == 0 ==> spec_check_fingerprint(Some(spec_fingerprint(x)), y, used_space) is Ok,
{
}

} // verus!
