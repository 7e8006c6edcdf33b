//! Size parameters: the validation floors, the error type for rejected
//! parameters, and the quantities derived from the requested average chunk
//! size — the two hash masks and the position at which the scan switches
//! between them.

use vstd::prelude::*;
use vstd::string::StringExecFns;

verus! {

/// Smallest `min_size` the validated entry point accepts.
pub const MIN_SIZE_FLOOR: u32 = 64;

/// Smallest `avg_size` the validated entry point accepts.
pub const AVG_SIZE_FLOOR: u32 = 256;

/// Smallest `max_size` the validated entry point accepts.
pub const MAX_SIZE_FLOOR: u32 = 1024;

/// Why a chunking request was rejected: one variant per size floor.
#[derive(Clone, Copy, Debug, PartialEq, Eq, Structural)]
pub enum ChunkError {
    /// `min_size` is below `MIN_SIZE_FLOOR`.
    MinSizeTooSmall,
    /// `avg_size` is below `AVG_SIZE_FLOOR`.
    AvgSizeTooSmall,
    /// `max_size` is below `MAX_SIZE_FLOOR`.
    MaxSizeTooSmall,
}

impl ChunkError {
    /// The fixed message text for this error. Callers that pattern-match on
    /// message text rely on these exact strings.
    pub fn message(&self) -> (s: String)
        ensures
            *self == ChunkError::MinSizeTooSmall ==> s@ == "min_size should be >= 64"@,
            *self == ChunkError::AvgSizeTooSmall ==> s@ == "avg_size should be >= 256"@,
            *self == ChunkError::MaxSizeTooSmall ==> s@ == "max_size should be >= 1024"@,
    {
        match self {
            ChunkError::MinSizeTooSmall => String::from_str("min_size should be >= 64"),
            ChunkError::AvgSizeTooSmall => String::from_str("avg_size should be >= 256"),
            ChunkError::MaxSizeTooSmall => String::from_str("max_size should be >= 1024"),
        }
    }
}

/// Helper for the rounded base-2 logarithm: the smallest `n` at or above the
/// running index with `vv < 2^(2n+1)`, capped at 32. With `vv` the square of
/// `v`, the bound `v^2 < 2^(2n+1)` says exactly `log2(v) < n + 1/2`, so the
/// smallest such `n` is `log2(v)` rounded to the nearest integer.
pub open spec fn log2_round_rec(vv: u64, n: u32) -> u32
    decreases 32 - n,
{
    if n >= 32 {
        32
    } else if vv < (1u64 << ((2 * n + 1) as u64)) {
        n
    } else {
        log2_round_rec(vv, (n + 1) as u32)
    }
}

/// The base-2 logarithm of `v`, rounded to the nearest integer (0 for `v == 0`).
pub open spec fn log2_round_spec(v: u32) -> u32 {
    log2_round_rec(((v as nat) * (v as nat)) as u64, 0)
}

/// Computes the rounded base-2 logarithm of `v`.
pub fn log2_round(v: u32) -> (n: u32)
    ensures
        n == log2_round_spec(v),
        n <= 32,
{
    proof {
        assert((v as u64) * (v as u64) <= 0xFFFF_FFFFu64 * 0xFFFF_FFFFu64) by (nonlinear_arith)
            requires
                v <= 0xFFFF_FFFFu64,
        ;
    }
    let vv: u64 = (v as u64) * (v as u64);
    let mut n: u32 = 0;
    loop
        invariant
            n <= 32,
            log2_round_rec(vv, n) == log2_round_spec(v),
        decreases 32 - n,
    {
        if n >= 32 {
            return n;
        }
        if vv < (1u64 << ((2 * n + 1) as u64)) {
            return n;
        }
        n = n + 1;
    }
}

/// A mask with the `bits` lowest bits set (none for `bits <= 0`, all 64 for
/// `bits >= 64`).
pub open spec fn mask_of_spec(bits: int) -> u64 {
    if bits <= 0 {
        0u64
    } else if bits >= 64 {
        u64::MAX
    } else {
        ((1u64 << (bits as u64)) - 1) as u64
    }
}

/// Computes the mask with the `bits` lowest bits set.
pub fn mask_of(bits: u32) -> (m: u64)
    ensures
        m == mask_of_spec(bits as int),
{
    if bits == 0 {
        0
    } else if bits >= 64 {
        u64::MAX
    } else {
        let p: u64 = 1u64 << (bits as u64);
        proof {
            assert(1u64 << (bits as u64) >= 1) by (bit_vector)
                requires
                    bits < 64u32,
            ;
        }
        p - 1
    }
}

/// The mask tested while the scan is still short of the average size. It has
/// one bit more than the average's bit length, so matches are rarer there and
/// premature small chunks are discouraged.
pub open spec fn mask_small_spec(avg_size: u32) -> u64 {
    mask_of_spec(log2_round_spec(avg_size) as int + 1)
}

/// The mask tested once the scan has passed the average size. It has one bit
/// fewer, so matches are likelier and a cut is found well before the hard
/// maximum on most inputs.
pub open spec fn mask_large_spec(avg_size: u32) -> u64 {
    mask_of_spec(log2_round_spec(avg_size) as int - 1)
}

/// How many bytes past `min_size` the scan keeps using the small mask: the
/// distance from the minimum toward the average (zero when the parameters are
/// inconsistent and the average is at or below the minimum).
pub open spec fn center_spec(min_size: u32, avg_size: u32) -> int {
    if avg_size > min_size {
        avg_size - min_size
    } else {
        0
    }
}

/// Computes both hash masks for the given average size.
pub fn derive_masks(avg_size: u32) -> (masks: (u64, u64))
    ensures
        masks.0 == mask_small_spec(avg_size),
        masks.1 == mask_large_spec(avg_size),
{
    let bits = log2_round(avg_size);
    let small = mask_of(bits + 1);
    let large = if bits >= 1 {
        mask_of(bits - 1)
    } else {
        0
    };
    (small, large)
}

} // verus!
