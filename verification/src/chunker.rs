//! The chunker: the rolling-hash scan that finds each boundary, and the entry
//! points that turn a whole buffer into its ordered sequence of cut offsets.

use crate::gear::gear;
use crate::gear::gear_spec;
use crate::params::center_spec;
use crate::params::derive_masks;
use crate::params::mask_large_spec;
use crate::params::mask_small_spec;
use crate::params::ChunkError;
use crate::params::AVG_SIZE_FLOOR;
use crate::params::MAX_SIZE_FLOOR;
use crate::params::MIN_SIZE_FLOOR;
use vstd::prelude::*;
use vstd::wrapping::u64_specs;

verus! {

/// The rolling hash after absorbing one more byte: shift left one bit and add
/// the byte's gear entry, wrapping on 64 bits.
pub open spec fn hash_step(h: u64, b: u8) -> u64 {
    u64_specs::wrapping_add(h << 1u64, gear_spec(b))
}

/// Whether the scan cuts right after its `i + 1`-th byte, given the rolling
/// hash `h` over the bytes absorbed so far. No position below `min_size` is a
/// cut; before the center the rarer small mask is tested, past it the likelier
/// large mask.
pub open spec fn hash_hit(h: u64, i: int, min_size: u32, avg_size: u32) -> bool {
    &&& i >= min_size
    &&& if i < center_spec(min_size, avg_size) {
        h & mask_small_spec(avg_size) == 0
    } else {
        h & mask_large_spec(avg_size) == 0
    }
}

/// The boundary found by the scan that started at offset `s`, has absorbed
/// `i` bytes into rolling hash `h`, and continues byte by byte: the first
/// position where `hash_hit` holds, the hard ceiling `s + max_size` when
/// `max_size` bytes pass without a hit, or the end of the buffer when the
/// bytes run out first.
pub open spec fn scan_spec(
    data: Seq<u8>,
    s: int,
    i: int,
    h: u64,
    min_size: u32,
    avg_size: u32,
    max_size: u32,
) -> int
    decreases data.len() - s - i,
{
    if s < 0 || i < 0 || s + i >= data.len() {
        data.len() as int
    } else {
        let h2 = hash_step(h, data[s + i]);
        if hash_hit(h2, i, min_size, avg_size) {
            s + i + 1
        } else if max_size >= 1 && i + 1 >= max_size {
            s + max_size
        } else {
            scan_spec(data, s, i + 1, h2, min_size, avg_size, max_size)
        }
    }
}

/// The boundary of the chunk that starts at offset `s`: the buffer's end when
/// no more than `min_size` bytes remain, otherwise whatever the scan finds.
pub open spec fn cut_spec(data: Seq<u8>, s: int, min_size: u32, avg_size: u32, max_size: u32) -> int {
    if data.len() - s <= min_size {
        data.len() as int
    } else {
        scan_spec(data, s, 0, 0u64, min_size, avg_size, max_size)
    }
}

/// All interior boundaries from offset `s` to the end of the buffer, in
/// increasing order; the final boundary at the buffer's end is not included.
pub open spec fn cuts_from(data: Seq<u8>, s: int, min_size: u32, avg_size: u32, max_size: u32) -> Seq<
    int,
>
    decreases data.len() - s,
{
    if s < 0 || s >= data.len() {
        Seq::empty()
    } else {
        let c = cut_spec(data, s, min_size, avg_size, max_size);
        if c <= s || c >= data.len() {
            Seq::empty()
        } else {
            seq![c] + cuts_from(data, c, min_size, avg_size, max_size)
        }
    }
}

/// The full offset sequence for a buffer: every interior boundary in
/// increasing order, then the buffer length as the final element. Chunk `k`
/// spans `[offsets[k - 1], offsets[k])`, with an implicit 0 before the first.
pub open spec fn chunk_offsets(data: Seq<u8>, min_size: u32, avg_size: u32, max_size: u32) -> Seq<
    int,
> {
    cuts_from(data, 0, min_size, avg_size, max_size) + seq![data.len() as int]
}

/// The offsets a `Vec<u32>` holds, as mathematical integers.
pub open spec fn as_ints(s: Seq<u32>) -> Seq<int> {
    s.map_values(|o: u32| o as int)
}

/// Finds the boundary of the chunk that starts at `start`.
fn next_cut(source: &[u8], start: usize, min_size: u32, avg_size: u32, max_size: u32) -> (c: usize)
    requires
        start < source@.len(),
    ensures
        c as int == cut_spec(source@, start as int, min_size, avg_size, max_size),
        start < c <= source@.len(),
{
    let n = source.len();
    if n - start <= min_size as usize {
        return n;
    }
    let masks = derive_masks(avg_size);
    let mask_small = masks.0;
    let mask_large = masks.1;
    let center: u32 = if avg_size > min_size {
        avg_size - min_size
    } else {
        0
    };
    let ghost target = scan_spec(source@, start as int, 0, 0u64, min_size, avg_size, max_size);
    let mut hash: u64 = 0;
    let mut i: usize = 0;
    loop
        invariant
            n == source@.len(),
            start < n,
            n - start > min_size,
            start + i <= n,
            max_size >= 1 ==> i + 1 <= max_size,
            mask_small == mask_small_spec(avg_size),
            mask_large == mask_large_spec(avg_size),
            center as int == center_spec(min_size, avg_size),
            target == cut_spec(source@, start as int, min_size, avg_size, max_size),
            scan_spec(source@, start as int, i as int, hash, min_size, avg_size, max_size)
                == target,
        decreases n - start - i,
    {
        if start + i >= n {
            return n;
        }
        let ghost h0 = hash;
        let b = source[start + i];
        hash = (hash << 1u64).wrapping_add(gear(b));
        proof {
            assert(hash == hash_step(h0, source@[start + i]));
        }
        let at_cut = if i < center as usize {
            (hash & mask_small) == 0
        } else {
            (hash & mask_large) == 0
        };
        if i >= min_size as usize && at_cut {
            proof {
                assert(hash_hit(hash, i as int, min_size, avg_size));
            }
            return start + i + 1;
        }
        if max_size >= 1 && i + 1 >= max_size as usize {
            return start + max_size as usize;
        }
        i = i + 1;
    }
}

/// Computes the cut offsets of `source` without validating the size
/// parameters. The result is the ordered sequence of interior boundaries with
/// the buffer length appended; out-of-floor parameters yield chunk sizes that
/// may not respect the intended floor and ceiling, never a failure.
pub fn compute_chunks_nocheck(source: &[u8], min_size: u32, avg_size: u32, max_size: u32) -> (offsets:
    Vec<u32>)
    requires
        source@.len() <= u32::MAX,
    ensures
        as_ints(offsets@) == chunk_offsets(source@, min_size, avg_size, max_size),
{
    let n = source.len();
    let mut offsets: Vec<u32> = Vec::new();
    let mut pos: usize = 0;
    proof {
        assert(as_ints(offsets@) + cuts_from(source@, 0, min_size, avg_size, max_size)
            =~= cuts_from(source@, 0, min_size, avg_size, max_size));
    }
    while pos < n
        invariant
            n == source@.len(),
            n <= u32::MAX,
            pos <= n,
            as_ints(offsets@) + cuts_from(source@, pos as int, min_size, avg_size, max_size)
                == cuts_from(source@, 0, min_size, avg_size, max_size),
        decreases n - pos,
    {
        let ghost prev = offsets@;
        let c = next_cut(source, pos, min_size, avg_size, max_size);
        if c < n {
            offsets.push(c as u32);
            proof {
                assert(as_ints(offsets@) =~= as_ints(prev) + seq![c as int]);
                assert(cuts_from(source@, pos as int, min_size, avg_size, max_size) == seq![
                    c as int,
                ] + cuts_from(source@, c as int, min_size, avg_size, max_size));
                assert(as_ints(offsets@) + cuts_from(source@, c as int, min_size, avg_size,
                    max_size) =~= as_ints(prev) + cuts_from(source@, pos as int, min_size, avg_size,
                    max_size));
            }
        } else {
            proof {
                assert(cuts_from(source@, pos as int, min_size, avg_size, max_size)
                    =~= Seq::<int>::empty());
                assert(as_ints(offsets@) =~= as_ints(offsets@) + Seq::<int>::empty());
            }
        }
        pos = c;
    }
    proof {
        assert(cuts_from(source@, pos as int, min_size, avg_size, max_size) =~= Seq::<int>::empty());
        assert(as_ints(offsets@) =~= as_ints(offsets@) + Seq::<int>::empty());
    }
    let ghost interior = offsets@;
    offsets.push(n as u32);
    proof {
        assert(as_ints(offsets@) =~= as_ints(interior) + seq![n as int]);
        assert(as_ints(offsets@) =~= chunk_offsets(source@, min_size, avg_size, max_size));
    }
    offsets
}

/// Computes the cut offsets of `source` after validating the size parameters
/// against their floors, in order: `min_size`, then `avg_size`, then
/// `max_size`; the first floor that is violated decides the error.
pub fn compute_chunks(source: &[u8], min_size: u32, avg_size: u32, max_size: u32) -> (result:
    Result<Vec<u32>, ChunkError>)
    requires
        source@.len() <= u32::MAX,
    ensures
        min_size < MIN_SIZE_FLOOR ==> result == Err::<Vec<u32>, ChunkError>(
            ChunkError::MinSizeTooSmall,
        ),
        min_size >= MIN_SIZE_FLOOR && avg_size < AVG_SIZE_FLOOR ==> result == Err::<
            Vec<u32>,
            ChunkError,
        >(ChunkError::AvgSizeTooSmall),
        min_size >= MIN_SIZE_FLOOR && avg_size >= AVG_SIZE_FLOOR && max_size < MAX_SIZE_FLOOR
            ==> result == Err::<Vec<u32>, ChunkError>(ChunkError::MaxSizeTooSmall),
        min_size >= MIN_SIZE_FLOOR && avg_size >= AVG_SIZE_FLOOR && max_size >= MAX_SIZE_FLOOR ==> {
            &&& result matches Ok(offsets)
            &&& as_ints(offsets@) == chunk_offsets(source@, min_size, avg_size, max_size)
        },
{
    if min_size < MIN_SIZE_FLOOR {
        Err(ChunkError::MinSizeTooSmall)
    } else if avg_size < AVG_SIZE_FLOOR {
        Err(ChunkError::AvgSizeTooSmall)
    } else if max_size < MAX_SIZE_FLOOR {
        Err(ChunkError::MaxSizeTooSmall)
    } else {
        Ok(compute_chunks_nocheck(source, min_size, avg_size, max_size))
    }
}

} // verus!
