//! Proved properties of the chunking algorithm: the offsets partition the
//! buffer, chunk sizes respect the floor and the ceiling, the result depends
//! on nothing but the bytes and the parameters, and an edit to a buffer
//! leaves the boundaries before the edit unchanged.

use crate::chunker::chunk_offsets;
use crate::chunker::cut_spec;
use crate::chunker::cuts_from;
use crate::chunker::hash_hit;
use crate::chunker::hash_step;
use crate::chunker::scan_spec;
use vstd::prelude::*;

verus! {

/// The scan's result stays in range: past the byte just absorbed (or the
/// buffer's end), at most the buffer's end, at most `min_size` short of a
/// floor-respecting cut, and at most `s + max_size`.
proof fn lemma_scan_bounds(
    data: Seq<u8>,
    s: int,
    i: int,
    h: u64,
    min_size: u32,
    avg_size: u32,
    max_size: u32,
)
    requires
        0 <= s,
        0 <= i,
        s + i <= data.len(),
        max_size >= 1 ==> i + 1 <= max_size,
    ensures
        scan_spec(data, s, i, h, min_size, avg_size, max_size) <= data.len(),
        scan_spec(data, s, i, h, min_size, avg_size, max_size) == data.len() || scan_spec(
            data,
            s,
            i,
            h,
            min_size,
            avg_size,
            max_size,
        ) >= s + i + 1,
        min_size <= max_size && scan_spec(data, s, i, h, min_size, avg_size, max_size) < data.len()
            ==> scan_spec(data, s, i, h, min_size, avg_size, max_size) >= s + min_size,
        max_size >= 1 ==> scan_spec(data, s, i, h, min_size, avg_size, max_size) <= s + max_size,
    decreases data.len() - s - i,
{
    if s + i >= data.len() {
        // the scan returns the buffer's end
    } else {
        let h2 = hash_step(h, data[s + i]);
        if hash_hit(h2, i, min_size, avg_size) {
            // the scan returns s + i + 1, and i >= min_size
        } else if max_size >= 1 && i + 1 >= max_size {
            // the scan returns s + max_size, with i + 1 == max_size
        } else {
            lemma_scan_bounds(data, s, i + 1, h2, min_size, avg_size, max_size);
        }
    }
}

/// The boundary of the chunk starting at `s` lies strictly past `s` and at
/// most at the buffer's end; an interior boundary is at least `min_size`
/// bytes along when `min_size <= max_size`, and every boundary is at most
/// `max_size` bytes along when additionally `max_size >= 1`.
proof fn lemma_cut_bounds(data: Seq<u8>, s: int, min_size: u32, avg_size: u32, max_size: u32)
    requires
        0 <= s < data.len(),
    ensures
        s < cut_spec(data, s, min_size, avg_size, max_size) <= data.len(),
        min_size <= max_size && cut_spec(data, s, min_size, avg_size, max_size) < data.len()
            ==> cut_spec(data, s, min_size, avg_size, max_size) - s >= min_size,
        min_size <= max_size && max_size >= 1 ==> cut_spec(data, s, min_size, avg_size, max_size)
            - s <= max_size,
{
    if data.len() - s <= min_size {
        // the boundary is the buffer's end, and the chunk is at most min_size <= max_size long
    } else {
        lemma_scan_bounds(data, s, 0, 0u64, min_size, avg_size, max_size);
        if max_size >= 1 {
            assert(data.len() - s > min_size);
        }
    }
}

/// The interior boundaries from `s` are strictly increasing, lie strictly
/// between `s` and the buffer's end, and delimit chunks that respect the
/// floor and the ceiling whenever the parameters are consistent.
proof fn lemma_cuts_from_props(data: Seq<u8>, s: int, min_size: u32, avg_size: u32, max_size: u32)
    requires
        0 <= s <= data.len(),
    ensures
        ({
            let cs = cuts_from(data, s, min_size, avg_size, max_size);
            &&& forall|j: int| 0 <= j < cs.len() ==> s < #[trigger] cs[j] < data.len()
            &&& forall|j: int| 0 <= j < cs.len() - 1 ==> #[trigger] cs[j] < cs[j + 1]
            &&& min_size <= max_size ==> forall|j: int|
                0 <= j < cs.len() ==> #[trigger] cs[j] - (if j == 0 {
                    s
                } else {
                    cs[j - 1]
                }) >= min_size
            &&& min_size <= max_size && max_size >= 1 ==> forall|j: int|
                0 <= j < cs.len() ==> #[trigger] cs[j] - (if j == 0 {
                    s
                } else {
                    cs[j - 1]
                }) <= max_size
            &&& min_size <= max_size && max_size >= 1 ==> data.len() - (if cs.len() == 0 {
                s
            } else {
                cs[cs.len() - 1]
            }) <= max_size
        }),
    decreases data.len() - s,
{
    let cs = cuts_from(data, s, min_size, avg_size, max_size);
    if s >= data.len() {
        // no interior boundaries; the final gap is data.len() - s == 0
    } else {
        lemma_cut_bounds(data, s, min_size, avg_size, max_size);
        let c = cut_spec(data, s, min_size, avg_size, max_size);
        if c >= data.len() {
            // the chunk at s is the last one; its length c - s is bounded by lemma_cut_bounds
        } else {
            lemma_cuts_from_props(data, c, min_size, avg_size, max_size);
            let rest = cuts_from(data, c, min_size, avg_size, max_size);
            assert(cs == seq![c] + rest);
            assert(cs[0] == c);
            assert forall|j: int| 0 <= j < cs.len() implies s < #[trigger] cs[j] < data.len() by {
                if j > 0 {
                    assert(cs[j] == rest[j - 1]);
                }
            }
            assert forall|j: int| 0 <= j < cs.len() - 1 implies #[trigger] cs[j] < cs[j + 1] by {
                if j > 0 {
                    assert(cs[j] == rest[j - 1] && cs[j + 1] == rest[j]);
                } else {
                    assert(cs[1] == rest[0]);
                }
            }
            if min_size <= max_size {
                assert forall|j: int| 0 <= j < cs.len() implies #[trigger] cs[j] - (if j == 0 {
                    s
                } else {
                    cs[j - 1]
                }) >= min_size by {
                    if j == 0 {
                        assert(cs[0] - s == c - s >= min_size);
                    } else if j == 1 {
                        assert(cs[1] == rest[0] && cs[0] == c);
                        assert(rest[0] - c >= min_size);
                    } else {
                        assert(cs[j] == rest[j - 1] && cs[j - 1] == rest[j - 2]);
                        assert(rest[j - 1] - rest[j - 2] >= min_size);
                    }
                }
                if max_size >= 1 {
                    assert forall|j: int| 0 <= j < cs.len() implies #[trigger] cs[j] - (if j == 0 {
                        s
                    } else {
                        cs[j - 1]
                    }) <= max_size by {
                        if j == 0 {
                        } else if j == 1 {
                            assert(cs[1] == rest[0] && cs[0] == c);
                            assert(rest[0] - c <= max_size);
                        } else {
                            assert(cs[j] == rest[j - 1] && cs[j - 1] == rest[j - 2]);
                            assert(rest[j - 1] - rest[j - 2] <= max_size);
                        }
                    }
                    if rest.len() == 0 {
                        assert(cs[cs.len() - 1] == c);
                    } else {
                        assert(cs[cs.len() - 1] == rest[rest.len() - 1]);
                    }
                }
            }
        }
    }
}

/// Coverage: prefixed with 0, the offsets partition the buffer exactly. The
/// sequence is never empty, it is strictly increasing, its last element is
/// the buffer length, and its first element is positive whenever the buffer
/// is non-empty. This holds for every parameter triple.
pub proof fn lemma_offsets_cover(data: Seq<u8>, min_size: u32, avg_size: u32, max_size: u32)
    ensures
        ({
            let offsets = chunk_offsets(data, min_size, avg_size, max_size);
            &&& offsets.len() >= 1
            &&& offsets[offsets.len() - 1] == data.len()
            &&& forall|j: int| 0 <= j < offsets.len() - 1 ==> #[trigger] offsets[j] < offsets[j + 1]
            &&& data.len() > 0 ==> 0 < offsets[0]
        }),
{
    lemma_cuts_from_props(data, 0, min_size, avg_size, max_size);
    let cs = cuts_from(data, 0, min_size, avg_size, max_size);
    let offsets = chunk_offsets(data, min_size, avg_size, max_size);
    assert(offsets == cs + seq![data.len() as int]);
    assert(offsets[offsets.len() - 1] == data.len());
    assert forall|j: int| 0 <= j < offsets.len() - 1 implies #[trigger] offsets[j] < offsets[j
        + 1] by {
        assert(offsets[j] == cs[j]);
        if j + 1 < cs.len() {
            assert(offsets[j + 1] == cs[j + 1]);
        } else {
            assert(offsets[j + 1] == data.len());
        }
    }
    if data.len() > 0 && cs.len() > 0 {
        assert(offsets[0] == cs[0]);
    }
}

/// Size floor: with consistent parameters, every chunk except possibly the
/// last spans at least `min_size` bytes.
pub proof fn lemma_size_floor(data: Seq<u8>, min_size: u32, avg_size: u32, max_size: u32)
    requires
        min_size <= max_size,
    ensures
        ({
            let offsets = chunk_offsets(data, min_size, avg_size, max_size);
            forall|j: int|
                0 <= j < offsets.len() - 1 ==> #[trigger] offsets[j] - (if j == 0 {
                    0
                } else {
                    offsets[j - 1]
                }) >= min_size
        }),
{
    lemma_cuts_from_props(data, 0, min_size, avg_size, max_size);
    let cs = cuts_from(data, 0, min_size, avg_size, max_size);
    let offsets = chunk_offsets(data, min_size, avg_size, max_size);
    assert forall|j: int| 0 <= j < offsets.len() - 1 implies #[trigger] offsets[j] - (if j == 0 {
        0
    } else {
        offsets[j - 1]
    }) >= min_size by {
        assert(offsets[j] == cs[j]);
        assert(cs[j] - (if j == 0 {
            0
        } else {
            cs[j - 1]
        }) >= min_size);
        if j > 0 {
            assert(offsets[j - 1] == cs[j - 1]);
        }
    }
}

/// The chunk ending at offset index `j` spans at most `max_size` bytes.
proof fn lemma_size_ceiling_at(data: Seq<u8>, min_size: u32, avg_size: u32, max_size: u32, j: int)
    requires
        min_size <= max_size,
        max_size >= 1,
        0 <= j < chunk_offsets(data, min_size, avg_size, max_size).len(),
    ensures
        ({
            let offsets = chunk_offsets(data, min_size, avg_size, max_size);
            offsets[j] - (if j == 0 {
                0
            } else {
                offsets[j - 1]
            }) <= max_size
        }),
{
    lemma_cuts_from_props(data, 0, min_size, avg_size, max_size);
    let cs = cuts_from(data, 0, min_size, avg_size, max_size);
    let offsets = chunk_offsets(data, min_size, avg_size, max_size);
    if j < cs.len() {
        assert(offsets[j] == cs[j]);
        assert(cs[j] - (if j == 0 {
            0
        } else {
            cs[j - 1]
        }) <= max_size);
        if j > 0 {
            assert(offsets[j - 1] == cs[j - 1]);
        }
    } else {
        assert(j == cs.len());
        assert(offsets[j] == data.len());
        if cs.len() == 0 {
            assert(data.len() - 0 <= max_size);
        } else {
            assert(offsets[j - 1] == cs[cs.len() - 1]);
            assert(data.len() - cs[cs.len() - 1] <= max_size);
        }
    }
}

/// Size ceiling: with consistent parameters, every chunk — the last included —
/// spans at most `max_size` bytes.
pub proof fn lemma_size_ceiling(data: Seq<u8>, min_size: u32, avg_size: u32, max_size: u32)
    requires
        min_size <= max_size,
        max_size >= 1,
    ensures
        ({
            let offsets = chunk_offsets(data, min_size, avg_size, max_size);
            forall|j: int|
                0 <= j < offsets.len() ==> #[trigger] offsets[j] - (if j == 0 {
                    0
                } else {
                    offsets[j - 1]
                }) <= max_size
        }),
{
    let offsets = chunk_offsets(data, min_size, avg_size, max_size);
    assert forall|j: int| 0 <= j < offsets.len() implies #[trigger] offsets[j] - (if j == 0 {
        0
    } else {
        offsets[j - 1]
    }) <= max_size by {
        lemma_size_ceiling_at(data, min_size, avg_size, max_size, j);
    }
}

/// A buffer shorter than `min_size` is a single chunk: the offset sequence is
/// exactly the buffer length.
pub proof fn lemma_small_input_single_chunk(
    data: Seq<u8>,
    min_size: u32,
    avg_size: u32,
    max_size: u32,
)
    requires
        data.len() < min_size,
    ensures
        chunk_offsets(data, min_size, avg_size, max_size) == seq![data.len() as int],
{
    assert(cuts_from(data, 0, min_size, avg_size, max_size) == Seq::<int>::empty());
    assert(chunk_offsets(data, min_size, avg_size, max_size) =~= seq![data.len() as int]);
}

/// The scan reads only the bytes strictly before the boundary it returns, so
/// two buffers that agree on `[0, q)` scan identically as long as the
/// boundary found in the first lies below `q`.
proof fn lemma_scan_local(
    b1: Seq<u8>,
    b2: Seq<u8>,
    s: int,
    i: int,
    h: u64,
    q: int,
    min_size: u32,
    avg_size: u32,
    max_size: u32,
)
    requires
        0 <= s,
        0 <= i,
        s + i <= b1.len(),
        q <= b1.len(),
        q <= b2.len(),
        b1.subrange(0, q) == b2.subrange(0, q),
        max_size >= 1 ==> i + 1 <= max_size,
        scan_spec(b1, s, i, h, min_size, avg_size, max_size) < q,
    ensures
        scan_spec(b2, s, i, h, min_size, avg_size, max_size) == scan_spec(
            b1,
            s,
            i,
            h,
            min_size,
            avg_size,
            max_size,
        ),
    decreases b1.len() - s - i,
{
    let r1 = scan_spec(b1, s, i, h, min_size, avg_size, max_size);
    lemma_scan_bounds(b1, s, i, h, min_size, avg_size, max_size);
    // r1 < q <= b1.len(), so the bytes did not run out and r1 >= s + i + 1
    assert(s + i < b1.len());
    assert(r1 >= s + i + 1);
    assert(s + i < q);
    assert(b1.subrange(0, q)[s + i] == b1[s + i]);
    assert(b2.subrange(0, q)[s + i] == b2[s + i]);
    assert(b1[s + i] == b2[s + i]);
    assert(s + i < b2.len());
    let h2 = hash_step(h, b1[s + i]);
    if hash_hit(h2, i, min_size, avg_size) {
        // both scans cut right here
    } else if max_size >= 1 && i + 1 >= max_size {
        // both scans are forced to cut at s + max_size
    } else {
        lemma_scan_local(b1, b2, s, i + 1, h2, q, min_size, avg_size, max_size);
    }
}

/// Two buffers that agree on `[0, q)`, the second at least as long as the
/// first, place the chunk boundary after `s` identically as long as the
/// boundary found in the first lies below `q`.
proof fn lemma_cut_local(
    b1: Seq<u8>,
    b2: Seq<u8>,
    s: int,
    q: int,
    min_size: u32,
    avg_size: u32,
    max_size: u32,
)
    requires
        0 <= s,
        q <= b1.len(),
        b1.len() <= b2.len(),
        b1.subrange(0, q) == b2.subrange(0, q),
        cut_spec(b1, s, min_size, avg_size, max_size) < q,
    ensures
        cut_spec(b2, s, min_size, avg_size, max_size) == cut_spec(
            b1,
            s,
            min_size,
            avg_size,
            max_size,
        ),
{
    // were no more than min_size bytes left, the boundary would be the
    // buffer's end, at or past q
    assert(b1.len() - s > min_size);
    assert(b2.len() - s > min_size);
    lemma_scan_local(b1, b2, s, 0, 0u64, q, min_size, avg_size, max_size);
}

/// Interior boundaries below `q` from a common start offset coincide, index
/// by index, between two buffers that agree on `[0, q)`.
proof fn lemma_cuts_local(
    b1: Seq<u8>,
    b2: Seq<u8>,
    s: int,
    q: int,
    min_size: u32,
    avg_size: u32,
    max_size: u32,
)
    requires
        0 <= s,
        q <= b1.len(),
        b1.len() <= b2.len(),
        b1.subrange(0, q) == b2.subrange(0, q),
    ensures
        ({
            let cs1 = cuts_from(b1, s, min_size, avg_size, max_size);
            let cs2 = cuts_from(b2, s, min_size, avg_size, max_size);
            forall|k: int|
                0 <= k < cs1.len() && #[trigger] cs1[k] < q ==> k < cs2.len() && cs2[k] == cs1[k]
        }),
    decreases b1.len() - s,
{
    let cs1 = cuts_from(b1, s, min_size, avg_size, max_size);
    let cs2 = cuts_from(b2, s, min_size, avg_size, max_size);
    if s >= b1.len() {
        // no interior boundaries at all in the first buffer
        assert(cs1.len() == 0);
    } else {
        lemma_cut_bounds(b1, s, min_size, avg_size, max_size);
        let c1 = cut_spec(b1, s, min_size, avg_size, max_size);
        if c1 >= b1.len() {
            assert(cs1.len() == 0);
        } else {
            let rest1 = cuts_from(b1, c1, min_size, avg_size, max_size);
            assert(cs1 == seq![c1] + rest1);
            lemma_cuts_from_props(b1, c1, min_size, avg_size, max_size);
            if c1 < q {
                lemma_cut_local(b1, b2, s, q, min_size, avg_size, max_size);
                assert(cut_spec(b2, s, min_size, avg_size, max_size) == c1);
                let rest2 = cuts_from(b2, c1, min_size, avg_size, max_size);
                assert(cs2 == seq![c1] + rest2);
                lemma_cuts_local(b1, b2, c1, q, min_size, avg_size, max_size);
                assert forall|k: int| 0 <= k < cs1.len() && #[trigger] cs1[k] < q implies k
                    < cs2.len() && cs2[k] == cs1[k] by {
                    if k > 0 {
                        assert(cs1[k] == rest1[k - 1]);
                        assert(rest1[k - 1] < q);
                        assert(k - 1 < rest2.len() && rest2[k - 1] == rest1[k - 1]);
                        assert(cs2[k] == rest2[k - 1]);
                    }
                }
            } else {
                // every boundary from s on lies at or past q
                assert forall|k: int| 0 <= k < cs1.len() && #[trigger] cs1[k] < q implies k
                    < cs2.len() && cs2[k] == cs1[k] by {
                    if k == 0 {
                        assert(cs1[0] == c1 && c1 >= q);
                    } else {
                        assert(cs1[k] == rest1[k - 1]);
                        assert(rest1[k - 1] > c1);
                    }
                }
            }
        }
    }
}

/// Locality: extend or edit a buffer anywhere at or past position `q` — for
/// instance, insert bytes in its middle — and every chunk boundary that lay
/// below `q` is still a boundary of the new buffer, at the same index. Only
/// the chunks near and after the edit can change, which is what makes the
/// chunking useful for deduplication.
pub proof fn lemma_locality(
    b1: Seq<u8>,
    b2: Seq<u8>,
    q: int,
    min_size: u32,
    avg_size: u32,
    max_size: u32,
)
    requires
        0 <= q <= b1.len(),
        b1.len() <= b2.len(),
        b1.subrange(0, q) == b2.subrange(0, q),
    ensures
        ({
            let cs1 = cuts_from(b1, 0, min_size, avg_size, max_size);
            let cs2 = cuts_from(b2, 0, min_size, avg_size, max_size);
            forall|k: int|
                0 <= k < cs1.len() && #[trigger] cs1[k] < q ==> k < cs2.len() && cs2[k] == cs1[k]
        }),
{
    lemma_cuts_local(b1, b2, 0, q, min_size, avg_size, max_size);
}

/// Determinism and stability: the offsets are a function of the bytes and the
/// parameters alone, so byte-identical buffers chunk identically, however and
/// whenever they were built.
pub proof fn lemma_chunks_stable(
    b1: Seq<u8>,
    b2: Seq<u8>,
    min_size: u32,
    avg_size: u32,
    max_size: u32,
)
    requires
        b1 == b2,
    ensures
        chunk_offsets(b1, min_size, avg_size, max_size) == chunk_offsets(
            b2,
            min_size,
            avg_size,
            max_size,
        ),
{
}

} // verus!
