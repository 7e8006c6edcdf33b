use cdc_chunking::compute_chunks;
use cdc_chunking::compute_chunks_nocheck;
use cdc_chunking::ChunkError;
use cdc_chunking::AVG_SIZE_FLOOR;
use cdc_chunking::MAX_SIZE_FLOOR;
use cdc_chunking::MIN_SIZE_FLOOR;

fn lorem_data() -> Vec<u8> {
    br"Lorem ipsum dolor sit amet, consectetur adipiscing elit. Ut sit amet bibendum lorem. In pharetra quis felis vel placerat. Aenean eget elementum turpis. Phasellus dolor sem, facilisis a suscipit nec, ullamcorper quis lorem. Proin faucibus purus nec diam feugiat, ac pulvinar purus venenatis. Suspendisse ultrices vestibulum tortor laoreet condimentum. Ut id sapien porta, fringilla urna vitae, congue mi. Praesent eleifend tempus justo, eu volutpat mauris vehicula at. Phasellus ornare congue tortor a tristique. Praesent tristique dolor bibendum sem tempus, ac finibus felis egestas. Nulla nec massa porta, pulvinar urna at, faucibus nisl. Nullam convallis sem eget enim convallis, vel sagittis leo hendrerit. Suspendisse hendrerit mauris faucibus, fermentum augue vel, pulvinar quam. Quisque commodo nulla vel nulla mattis porta. Maecenas fermentum dictum tempor. Praesent rutrum eu erat at euismod.".to_vec()
}

fn sample_data(n: usize, seed: u64) -> Vec<u8> {
    let mut x = seed;
    let mut v = Vec::with_capacity(n);
    for _ in 0..n {
        x = x
            .wrapping_mul(6364136223846793005)
            .wrapping_add(1442695040888963407);
        v.push((x >> 33) as u8);
    }
    v
}

fn chunk_sizes(offsets: &[u32]) -> Vec<u32> {
    let mut sizes = Vec::new();
    let mut prev: u32 = 0;
    for &o in offsets {
        sizes.push(o - prev);
        prev = o;
    }
    sizes
}

#[test]
fn offsets_cover_whole_buffer() {
    let data = lorem_data();
    let offsets = compute_chunks(&data, 64, 256, 1024).unwrap();
    assert!(!offsets.is_empty());
    assert_eq!(*offsets.last().unwrap(), data.len() as u32);
    let mut prev: u32 = 0;
    for (k, &o) in offsets.iter().enumerate() {
        if k == 0 {
            assert!(o > 0);
        } else {
            assert!(o > prev);
        }
        prev = o;
    }
}

#[test]
fn determinism_two_runs() {
    let data = sample_data(5000, 7);
    let a = compute_chunks_nocheck(&data, 64, 256, 1024);
    let b = compute_chunks_nocheck(&data, 64, 256, 1024);
    assert_eq!(a, b);
}

#[test]
fn stability_independent_buffers() {
    let data = lorem_data();
    let offsets_1 = compute_chunks(&data, 64, 256, 1024).unwrap();
    let data_2 = lorem_data();
    let offsets_2 = compute_chunks(&data_2, 64, 256, 1024).unwrap();
    assert_eq!(offsets_1, offsets_2);
}

#[test]
fn size_floor_respected() {
    let data = sample_data(20000, 42);
    let offsets = compute_chunks(&data, 64, 256, 1024).unwrap();
    let sizes = chunk_sizes(&offsets);
    for (k, &size) in sizes.iter().enumerate() {
        if k + 1 < sizes.len() {
            assert!(size >= 64, "chunk {} has size {}", k, size);
        }
    }
}

#[test]
fn size_ceiling_respected() {
    let data = sample_data(20000, 42);
    let offsets = compute_chunks(&data, 64, 256, 1024).unwrap();
    for (k, &size) in chunk_sizes(&offsets).iter().enumerate() {
        assert!(size <= 1024, "chunk {} has size {}", k, size);
    }
}

#[test]
fn min_size_validated_first() {
    let data = lorem_data();
    let err = compute_chunks(&data, 32, 256, 1024).unwrap_err();
    assert_eq!(err, ChunkError::MinSizeTooSmall);
    assert_eq!(err.message(), "min_size should be >= 64");
    // with every floor violated, min_size is still the one reported
    let err = compute_chunks(&data, 32, 128, 512).unwrap_err();
    assert_eq!(err, ChunkError::MinSizeTooSmall);
}

#[test]
fn avg_size_validated_second() {
    let data = lorem_data();
    let err = compute_chunks(&data, 64, 128, 512).unwrap_err();
    assert_eq!(err, ChunkError::AvgSizeTooSmall);
    assert_eq!(err.message(), "avg_size should be >= 256");
}

#[test]
fn max_size_validated_third() {
    let data = lorem_data();
    let err = compute_chunks(&data, 64, 256, 512).unwrap_err();
    assert_eq!(err, ChunkError::MaxSizeTooSmall);
    assert_eq!(err.message(), "max_size should be >= 1024");
}

#[test]
fn floors_accepted_exactly() {
    let data = lorem_data();
    let result = compute_chunks(&data, MIN_SIZE_FLOOR, AVG_SIZE_FLOOR, MAX_SIZE_FLOOR);
    assert!(result.is_ok());
}

#[test]
fn small_input_single_chunk() {
    let data: Vec<u8> = vec![9; 10];
    let offsets = compute_chunks(&data, 64, 256, 1024).unwrap();
    assert_eq!(offsets, vec![10]);
}

#[test]
fn empty_input_single_offset() {
    let data: Vec<u8> = Vec::new();
    let offsets = compute_chunks(&data, 64, 256, 1024).unwrap();
    assert_eq!(offsets, vec![0]);
}

#[test]
fn unchecked_bypass_accepts_any_parameters() {
    let data = sample_data(3000, 3);
    let offsets = compute_chunks_nocheck(&data, 1, 2, 4);
    assert_eq!(*offsets.last().unwrap(), 3000);
    // with no minimum and an empty large mask every position is a boundary
    let offsets = compute_chunks_nocheck(&data, 0, 0, 0);
    let expected: Vec<u32> = (1..=3000).collect();
    assert_eq!(offsets, expected);
}

#[test]
fn equal_floor_and_ceiling_cut_on_a_fixed_cadence() {
    // with min_size == max_size == 100 the hash is never consulted: positions
    // below the floor are not tested and the ceiling forces a cut at 100
    let data = sample_data(350, 11);
    let offsets = compute_chunks_nocheck(&data, 100, 100, 100);
    assert_eq!(offsets, vec![100, 200, 300, 350]);
}

#[test]
fn locality_of_insertion() {
    let data = sample_data(1000, 99);
    let offsets_before = compute_chunks(&data, 64, 256, 1024).unwrap();
    let mut edited = Vec::new();
    edited.extend_from_slice(&data[..500]);
    edited.extend_from_slice(b"a short insert");
    edited.extend_from_slice(&data[500..]);
    let offsets_after = compute_chunks(&edited, 64, 256, 1024).unwrap();
    let low_before: Vec<u32> = offsets_before.iter().copied().filter(|&o| o < 500).collect();
    let low_after: Vec<u32> = offsets_after
        .iter()
        .copied()
        .take(low_before.len())
        .collect();
    assert_eq!(low_before, low_after);
}

#[test]
fn floors_match_published_constants() {
    assert_eq!(MIN_SIZE_FLOOR, fastcdc::MINIMUM_MIN as u32);
    assert_eq!(AVG_SIZE_FLOOR, fastcdc::AVERAGE_MIN as u32);
    assert_eq!(MAX_SIZE_FLOOR, fastcdc::MAXIMUM_MIN as u32);
}
