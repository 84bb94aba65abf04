use libafl_fuzzilli::coverage::FuzzilliCoverageObserver;
use libafl_fuzzilli::errors::CoreError;

fn map_with(buffer: Vec<u8>) -> FuzzilliCoverageObserver {
    FuzzilliCoverageObserver::new(buffer).expect("buffer should be well formed")
}

#[test]
fn concrete_buffer_scenario() {
    // 8 edges declared little-endian, one coverage byte 0b00000101.
    let map = map_with(vec![0x08, 0x00, 0x00, 0x00, 0b0000_0101]);
    assert_eq!(map.num_edges(), 8);
    assert_eq!(map.get(0), 1);
    assert_eq!(map.get(1), 0);
    assert_eq!(map.get(2), 1);
    for i in 3..8 {
        assert_eq!(map.get(i), 0);
    }
    assert_eq!(map.count_set(), 2);
}

#[test]
fn rejects_buffer_without_header() {
    assert_eq!(
        FuzzilliCoverageObserver::new(vec![1, 2, 3]).err(),
        Some(CoreError::MalformedBuffer)
    );
    assert_eq!(
        FuzzilliCoverageObserver::new(Vec::new()).err(),
        Some(CoreError::MalformedBuffer)
    );
}

#[test]
fn rejects_buffer_shorter_than_declared_edges() {
    // 16 edges need two coverage bytes; only one is present.
    assert_eq!(
        FuzzilliCoverageObserver::new(vec![16, 0, 0, 0, 0xFF]).err(),
        Some(CoreError::MalformedBuffer)
    );
    // 9 edges need two bytes as well (the count rounds up).
    assert_eq!(
        FuzzilliCoverageObserver::new(vec![9, 0, 0, 0, 0xFF]).err(),
        Some(CoreError::MalformedBuffer)
    );
    // With both bytes present the same header is accepted.
    assert!(FuzzilliCoverageObserver::new(vec![9, 0, 0, 0, 0xFF, 0x01]).is_ok());
}

#[test]
fn out_of_range_reads_zero_and_writes_are_noops() {
    let mut map = map_with(vec![8, 0, 0, 0, 0b0000_0101]);
    assert_eq!(map.get(8), 0);
    assert_eq!(map.get(1_000_000), 0);
    map.set(8, 1);
    map.set(usize::MAX, 1);
    assert_eq!(map.count_set(), 2);
    assert_eq!(map.get(8), 0);
}

#[test]
fn set_then_get_round_trips_every_edge() {
    let mut map = map_with(vec![16, 0, 0, 0, 0, 0]);
    for i in 0..16 {
        map.set(i, 1);
        assert_eq!(map.get(i), 1);
        map.set(i, 0);
        assert_eq!(map.get(i), 0);
    }
}

#[test]
fn count_set_covers_exact_bit_region_with_padding() {
    // 3 edges, but the whole coverage byte is counted, padding included.
    let map = map_with(vec![3, 0, 0, 0, 0xFF]);
    assert_eq!(map.count_set(), 8);
    // A trailing byte beyond the bit region is not counted.
    let map = map_with(vec![3, 0, 0, 0, 0xFF, 0xFF]);
    assert_eq!(map.count_set(), 8);
}

#[test]
fn reset_clears_bits_and_preserves_header() {
    let mut map = map_with(vec![8, 0, 0, 0, 0xAA]);
    assert_eq!(map.count_set(), 4);
    map.reset();
    assert_eq!(map.num_edges(), 8);
    assert_eq!(map.count_set(), 0);
    for i in 0..8 {
        assert_eq!(map.get(i), 0);
    }
    map.set(3, 1);
    assert_eq!(map.get(3), 1);
    assert_eq!(map.count_set(), 1);
}

#[test]
fn dense_vector_lists_one_bit_per_edge() {
    let map = map_with(vec![8, 0, 0, 0, 0b0000_0101]);
    assert_eq!(map.to_dense_vector(), vec![1, 0, 1, 0, 0, 0, 0, 0]);
}

#[test]
fn count_set_among_ignores_out_of_range_and_keeps_duplicates() {
    let map = map_with(vec![8, 0, 0, 0, 0b0000_0101]);
    assert_eq!(map.count_set_among(&[0, 1, 2]), 2);
    assert_eq!(map.count_set_among(&[0, 0, 2, 2]), 4);
    assert_eq!(map.count_set_among(&[7, 8, 100]), 0);
    assert_eq!(map.count_set_among(&[]), 0);
}

#[test]
fn initial_value_is_zero() {
    let map = map_with(vec![8, 0, 0, 0, 0xFF]);
    assert_eq!(map.initial_value(), 0);
}
