use libafl_fuzzilli::coverage::FuzzilliCoverageObserver;
use libafl_fuzzilli::engine::LibAflObject;
use libafl_fuzzilli::errors::CoreError;
use libafl_fuzzilli::score::{ConstantDistribution, UniformDistribution};

const WEIGHTED: u8 = 1;
const QUEUE: u8 = 2;

#[test]
fn uniform_scores_for_three_payload_lengths() {
    // Four set coverage bits fixed; payloads "a", "bb", "ccc" score
    // 39.9, 39.8 and 39.7 units (in hundredths), all above the 1.0 floor.
    let map = FuzzilliCoverageObserver::new(vec![8, 0, 0, 0, 0b0000_1111]).unwrap();
    assert_eq!(map.count_set(), 4);
    assert_eq!(UniformDistribution::compute(Some(&map), 1), 3_990);
    assert_eq!(UniformDistribution::compute(Some(&map), 2), 3_980);
    assert_eq!(UniformDistribution::compute(Some(&map), 3), 3_970);
}

#[test]
fn score_falls_back_without_a_coverage_map() {
    // A quarter of a unit, the intentional default.
    assert_eq!(UniformDistribution::compute(None, 0), 25);
    assert_eq!(UniformDistribution::compute(None, 1_000), 25);
}

#[test]
fn score_is_floored_at_one_unit() {
    let map = FuzzilliCoverageObserver::new(vec![8, 0, 0, 0, 0]).unwrap();
    assert_eq!(UniformDistribution::compute(Some(&map), 0), 100);
    assert_eq!(UniformDistribution::compute(Some(&map), 10_000), 100);
    // One set bit and a large payload push the raw score below the floor.
    let map = FuzzilliCoverageObserver::new(vec![8, 0, 0, 0, 1]).unwrap();
    assert_eq!(UniformDistribution::compute(Some(&map), 200), 100);
}

#[test]
fn constant_score_ignores_its_inputs() {
    let map = FuzzilliCoverageObserver::new(vec![8, 0, 0, 0, 0xFF]).unwrap();
    assert_eq!(ConstantDistribution::compute(Some(&map), 1), 100);
    assert_eq!(ConstantDistribution::compute(None, 999), 100);
}

#[test]
fn engine_rejects_malformed_buffers() {
    assert_eq!(
        LibAflObject::new(vec![1, 2], WEIGHTED).err(),
        Some(CoreError::MalformedBuffer)
    );
    assert_eq!(
        LibAflObject::new(vec![16, 0, 0, 0, 0], QUEUE).err(),
        Some(CoreError::MalformedBuffer)
    );
}

#[test]
fn engine_corpus_introspection() {
    let mut engine = LibAflObject::new(vec![8, 0, 0, 0, 0b0000_1111], WEIGHTED).unwrap();
    assert_eq!(engine.count(), 0);
    assert_eq!(engine.first_index(), 0);
    assert_eq!(engine.last_index(), 0);
    assert_eq!(engine.add_input(vec![b'a']).unwrap(), 0);
    assert_eq!(engine.add_input(vec![b'b', b'b']).unwrap(), 1);
    assert_eq!(engine.add_input(vec![b'c', b'c', b'c']).unwrap(), 2);
    assert_eq!(engine.count(), 3);
    assert_eq!(engine.first_index(), 0);
    assert_eq!(engine.last_index(), 2);
    assert_eq!(engine.get_element(1).unwrap(), vec![b'b', b'b']);
    assert_eq!(engine.get_element(99).err(), Some(CoreError::NotFound));
    assert!(engine.contains_input(&[b'a']));
    assert!(!engine.contains_input(&[b'd']));
}

#[test]
fn weighted_engine_returns_stored_payloads() {
    let mut engine = LibAflObject::new(vec![8, 0, 0, 0, 0b0000_0101], WEIGHTED).unwrap();
    engine.add_input(vec![1, 1]).unwrap();
    engine.add_input(vec![2, 2]).unwrap();
    for _ in 0..100 {
        let bytes = engine.suggest_next_input().unwrap();
        assert!(bytes == vec![1, 1] || bytes == vec![2, 2]);
    }
}

#[test]
fn queue_engine_records_lineage_on_add() {
    let mut engine = LibAflObject::new(vec![8, 0, 0, 0, 0], QUEUE).unwrap();
    engine.add_input(vec![1]).unwrap();
    // No entry was active yet when the first input arrived.
    assert_eq!(engine.corpus.get(0).unwrap().parent_id, None);
    engine.suggest_next_input().unwrap();
    // The entry active at discovery time becomes the parent.
    engine.add_input(vec![2]).unwrap();
    assert_eq!(engine.corpus.get(1).unwrap().parent_id, Some(0));
}
