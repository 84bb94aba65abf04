use libafl_fuzzilli::corpus::CorpusStore;
use libafl_fuzzilli::engine::{LibAflObject, SchedulerEnum};
use libafl_fuzzilli::errors::CoreError;
use libafl_fuzzilli::queue::QueueScheduler;
use libafl_fuzzilli::weighted::{ProbabilityMetadata, ProbabilitySamplingScheduler};

const WEIGHTED: u8 = 1;
const QUEUE: u8 = 2;

fn engine_with(kind: u8) -> LibAflObject {
    // 8 edges, two bits set.
    LibAflObject::new(vec![8, 0, 0, 0, 0b0000_0101], kind).expect("well-formed buffer")
}

#[test]
fn queue_visits_every_id_once_per_cycle() {
    let mut store = CorpusStore::new();
    store.add(vec![b'a']).unwrap();
    store.add(vec![b'b']).unwrap();
    store.add(vec![b'c']).unwrap();
    let mut sched = QueueScheduler::new();
    let mut picked = Vec::new();
    for _ in 0..6 {
        picked.push(sched.next(&store).unwrap());
    }
    // Every id exactly once before any repeats, then again in order.
    assert_eq!(picked, vec![0, 1, 2, 0, 1, 2]);
    assert_eq!(sched.cycle_count, 2);
    assert_eq!(sched.runs_in_current_cycle, 0);
}

#[test]
fn queue_cycle_counter_steps_once_per_full_pass() {
    let mut store = CorpusStore::new();
    for payload in [vec![1], vec![2], vec![3], vec![4]] {
        store.add(payload).unwrap();
    }
    let mut sched = QueueScheduler::new();
    for call in 1..=8u64 {
        sched.next(&store).unwrap();
        assert_eq!(sched.cycle_count, call / 4);
        assert_eq!(sched.runs_in_current_cycle, call % 4);
    }
}

#[test]
fn queue_wraps_around_after_the_last_id() {
    let mut store = CorpusStore::new();
    store.add(vec![1]).unwrap();
    store.add(vec![2]).unwrap();
    store.add(vec![3]).unwrap();
    store.remove(1).unwrap();
    let mut sched = QueueScheduler::new();
    assert_eq!(sched.next(&store).unwrap(), 0);
    assert_eq!(sched.next(&store).unwrap(), 2);
    assert_eq!(sched.next(&store).unwrap(), 0);
}

#[test]
fn queue_on_add_records_current_entry_as_parent() {
    let mut store = CorpusStore::new();
    store.add(vec![1]).unwrap();
    let mut sched = QueueScheduler::new();
    sched.next(&store).unwrap();
    let id = store.add(vec![2]).unwrap();
    sched.on_add(&mut store, id).unwrap();
    assert_eq!(store.get(id).unwrap().parent_id, Some(0));
}

#[test]
fn empty_corpus_error_from_queue_scheduler() {
    let store = CorpusStore::new();
    let mut sched = QueueScheduler::new();
    assert_eq!(sched.next(&store).err(), Some(CoreError::EmptyCorpus));
    assert_eq!(sched.cycle_count, 0);
}

#[test]
fn empty_corpus_error_from_weighted_scheduler() {
    let store = CorpusStore::new();
    let mut sched = ProbabilitySamplingScheduler::new(7);
    assert_eq!(sched.next(&store).err(), Some(CoreError::EmptyCorpus));
}

#[test]
fn empty_corpus_error_from_both_engine_variants() {
    for kind in [WEIGHTED, QUEUE] {
        let mut engine = engine_with(kind);
        assert_eq!(
            engine.suggest_next_input().err(),
            Some(CoreError::EmptyCorpus)
        );
    }
}

#[test]
fn equal_scores_sample_each_entry_near_uniformly() {
    // Three one-byte payloads under a fixed coverage view carry equal
    // scores, so 30,000 draws should pick each id close to a third of
    // the time.
    let mut engine = engine_with(WEIGHTED);
    engine.add_input(vec![b'a']).unwrap();
    engine.add_input(vec![b'b']).unwrap();
    engine.add_input(vec![b'c']).unwrap();
    let mut counts = [0u32; 3];
    for _ in 0..30_000 {
        let bytes = engine.suggest_next_input().unwrap();
        match bytes[0] {
            b'a' => counts[0] += 1,
            b'b' => counts[1] += 1,
            b'c' => counts[2] += 1,
            _ => panic!("unexpected payload"),
        }
    }
    for count in counts {
        assert!(count >= 9_000, "frequency too low: {count}");
        assert!(count <= 11_000, "frequency too high: {count}");
    }
}

#[test]
fn heavily_weighted_entry_dominates_sampling() {
    let mut store = CorpusStore::new();
    store.add(vec![b'x']).unwrap();
    store.add(vec![b'y']).unwrap();
    store.add(vec![b'z']).unwrap();
    let mut sched = ProbabilitySamplingScheduler::new(12345);
    // Scores 100.0, 1.0, 1.0 in hundredths of a unit.
    sched.on_add(0, 10_000).unwrap();
    sched.on_add(1, 100).unwrap();
    sched.on_add(2, 100).unwrap();
    let mut first = 0u32;
    for _ in 0..30_000 {
        if sched.next(&store).unwrap() == 0 {
            first += 1;
        }
    }
    // Expected frequency 10000/10200, well above 90%.
    assert!(first > 27_000, "heavy entry picked only {first} times");
}

#[test]
fn selection_intervals_follow_table_order() {
    let mut meta = ProbabilityMetadata::new();
    meta.insert(0, 100).unwrap();
    meta.insert(1, 100).unwrap();
    meta.insert(2, 100).unwrap();
    assert_eq!(meta.total_weight(), 300);
    assert_eq!(meta.select(0), 0);
    assert_eq!(meta.select(99), 0);
    assert_eq!(meta.select(100), 1);
    assert_eq!(meta.select(199), 1);
    assert_eq!(meta.select(200), 2);
    assert_eq!(meta.select(299), 2);
}

#[test]
fn selection_respects_unequal_widths() {
    let mut meta = ProbabilityMetadata::new();
    meta.insert(3, 10).unwrap();
    meta.insert(7, 1).unwrap();
    meta.insert(9, 5).unwrap();
    assert_eq!(meta.total_weight(), 16);
    assert_eq!(meta.select(9), 3);
    assert_eq!(meta.select(10), 7);
    assert_eq!(meta.select(11), 9);
    assert_eq!(meta.select(15), 9);
}

#[test]
fn weight_table_overflow_is_a_storage_failure() {
    let mut meta = ProbabilityMetadata::new();
    meta.insert(0, u64::MAX).unwrap();
    assert_eq!(meta.insert(1, 1).err(), Some(CoreError::StorageFailure));
    assert_eq!(meta.len(), 1);
    assert_eq!(meta.total_weight(), u64::MAX);
}

#[test]
fn queue_engine_walks_payloads_in_insertion_order() {
    let mut engine = engine_with(QUEUE);
    engine.add_input(vec![b'a']).unwrap();
    engine.add_input(vec![b'b']).unwrap();
    engine.add_input(vec![b'c']).unwrap();
    let mut seen = Vec::new();
    for _ in 0..6 {
        seen.push(engine.suggest_next_input().unwrap()[0]);
    }
    assert_eq!(seen, vec![b'a', b'b', b'c', b'a', b'b', b'c']);
    match &engine.scheduler {
        SchedulerEnum::Queue(q) => {
            assert_eq!(q.cycle_count, 2);
            assert_eq!(q.runs_in_current_cycle, 0);
            assert_eq!(q.current_id, Some(2));
        }
        SchedulerEnum::UniformProbability(_) => panic!("queue engine expected"),
    }
}
