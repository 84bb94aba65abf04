//! Driver-facing engine: a coverage map view, the corpus store, and the
//! active scheduling policy, wired together so that every added input is
//! registered with the scheduler and every suggestion resolves to a stored
//! payload. The host layer around it only attaches shared memory, moves
//! bytes, and calls in.

use vstd::prelude::*;

use crate::corpus::{contains_id, find_index, CorpusEntry, CorpusStore};
use crate::coverage::{bit_region_len, buffer_ok, pop_range, FuzzilliCoverageObserver};
use crate::errors::CoreError;
use crate::queue::{lemma_queue_pick_in_ids, queue_step, QueueScheduler};
use crate::score::{uniform_score_centi, UniformDistribution};
use crate::weighted::{lemma_insert_pos_at, spec_select, ProbabilitySamplingScheduler};

verus! {

/// Seed of the weighted scheduler's draw source.
pub const DEFAULT_SEED: u64 = 12345;

/// The active scheduling policy.
pub enum SchedulerEnum {
    /// Score-weighted sampling under the uniform score function.
    UniformProbability(ProbabilitySamplingScheduler),
    /// Deterministic round-robin traversal.
    Queue(QueueScheduler),
}

/// The ids of a weight table, in table order.
pub open spec fn table_ids(s: Seq<(u64, u64)>) -> Seq<u64> {
    s.map_values(|e: (u64, u64)| e.0)
}

/// The ids of the corpus, in ascending order.
pub open spec fn corpus_ids(s: Seq<CorpusEntry>) -> Seq<u64> {
    s.map_values(|e: CorpusEntry| e.id)
}

/// The parent the active scheduler records on a newly added entry: the
/// round-robin traversal marks the entry it currently stands on; weighted
/// sampling records no lineage at insertion.
pub open spec fn spec_parent_of(s: SchedulerEnum) -> Option<u64> {
    match s {
        SchedulerEnum::Queue(q) => q.current_id,
        SchedulerEnum::UniformProbability(_) => None,
    }
}

/// The score the engine computes for a new entry of the given length.
pub open spec fn spec_entry_score(o: FuzzilliCoverageObserver, len: int) -> int {
    uniform_score_centi(pop_range(o@, 4, 4 + bit_region_len(o.spec_num_edges() as int)), len)
}

/// The decision engine handed to the host layer.
pub struct LibAflObject {
    /// Snapshot view of the coverage buffer.
    pub observer: FuzzilliCoverageObserver,
    /// The retained test cases.
    pub corpus: CorpusStore,
    /// The active scheduling policy.
    pub scheduler: SchedulerEnum,
}

impl LibAflObject {
    /// Components well formed, and under weighted sampling the weight
    /// table covers exactly the stored ids: an id absent from the table
    /// could never be selected, which would be a logic error, not a skip.
    pub open spec fn wf(&self) -> bool {
        &&& self.observer.wf()
        &&& self.corpus.wf()
        &&& match self.scheduler {
            SchedulerEnum::Queue(_) => true,
            SchedulerEnum::UniformProbability(p) => p.wf() && table_ids(p.metadata@)
                == corpus_ids(self.corpus@),
        }
    }

    /// Builds the engine over a snapshot of the coverage buffer with an
    /// empty corpus; `scheduler_type` 1 selects weighted sampling, 2 the
    /// round-robin queue. Rejects a buffer that cannot hold its header or
    /// the bit region the header demands.
    pub fn new(coverage_buffer: Vec<u8>, scheduler_type: u8) -> (r: Result<Self, CoreError>)
        requires
            scheduler_type == 1 || scheduler_type == 2,
        ensures
            r is Ok <==> buffer_ok(coverage_buffer@),
            r is Err ==> r == Err::<Self, CoreError>(CoreError::MalformedBuffer),
            r matches Ok(o) ==> {
                &&& o.wf()
                &&& o.observer@ == coverage_buffer@
                &&& o.corpus@ == Seq::<CorpusEntry>::empty()
                &&& o.corpus.spec_next_id() == 0
                &&& scheduler_type == 1 ==> (o.scheduler matches SchedulerEnum::UniformProbability(
                    p,
                ) && p.metadata@ == Seq::<(u64, u64)>::empty())
                &&& scheduler_type == 2 ==> (o.scheduler matches SchedulerEnum::Queue(q)
                    && q.current_id is None && q.runs_in_current_cycle == 0 && q.cycle_count == 0)
            },
    {
        let observer = match FuzzilliCoverageObserver::new(coverage_buffer) {
            Ok(o) => o,
            Err(e) => {
                return Err(e);
            },
        };
        let scheduler = if scheduler_type == 1 {
            SchedulerEnum::UniformProbability(ProbabilitySamplingScheduler::new(DEFAULT_SEED))
        } else {
            SchedulerEnum::Queue(QueueScheduler::new())
        };
        let obj = LibAflObject { observer, corpus: CorpusStore::new(), scheduler };
        proof {
            match &obj.scheduler {
                SchedulerEnum::UniformProbability(p) => {
                    assert(table_ids(p.metadata@) =~= corpus_ids(obj.corpus@));
                },
                SchedulerEnum::Queue(_) => {},
            }
        }
        Ok(obj)
    }

    /// Records a new corpus entry and registers it with the scheduler: a
    /// fresh sequential id, the parent the policy records, and — under
    /// weighted sampling — the entry's score added to the weight table.
    /// Fails only when the id space or the weight total is exhausted, in
    /// which case the corpus is unchanged.
    pub fn add_input(&mut self, input_data: Vec<u8>) -> (r: Result<u64, CoreError>)
        requires
            old(self).wf(),
        ensures
            final(self).wf(),
            final(self).observer == old(self).observer,
            r is Ok <==> (old(self).corpus.spec_next_id() < u64::MAX && match old(self).scheduler {
                SchedulerEnum::Queue(_) => true,
                SchedulerEnum::UniformProbability(p) => p.metadata.spec_total() + spec_entry_score(
                    old(self).observer,
                    input_data@.len() as int,
                ) <= u64::MAX,
            }),
            r is Err ==> r == Err::<u64, CoreError>(CoreError::StorageFailure) && *final(self)
                == *old(self),
            r matches Ok(id) ==> {
                &&& id == old(self).corpus.spec_next_id()
                &&& final(self).corpus.spec_next_id() == id + 1
                &&& final(self).corpus@ == old(self).corpus@.push(
                    (CorpusEntry {
                        id: id,
                        bytes: input_data,
                        parent_id: spec_parent_of(old(self).scheduler),
                    }),
                )
                &&& match (old(self).scheduler, final(self).scheduler) {
                    (SchedulerEnum::Queue(q0), SchedulerEnum::Queue(q1)) => q1 == q0,
                    (
                        SchedulerEnum::UniformProbability(p0),
                        SchedulerEnum::UniformProbability(p1),
                    ) => p1.metadata@ == p0.metadata@.push(
                        (id, spec_entry_score(old(self).observer, input_data@.len() as int) as u64),
                    ) && p1.metadata.spec_total() == p0.metadata.spec_total() + spec_entry_score(
                        old(self).observer,
                        input_data@.len() as int,
                    ),
                    _ => false,
                }
            },
    {
        match &mut self.scheduler {
            SchedulerEnum::Queue(q) => {
                let ghost before = self.corpus@;
                let id = match self.corpus.add(input_data) {
                    Ok(id) => id,
                    Err(e) => {
                        return Err(e);
                    },
                };
                proof {
                    assert(self.corpus@[before.len() as int].id == id);
                    assert(contains_id(self.corpus@, id));
                }
                let res = q.on_add(&mut self.corpus, id);
                proof {
                    assert(res is Ok);
                    let mid = before.push(
                        (CorpusEntry { id: id, bytes: input_data, parent_id: None }),
                    );
                    let fi = find_index(mid, id);
                    crate::corpus::lemma_find_index_props(mid, id);
                    assert(fi == before.len()) by {
                        if fi < before.len() {
                            assert(mid[fi] == before[fi]);
                        }
                    }
                    assert(self.corpus@ =~= before.push(
                        (CorpusEntry { id: id, bytes: input_data, parent_id: q.current_id }),
                    ));
                }
                Ok(id)
            },
            SchedulerEnum::UniformProbability(p) => {
                let score = UniformDistribution::compute(
                    Some(&self.observer),
                    input_data.len(),
                );
                let total = p.metadata.total_weight();
                if score > u64::MAX - total {
                    return Err(CoreError::StorageFailure);
                }
                let ghost before = self.corpus@;
                let ghost table_before = p.metadata@;
                let id = match self.corpus.add(input_data) {
                    Ok(id) => id,
                    Err(e) => {
                        return Err(e);
                    },
                };
                proof {
                    lemma_ids_index(table_before, before);
                    assert forall|i: int|
                        0 <= i < table_before.len() implies (#[trigger] table_before[i].0)
                        < id by {
                        assert(before[i].id < id);
                    }
                    lemma_insert_pos_at(table_before, id, table_before.len() as int);
                }
                let res = p.on_add(id, score);
                proof {
                    assert(res is Ok);
                    assert(p.metadata@ =~= table_before.push((id, score)));
                    lemma_ids_eq(p.metadata@, self.corpus@);
                }
                Ok(id)
            },
        }
    }

    /// Asks the active policy for the next entry and returns a copy of its
    /// payload; fails with `EmptyCorpus` exactly when the corpus is empty,
    /// leaving the corpus untouched.
    pub fn suggest_next_input(&mut self) -> (r: Result<Vec<u8>, CoreError>)
        requires
            old(self).wf(),
        ensures
            final(self).wf(),
            final(self).observer == old(self).observer,
            final(self).corpus == old(self).corpus,
            r is Err <==> old(self).corpus@.len() == 0,
            r is Err ==> r == Err::<Vec<u8>, CoreError>(CoreError::EmptyCorpus)
                && final(self).scheduler == old(self).scheduler,
            r matches Ok(bytes) ==> match (old(self).scheduler, final(self).scheduler) {
                (SchedulerEnum::Queue(q0), SchedulerEnum::Queue(q1)) => {
                    let pick = queue_step(old(self).corpus@, q0).1;
                    &&& q1 == queue_step(old(self).corpus@, q0).0
                    &&& contains_id(old(self).corpus@, pick)
                    &&& bytes@ == old(self).corpus@[find_index(old(self).corpus@, pick)].bytes@
                },
                (
                    SchedulerEnum::UniformProbability(p0),
                    SchedulerEnum::UniformProbability(p1),
                ) => {
                    &&& p1.metadata == p0.metadata
                    &&& exists|d: int|
                        0 <= d < p0.metadata.spec_total() && {
                            let pick = #[trigger] spec_select(p0.metadata@, d);
                            contains_id(old(self).corpus@, pick) && bytes@ == old(
                                self,
                            ).corpus@[find_index(old(self).corpus@, pick)].bytes@
                        }
                },
                _ => false,
            },
    {
        match &mut self.scheduler {
            SchedulerEnum::Queue(q) => {
                let pick = match q.next(&self.corpus) {
                    Ok(p) => p,
                    Err(e) => {
                        return Err(e);
                    },
                };
                proof {
                    lemma_queue_pick_in_ids(self.corpus@, old(self).scheduler->Queue_0.current_id);
                }
                let entry = match self.corpus.get(pick) {
                    Ok(e) => e,
                    Err(_) => {
                        proof {
                            assert(false);
                        }
                        return Err(CoreError::EmptyCorpus);
                    },
                };
                Ok(copy_bytes(entry.bytes.as_slice()))
            },
            SchedulerEnum::UniformProbability(p) => {
                let ghost table = p.metadata@;
                let pick = match p.next(&self.corpus) {
                    Ok(id) => id,
                    Err(e) => {
                        proof {
                            lemma_ids_index(table, self.corpus@);
                        }
                        return Err(e);
                    },
                };
                proof {
                    lemma_ids_index(table, self.corpus@);
                    let w = choose|i: int| 0 <= i < table.len() && (#[trigger] table[i].0) == pick;
                    assert(self.corpus@[w].id == pick);
                    assert(contains_id(self.corpus@, pick));
                }
                let entry = match self.corpus.get(pick) {
                    Ok(e) => e,
                    Err(_) => {
                        proof {
                            assert(false);
                        }
                        return Err(CoreError::EmptyCorpus);
                    },
                };
                Ok(copy_bytes(entry.bytes.as_slice()))
            },
        }
    }

    /// Number of entries currently stored.
    pub fn count(&self) -> (r: u64)
        ensures
            r == self.corpus@.len(),
    {
        self.corpus.count() as u64
    }

    /// The smallest stored id, or 0 when the corpus is empty.
    pub fn first_index(&self) -> (r: u64)
        ensures
            r == (if self.corpus@.len() == 0 {
                0int
            } else {
                self.corpus@[0].id as int
            }),
    {
        match self.corpus.first_id() {
            Some(id) => id,
            None => 0,
        }
    }

    /// The largest stored id, or 0 when the corpus is empty.
    pub fn last_index(&self) -> (r: u64)
        ensures
            r == (if self.corpus@.len() == 0 {
                0int
            } else {
                self.corpus@[self.corpus@.len() - 1].id as int
            }),
    {
        match self.corpus.last_id() {
            Some(id) => id,
            None => 0,
        }
    }

    /// A copy of the payload stored under `id`; an unknown or evicted id
    /// fails with the typed `NotFound` error.
    pub fn get_element(&self, id: u64) -> (r: Result<Vec<u8>, CoreError>)
        requires
            self.wf(),
        ensures
            r is Ok <==> contains_id(self.corpus@, id),
            r matches Ok(bytes) ==> bytes@ == self.corpus@[find_index(self.corpus@, id)].bytes@,
            r is Err ==> r == Err::<Vec<u8>, CoreError>(CoreError::NotFound),
    {
        match self.corpus.get(id) {
            Ok(e) => Ok(copy_bytes(e.bytes.as_slice())),
            Err(e) => Err(e),
        }
    }

    /// Whether some entry already holds exactly this payload; lets the
    /// host skip re-adding inputs it has seen.
    pub fn contains_input(&self, input_data: &[u8]) -> (r: bool)
        ensures
            r == exists|i: int|
                0 <= i < self.corpus@.len() && (#[trigger] self.corpus@[i].bytes@) == input_data@,
    {
        self.corpus.contains_bytes(input_data)
    }
}

/// Matching id sequences pin the tables together, element by element.
proof fn lemma_ids_index(s: Seq<(u64, u64)>, c: Seq<CorpusEntry>)
    requires
        table_ids(s) == corpus_ids(c),
    ensures
        s.len() == c.len(),
        forall|i: int| 0 <= i < s.len() ==> (#[trigger] s[i].0) == c[i].id,
{
    assert(table_ids(s).len() == s.len());
    assert(corpus_ids(c).len() == c.len());
    assert forall|i: int| 0 <= i < s.len() implies (#[trigger] s[i].0) == c[i].id by {
        assert(table_ids(s)[i] == s[i].0);
        assert(corpus_ids(c)[i] == c[i].id);
    }
}

/// Element-wise matching ids make the id sequences equal.
proof fn lemma_ids_eq(s: Seq<(u64, u64)>, c: Seq<CorpusEntry>)
    requires
        s.len() == c.len(),
        forall|i: int| 0 <= i < s.len() ==> (#[trigger] s[i].0) == c[i].id,
    ensures
        table_ids(s) == corpus_ids(c),
{
    assert forall|i: int| 0 <= i < s.len() implies table_ids(s)[i] == corpus_ids(c)[i] by {
        assert(table_ids(s)[i] == s[i].0);
        assert(corpus_ids(c)[i] == c[i].id);
    }
    assert(table_ids(s) =~= corpus_ids(c));
}

/// An owned copy of a byte string.
pub fn copy_bytes(src: &[u8]) -> (r: Vec<u8>)
    ensures
        r@ == src@,
{
    let mut out: Vec<u8> = Vec::new();
    let mut i: usize = 0;
    while i < src.len()
        invariant
            0 <= i <= src@.len(),
            out@ == src@.take(i as int),
        decreases src@.len() - i,
    {
        proof {
            assert(src@.take(i as int).push(src@[i as int]) =~= src@.take(i as int + 1));
        }
        out.push(src[i]);
        i = i + 1;
    }
    proof {
        assert(src@.take(src@.len() as int) =~= src@);
    }
    out
}

} // verus!
