//! Score-weighted sampling scheduler.
//!
//! A table maps every schedulable entry id to its last-computed score and
//! keeps the running total. `next` draws a value below the total and picks
//! the id whose cumulative score interval contains it — the standard
//! cumulative-distribution sampling, with ties broken in ascending id
//! order (which yields uniform behavior when all scores are equal).

use vstd::prelude::*;

use libafl_bolts::rands::RomuDuoJrRand;

use crate::corpus::CorpusStore;
use crate::errors::CoreError;
use crate::rng::{rng_next, rng_with_seed};

verus! {

/// Sum of the scores of a weight table.
pub open spec fn sum_scores(s: Seq<(u64, u64)>) -> int
    decreases s.len(),
{
    if s.len() == 0 {
        0
    } else {
        s[0].1 + sum_scores(s.drop_first())
    }
}

/// Whether the table holds a weight for `id`.
pub open spec fn table_contains(s: Seq<(u64, u64)>, id: u64) -> bool {
    exists|i: int| 0 <= i < s.len() && (#[trigger] s[i].0) == id
}

/// The position a sorted insert of `id` takes: the number of smaller ids.
pub open spec fn insert_pos(s: Seq<(u64, u64)>, id: u64) -> int
    decreases s.len(),
{
    if s.len() == 0 {
        0
    } else if id < s[0].0 {
        0
    } else {
        1 + insert_pos(s.drop_first(), id)
    }
}

/// The id whose cumulative score interval contains draw `d`: intervals are
/// laid out in table order, so ties among equal scores resolve to the
/// smaller id.
pub open spec fn spec_select(s: Seq<(u64, u64)>, d: int) -> u64
    recommends
        s.len() > 0,
        0 <= d < sum_scores(s),
    decreases s.len(),
{
    if s.len() <= 1 || d < s[0].1 {
        s[0].0
    } else {
        spec_select(s.drop_first(), d - s[0].1)
    }
}

/// Mapping from entry id to last-computed sampling weight, with the
/// running total; every id schedulable by weighted sampling must be here.
pub struct ProbabilityMetadata {
    map: Vec<(u64, u64)>,
    total_weight: u64,
}

impl View for ProbabilityMetadata {
    type V = Seq<(u64, u64)>;

    closed spec fn view(&self) -> Seq<(u64, u64)> {
        self.map@
    }
}

impl ProbabilityMetadata {
    pub closed spec fn spec_total(&self) -> u64 {
        self.total_weight
    }

    /// Ids strictly ascending, every score positive, total consistent.
    pub open spec fn wf(&self) -> bool {
        &&& forall|i: int, j: int|
            0 <= i < j < self@.len() ==> (#[trigger] self@[i].0) < (#[trigger] self@[j].0)
        &&& forall|i: int| 0 <= i < self@.len() ==> (#[trigger] self@[i].1) >= 1
        &&& self.spec_total() == sum_scores(self@)
    }

    pub fn new() -> (r: Self)
        ensures
            r.wf(),
            r@ == Seq::<(u64, u64)>::empty(),
            r.spec_total() == 0,
    {
        ProbabilityMetadata { map: Vec::new(), total_weight: 0 }
    }

    pub fn len(&self) -> (r: usize)
        ensures
            r == self@.len(),
    {
        self.map.len()
    }

    pub fn total_weight(&self) -> (r: u64)
        ensures
            r == self.spec_total(),
    {
        self.total_weight
    }

    /// Records the weight of a new id; fails only when the running total
    /// would overflow, in which case nothing changes.
    pub fn insert(&mut self, id: u64, score: u64) -> (r: Result<(), CoreError>)
        requires
            old(self).wf(),
            score >= 1,
            !table_contains(old(self)@, id),
        ensures
            final(self).wf(),
            old(self).spec_total() + score <= u64::MAX ==> {
                &&& r == Ok::<(), CoreError>(())
                &&& final(self)@ == old(self)@.insert(insert_pos(old(self)@, id), (id, score))
                &&& final(self).spec_total() == old(self).spec_total() + score
            },
            old(self).spec_total() + score > u64::MAX ==> {
                &&& r == Err::<(), CoreError>(CoreError::StorageFailure)
                &&& *final(self) == *old(self)
            },
    {
        if score > u64::MAX - self.total_weight {
            return Err(CoreError::StorageFailure);
        }
        proof {
            lemma_insert_pos_props(self@, id);
        }
        let mut i: usize = 0;
        while i < self.map.len() && self.map[i].0 < id
            invariant
                old(self).wf(),
                *self == *old(self),
                !table_contains(self@, id),
                0 <= i <= self@.len(),
                forall|j: int| 0 <= j < i ==> (#[trigger] self@[j].0) < id,
            decreases self@.len() - i,
        {
            i = i + 1;
        }
        proof {
            if i < self@.len() && self@[i as int].0 == id {
                assert(table_contains(self@, id));
                assert(false);
            }
            lemma_insert_pos_at(self@, id, i as int);
            lemma_sum_insert(self@, insert_pos(self@, id), (id, score));
        }
        self.map.insert(i, (id, score));
        self.total_weight = self.total_weight + score;
        proof {
            lemma_wf_after_insert(old(self)@, id, score);
        }
        Ok(())
    }

    /// The id whose cumulative score interval contains `draw`.
    pub fn select(&self, draw: u64) -> (r: u64)
        requires
            self.wf(),
            self@.len() > 0,
            draw < self.spec_total(),
        ensures
            r == spec_select(self@, draw as int),
            table_contains(self@, r),
    {
        proof {
            assert(self@.skip(0) =~= self@);
            lemma_select_in_table(self@, draw as int);
        }
        let mut i: usize = 0;
        let mut acc: u64 = 0;
        while i < self.map.len() - 1
            invariant
                self.wf(),
                0 <= i < self@.len(),
                acc <= draw < self.spec_total(),
                acc + sum_scores(self@.skip(i as int)) == self.spec_total(),
                spec_select(self@, draw as int) == spec_select(
                    self@.skip(i as int),
                    draw - acc,
                ),
            decreases self@.len() - i,
        {
            proof {
                lemma_sum_skip_step(self@, i as int);
                lemma_sum_nonneg(self@.skip(i as int + 1));
            }
            let sc = self.map[i].1;
            if draw < acc + sc {
                proof {
                    assert(self@.skip(i as int)[0] == self@[i as int]);
                }
                return self.map[i].0;
            }
            proof {
                assert(self@.skip(i as int).drop_first() =~= self@.skip(i as int + 1));
            }
            acc = acc + sc;
            i = i + 1;
        }
        proof {
            assert(i == self@.len() - 1);
            assert(self@.skip(i as int).len() == 1);
            assert(self@.skip(i as int)[0] == self@[i as int]);
        }
        self.map[i].0
    }
}

/// The weighted sampling scheduler: the weight table plus the generator
/// that draws the samples.
pub struct ProbabilitySamplingScheduler {
    /// Sampling weights of every schedulable entry.
    pub metadata: ProbabilityMetadata,
    /// The draw source; opaque to the proofs, which hold for every value
    /// it may yield.
    pub rng: RomuDuoJrRand,
}

impl ProbabilitySamplingScheduler {
    pub open spec fn wf(&self) -> bool {
        self.metadata.wf()
    }

    /// An empty table over a generator with the given seed.
    pub fn new(seed: u64) -> (r: Self)
        ensures
            r.wf(),
            r.metadata@ == Seq::<(u64, u64)>::empty(),
            r.metadata.spec_total() == 0,
    {
        ProbabilitySamplingScheduler {
            metadata: ProbabilityMetadata::new(),
            rng: rng_with_seed(seed),
        }
    }

    /// Records the score of a newly added entry and adds it to the running
    /// total; fails only when the total would overflow, changing nothing.
    pub fn on_add(&mut self, id: u64, score: u64) -> (r: Result<(), CoreError>)
        requires
            old(self).wf(),
            score >= 1,
            !table_contains(old(self).metadata@, id),
        ensures
            final(self).wf(),
            old(self).metadata.spec_total() + score <= u64::MAX ==> {
                &&& r == Ok::<(), CoreError>(())
                &&& final(self).metadata@ == old(self).metadata@.insert(
                    insert_pos(old(self).metadata@, id),
                    (id, score),
                )
                &&& final(self).metadata.spec_total() == old(self).metadata.spec_total() + score
            },
            old(self).metadata.spec_total() + score > u64::MAX ==> {
                &&& r == Err::<(), CoreError>(CoreError::StorageFailure)
                &&& final(self).metadata == old(self).metadata
            },
    {
        self.metadata.insert(id, score)
    }

    /// Draws the next entry id by weighted sampling; fails with
    /// `EmptyCorpus` when the store or the weight table is empty. The table
    /// is left unchanged; only the generator state advances.
    pub fn next(&mut self, store: &CorpusStore) -> (r: Result<u64, CoreError>)
        requires
            old(self).wf(),
            store.wf(),
        ensures
            final(self).wf(),
            final(self).metadata == old(self).metadata,
            r is Err <==> (store@.len() == 0 || old(self).metadata@.len() == 0),
            r is Err ==> r == Err::<u64, CoreError>(CoreError::EmptyCorpus) && *final(self)
                == *old(self),
            r matches Ok(id) ==> table_contains(old(self).metadata@, id) && exists|d: int|
                0 <= d < old(self).metadata.spec_total() && id == spec_select(
                    old(self).metadata@,
                    d,
                ),
    {
        if store.count() == 0 || self.metadata.len() == 0 {
            return Err(CoreError::EmptyCorpus);
        }
        proof {
            lemma_sum_at_least_len(self.metadata@);
        }
        let total = self.metadata.total_weight();
        let raw = rng_next(&mut self.rng);
        let draw = raw % total;
        let id = self.metadata.select(draw);
        Ok(id)
    }
}

proof fn lemma_sum_nonneg(s: Seq<(u64, u64)>)
    ensures
        sum_scores(s) >= 0,
    decreases s.len(),
{
    if s.len() > 0 {
        lemma_sum_nonneg(s.drop_first());
    }
}

/// A table of positive scores sums to at least its length.
proof fn lemma_sum_at_least_len(s: Seq<(u64, u64)>)
    requires
        forall|i: int| 0 <= i < s.len() ==> (#[trigger] s[i].1) >= 1,
    ensures
        sum_scores(s) >= s.len(),
    decreases s.len(),
{
    if s.len() > 0 {
        let t = s.drop_first();
        assert(forall|k: int| 0 <= k < t.len() ==> (#[trigger] t[k]) == s[k + 1]);
        lemma_sum_at_least_len(t);
    }
}

/// Peels the first unscanned entry off the running total.
proof fn lemma_sum_skip_step(s: Seq<(u64, u64)>, i: int)
    requires
        0 <= i < s.len(),
    ensures
        sum_scores(s.skip(i)) == s[i].1 + sum_scores(s.skip(i + 1)),
{
    assert(s.skip(i)[0] == s[i]);
    assert(s.skip(i).drop_first() =~= s.skip(i + 1));
}

/// What `insert_pos` yields on an ascending table without the id: every
/// entry before it is smaller, every entry from it on is larger.
proof fn lemma_insert_pos_props(s: Seq<(u64, u64)>, id: u64)
    requires
        forall|i: int, j: int| 0 <= i < j < s.len() ==> (#[trigger] s[i].0) < (#[trigger] s[j].0),
        !table_contains(s, id),
    ensures
        0 <= insert_pos(s, id) <= s.len(),
        forall|j: int| 0 <= j < insert_pos(s, id) ==> (#[trigger] s[j].0) < id,
        forall|j: int| insert_pos(s, id) <= j < s.len() ==> (#[trigger] s[j].0) > id,
    decreases s.len(),
{
    if s.len() == 0 {
    } else if id < s[0].0 {
    } else {
        let t = s.drop_first();
        assert(forall|k: int| 0 <= k < t.len() ==> (#[trigger] t[k]) == s[k + 1]);
        assert forall|i: int| 0 <= i < t.len() && (#[trigger] t[i].0) == id implies false by {
            assert(s[i + 1].0 == id);
            assert(table_contains(s, id));
        }
        lemma_insert_pos_props(t, id);
        assert(s[0].0 != id) by {
            if s[0].0 == id {
                assert(table_contains(s, id));
            }
        }
        let p = insert_pos(s, id);
        assert(p == 1 + insert_pos(t, id));
        assert forall|j: int| 0 <= j < p implies (#[trigger] s[j].0) < id by {
            if j >= 1 {
                assert(t[j - 1].0 < id);
            }
        }
        assert forall|j: int| p <= j < s.len() implies (#[trigger] s[j].0) > id by {
            assert(t[j - 1].0 > id);
        }
    }
}

/// A scan that stopped at the first larger id stands at the insert position.
pub(crate) proof fn lemma_insert_pos_at(s: Seq<(u64, u64)>, id: u64, i: int)
    requires
        0 <= i <= s.len(),
        forall|j: int| 0 <= j < i ==> (#[trigger] s[j].0) < id,
        i < s.len() ==> s[i].0 > id,
    ensures
        insert_pos(s, id) == i,
    decreases s.len(),
{
    if s.len() == 0 {
    } else if id < s[0].0 {
        assert(i == 0);
    } else {
        assert(i >= 1);
        let t = s.drop_first();
        assert(forall|k: int| 0 <= k < t.len() ==> (#[trigger] t[k]) == s[k + 1]);
        lemma_insert_pos_at(t, id, i - 1);
    }
}

/// Inserting one entry adds exactly its score to the sum.
proof fn lemma_sum_insert(s: Seq<(u64, u64)>, p: int, e: (u64, u64))
    requires
        0 <= p <= s.len(),
    ensures
        sum_scores(s.insert(p, e)) == sum_scores(s) + e.1,
    decreases p,
{
    if p == 0 {
        assert(s.insert(0, e)[0] == e);
        assert(s.insert(0, e).drop_first() =~= s);
    } else {
        let t = s.drop_first();
        assert(s.insert(p, e)[0] == s[0]);
        assert(s.insert(p, e).drop_first() =~= t.insert(p - 1, e));
        lemma_sum_insert(t, p - 1, e);
    }
}

/// An insert at the position of `insert_pos` keeps the table well formed.
proof fn lemma_wf_after_insert(s: Seq<(u64, u64)>, id: u64, score: u64)
    requires
        forall|i: int, j: int| 0 <= i < j < s.len() ==> (#[trigger] s[i].0) < (#[trigger] s[j].0),
        forall|i: int| 0 <= i < s.len() ==> (#[trigger] s[i].1) >= 1,
        !table_contains(s, id),
        score >= 1,
    ensures
        ({
            let u = s.insert(insert_pos(s, id), (id, score));
            &&& forall|i: int, j: int|
                0 <= i < j < u.len() ==> (#[trigger] u[i].0) < (#[trigger] u[j].0)
            &&& forall|i: int| 0 <= i < u.len() ==> (#[trigger] u[i].1) >= 1
        }),
{
    lemma_insert_pos_props(s, id);
    let p = insert_pos(s, id);
    let u = s.insert(p, (id, score));
    assert(forall|k: int| 0 <= k < p ==> (#[trigger] u[k]) == s[k]);
    assert(u[p] == (id, score));
    assert(forall|k: int| p < k < u.len() ==> (#[trigger] u[k]) == s[k - 1]);
}

/// Every selection result is an id of the table.
proof fn lemma_select_in_table(s: Seq<(u64, u64)>, d: int)
    requires
        s.len() > 0,
    ensures
        table_contains(s, spec_select(s, d)),
    decreases s.len(),
{
    if s.len() == 1 || d < s[0].1 {
        assert(s[0].0 == spec_select(s, d));
    } else {
        let t = s.drop_first();
        lemma_select_in_table(t, d - s[0].1);
        let w = choose|i: int| 0 <= i < t.len() && (#[trigger] t[i].0) == spec_select(s, d);
        assert(s[w + 1].0 == spec_select(s, d));
    }
}

/// Uniform behavior as a special case of weighted sampling: when every
/// entry carries the same score `w`, the draw space splits into equal
/// intervals of width `w`, so draw `d` selects the entry at position
/// `d / w` — each entry is chosen by exactly `w` of the `len * w` draws.
pub proof fn lemma_uniform_intervals(s: Seq<(u64, u64)>, w: u64, d: int)
    requires
        s.len() > 0,
        w >= 1,
        forall|i: int| 0 <= i < s.len() ==> (#[trigger] s[i].1) == w,
        0 <= d < s.len() * w,
    ensures
        spec_select(s, d) == s[d / (w as int)].0,
    decreases s.len(),
{
    if d < w {
        assert(d / (w as int) == 0) by (nonlinear_arith)
            requires
                0 <= d < w,
        ;
    } else {
        assert(s.len() > 1) by (nonlinear_arith)
            requires
                d >= w,
                d < s.len() * w,
                w >= 1,
        ;
        let t = s.drop_first();
        assert(forall|k: int| 0 <= k < t.len() ==> (#[trigger] t[k]) == s[k + 1]);
        assert((d - w) < t.len() * w) by (nonlinear_arith)
            requires
                d < s.len() * w,
                t.len() == s.len() - 1,
        ;
        lemma_uniform_intervals(t, w, d - w);
        let q = (d - w) / (w as int);
        let rr = (d - w) % (w as int);
        vstd::arithmetic::div_mod::lemma_fundamental_div_mod(d - w, w as int);
        vstd::arithmetic::div_mod::lemma_mod_pos_bound(d - w, w as int);
        assert(0 <= q && q < t.len()) by (nonlinear_arith)
            requires
                w >= 1,
                (w as int) * q + rr == d - w,
                0 <= rr < w,
                d - w < t.len() * (w as int),
                d >= w,
        ;
        assert(d == (q + 1) * (w as int) + rr) by (nonlinear_arith)
            requires
                d - w == (w as int) * q + rr,
        ;
        vstd::arithmetic::div_mod::lemma_fundamental_div_mod_converse(d, w as int, q + 1, rr);
        assert(t[q].0 == s[q + 1].0);
    }
}

} // verus!
