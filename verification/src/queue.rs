//! Round-robin scheduler.
//!
//! `next` selects the successor of the current id in ascending id order,
//! wrapping to the first id at the end of a pass (or when no id was selected
//! yet), and keeps cycle accounting: `runs_in_current_cycle` counts the
//! calls since the last completed pass and `cycle_count` the completed
//! passes. The counters are informational and never block scheduling.

use vstd::prelude::*;

use crate::corpus::{contains_id, entries_ascending, find_index, spec_successor, CorpusEntry,
    CorpusStore};
use crate::errors::CoreError;

verus! {

/// State of the round-robin traversal.
pub struct QueueScheduler {
    /// Last id returned by `next`, none before the first call.
    pub current_id: Option<u64>,
    /// Calls to `next` since the last completed pass.
    pub runs_in_current_cycle: u64,
    /// Completed full passes over the corpus.
    pub cycle_count: u64,
}

/// The id one round-robin step picks on a non-empty store: the successor of
/// the current id in ascending id order, or the first id when there is no
/// current id or no successor.
pub open spec fn queue_pick(s: Seq<CorpusEntry>, current: Option<u64>) -> u64
    recommends
        s.len() > 0,
{
    match current {
        None => s[0].id,
        Some(c) => match spec_successor(s, c) {
            Some(n) => n,
            None => s[0].id,
        },
    }
}

/// The full effect of one `next` call on a non-empty store: the successor
/// state and the picked id. The run counter resets and the cycle counter
/// steps (saturating) when the pass reaches the current entry count.
pub open spec fn queue_step(s: Seq<CorpusEntry>, q: QueueScheduler) -> (QueueScheduler, u64)
    recommends
        s.len() > 0,
{
    let pick = queue_pick(s, q.current_id);
    let wrap = q.runs_in_current_cycle + 1 >= s.len();
    (QueueScheduler {
        current_id: Some(pick),
        runs_in_current_cycle: if wrap {
            0u64
        } else {
            (q.runs_in_current_cycle + 1) as u64
        },
        cycle_count: if !wrap {
            q.cycle_count
        } else if q.cycle_count == u64::MAX {
            u64::MAX
        } else {
            (q.cycle_count + 1) as u64
        },
    }, pick)
}

/// The scheduler state after `k` calls of `next`, starting fresh, over a
/// fixed non-empty store.
pub open spec fn queue_state_after(s: Seq<CorpusEntry>, k: nat) -> QueueScheduler
    recommends
        s.len() > 0,
    decreases k,
{
    if k == 0 {
        QueueScheduler { current_id: None, runs_in_current_cycle: 0, cycle_count: 0 }
    } else {
        queue_step(s, queue_state_after(s, (k - 1) as nat)).0
    }
}

/// The id returned by call number `k` (counting from 0), starting fresh.
pub open spec fn queue_result(s: Seq<CorpusEntry>, k: nat) -> u64
    recommends
        s.len() > 0,
{
    queue_step(s, queue_state_after(s, k)).1
}

impl QueueScheduler {
    /// No current id, zero runs, zero completed cycles.
    pub fn new() -> (r: Self)
        ensures
            r.current_id is None,
            r.runs_in_current_cycle == 0,
            r.cycle_count == 0,
    {
        QueueScheduler { current_id: None, runs_in_current_cycle: 0, cycle_count: 0 }
    }

    /// Records the entry active at discovery time as the parent of the
    /// newly added entry; the traversal state itself does not change.
    pub fn on_add(&self, store: &mut CorpusStore, id: u64) -> (r: Result<(), CoreError>)
        requires
            old(store).wf(),
        ensures
            final(store).wf(),
            final(store).spec_next_id() == old(store).spec_next_id(),
            r is Ok <==> contains_id(old(store)@, id),
            r is Err ==> r == Err::<(), CoreError>(CoreError::NotFound) && *final(store) == *old(
                store,
            ),
            r is Ok ==> final(store)@ == old(store)@.update(
                find_index(old(store)@, id),
                (CorpusEntry {
                    id: id,
                    bytes: old(store)@[find_index(old(store)@, id)].bytes,
                    parent_id: self.current_id,
                }),
            ),
    {
        store.set_parent(id, self.current_id)
    }

    /// Picks the next entry in round-robin order; fails with `EmptyCorpus`
    /// on an empty store, leaving the state untouched.
    pub fn next(&mut self, store: &CorpusStore) -> (r: Result<u64, CoreError>)
        requires
            store.wf(),
        ensures
            store@.len() == 0 ==> r == Err::<u64, CoreError>(CoreError::EmptyCorpus) && *final(self)
                == *old(self),
            store@.len() > 0 ==> r == Ok::<u64, CoreError>(queue_step(store@, *old(self)).1)
                && *final(self) == queue_step(store@, *old(self)).0,
    {
        let n = store.count();
        if n == 0 {
            return Err(CoreError::EmptyCorpus);
        }
        let pick: u64 = match self.current_id {
            None => store.first_id().unwrap(),
            Some(c) => match store.successor_of(c) {
                Some(succ) => succ,
                None => store.first_id().unwrap(),
            },
        };
        let count64: u64 = n as u64;
        if self.runs_in_current_cycle >= count64 - 1 {
            self.runs_in_current_cycle = 0;
            if self.cycle_count < u64::MAX {
                self.cycle_count = self.cycle_count + 1;
            }
        } else {
            self.runs_in_current_cycle = self.runs_in_current_cycle + 1;
        }
        self.current_id = Some(pick);
        Ok(pick)
    }
}

/// In an ascending store the successor of the id at position `j` is the id
/// at position `j + 1`, or none at the end.
proof fn lemma_successor_at(s: Seq<CorpusEntry>, j: int)
    requires
        entries_ascending(s),
        0 <= j < s.len(),
    ensures
        spec_successor(s, s[j].id) == (if j + 1 < s.len() {
            Some(s[j + 1].id)
        } else {
            Option::<u64>::None
        }),
    decreases s.len(),
{
    let t = s.drop_first();
    assert(forall|k: int| 0 <= k < t.len() ==> (#[trigger] t[k]) == s[k + 1]);
    assert(entries_ascending(t));
    if j == 0 {
        assert(spec_successor(s, s[0].id) == spec_successor(t, s[0].id));
        if s.len() == 1 {
            assert(spec_successor(t, s[0].id) is None);
        } else {
            assert(t[0].id > s[0].id);
            assert(spec_successor(t, s[0].id) == Some(t[0].id));
            assert(t[0].id == s[1].id);
        }
    } else {
        assert(s[0].id < s[j].id);
        assert(spec_successor(s, s[j].id) == spec_successor(t, s[j].id));
        lemma_successor_at(t, j - 1);
        assert(t[j - 1].id == s[j].id);
        if j + 1 < s.len() {
            assert(spec_successor(t, t[j - 1].id) == Some(t[j].id));
            assert(t[j].id == s[j + 1].id);
        }
    }
}

proof fn lemma_successor_contains(s: Seq<CorpusEntry>, c: u64)
    requires
        spec_successor(s, c) is Some,
    ensures
        contains_id(s, spec_successor(s, c)->Some_0),
    decreases s.len(),
{
    if s.len() > 0 {
        if s[0].id > c {
        } else {
            let t = s.drop_first();
            lemma_successor_contains(t, c);
            let w = choose|i: int|
                0 <= i < t.len() && (#[trigger] t[i].id) == spec_successor(s, c)->Some_0;
            assert(s[w + 1].id == spec_successor(s, c)->Some_0);
        }
    }
}

/// Whatever the current id, a round-robin pick is an id of the store.
pub proof fn lemma_queue_pick_in_ids(s: Seq<CorpusEntry>, current: Option<u64>)
    requires
        s.len() > 0,
    ensures
        contains_id(s, queue_pick(s, current)),
{
    match current {
        None => {
            assert(s[0].id == queue_pick(s, current));
        },
        Some(c) => {
            if spec_successor(s, c) is Some {
                lemma_successor_contains(s, c);
            } else {
                assert(s[0].id == queue_pick(s, current));
            }
        },
    }
}

/// Division and modulus advance in lockstep.
proof fn lemma_mod_step(a: int, n: int)
    requires
        n > 0,
        a >= 1,
    ensures
        (a - 1) % n + 1 == n ==> a % n == 0 && a / n == (a - 1) / n + 1,
        (a - 1) % n + 1 < n ==> a % n == (a - 1) % n + 1 && a / n == (a - 1) / n,
{
    let q0 = (a - 1) / n;
    let r0 = (a - 1) % n;
    vstd::arithmetic::div_mod::lemma_fundamental_div_mod(a - 1, n);
    vstd::arithmetic::div_mod::lemma_mod_pos_bound(a - 1, n);
    assert(a - 1 == n * q0 + r0);
    if r0 + 1 == n {
        assert(a == (q0 + 1) * n + 0) by (nonlinear_arith)
            requires
                a - 1 == n * q0 + r0,
                r0 + 1 == n,
        ;
        vstd::arithmetic::div_mod::lemma_fundamental_div_mod_converse(a, n, q0 + 1, 0);
    } else {
        assert(a == q0 * n + (r0 + 1)) by (nonlinear_arith)
            requires
                a - 1 == n * q0 + r0,
        ;
        vstd::arithmetic::div_mod::lemma_fundamental_div_mod_converse(a, n, q0, r0 + 1);
    }
}

/// Round-robin traversal law: over a fixed non-empty ascending store,
/// starting fresh, call number `k` (from 0) returns the id at position
/// `k % N`; hence the first `N` calls visit every id exactly once before
/// any id repeats. After `k` calls the cycle counter reads `k / N` — it
/// steps exactly once per `N` calls — and the run counter reads `k % N`.
pub proof fn lemma_queue_round_robin(s: Seq<CorpusEntry>, k: nat)
    requires
        entries_ascending(s),
        s.len() > 0,
        s.len() <= u64::MAX,
        k < u64::MAX,
    ensures
        queue_result(s, k) == s[k as int % s.len() as int].id,
        queue_state_after(s, k).cycle_count == k as int / s.len() as int,
        queue_state_after(s, k).runs_in_current_cycle == k as int % s.len() as int,
        queue_state_after(s, k).current_id == (if k == 0 {
            Option::<u64>::None
        } else {
            Some(s[(k - 1) as int % s.len() as int].id)
        }),
    decreases k,
{
    let n = s.len() as int;
    vstd::arithmetic::div_mod::lemma_mod_pos_bound(k as int, n);
    if k == 0 {
        assert(0int % n == 0 && 0int / n == 0) by (nonlinear_arith)
            requires
                n > 0,
        ;
        assert(queue_result(s, 0) == queue_pick(s, None));
    } else {
        lemma_queue_round_robin(s, (k - 1) as nat);
        let q = queue_state_after(s, (k - 1) as nat);
        let ka = k as int;
        vstd::arithmetic::div_mod::lemma_mod_pos_bound(ka - 1, n);
        assert((ka - 1) / n >= 0 && (ka - 1) / n <= ka - 1) by (nonlinear_arith)
            requires
                n > 0,
                ka >= 1,
        ;
        lemma_mod_step(ka, n);
        // The id the k-th call picks is the one at position k-1 modulo n.
        if k == 1 {
            assert(q.current_id is None);
            assert(queue_pick(s, q.current_id) == s[0].id);
            assert(0int % n == 0) by (nonlinear_arith)
                requires
                    n > 0,
            ;
            assert((ka - 1) % n == 0);
        } else {
            vstd::arithmetic::div_mod::lemma_mod_pos_bound(ka - 2, n);
            let j = (ka - 2) % n;
            assert(q.current_id == Some(s[j].id));
            lemma_successor_at(s, j);
            lemma_mod_step(ka - 1, n);
            if j + 1 == n {
                assert((ka - 1) % n == 0);
                assert(queue_pick(s, q.current_id) == s[0].id);
            } else {
                assert((ka - 1) % n == j + 1);
                assert(queue_pick(s, q.current_id) == s[j + 1].id);
            }
        }
        let pick = queue_pick(s, q.current_id);
        assert(pick == s[(ka - 1) % n].id);
        // Counter bookkeeping advances as division and modulus do.
        let wrap = q.runs_in_current_cycle + 1 >= n;
        if wrap {
            assert((ka - 1) % n + 1 == n);
            assert(ka % n == 0 && ka / n == (ka - 1) / n + 1);
            assert(q.cycle_count < u64::MAX);
        } else {
            assert((ka - 1) % n + 1 < n);
            assert(ka % n == (ka - 1) % n + 1 && ka / n == (ka - 1) / n);
        }
        assert(queue_state_after(s, k) == queue_step(s, q).0);
        // The result of call k follows from the state just established.
        let j2 = (ka - 1) % n;
        lemma_successor_at(s, j2);
        if j2 + 1 == n {
            assert(ka % n == 0);
            assert(queue_result(s, k) == s[0].id);
        } else {
            assert(ka % n == j2 + 1);
            assert(queue_result(s, k) == s[j2 + 1].id);
        }
    }
}

} // verus!
