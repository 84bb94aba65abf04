//! Corpus of retained test cases.
//!
//! Entries carry a stable identifier, the raw payload, and an optional
//! parent id (the entry that was active when this one was discovered).
//! Ids are assigned sequentially starting at 0 and are never reused while
//! the store lives, even across removals; the entries are kept in ascending
//! id order.

use vstd::prelude::*;

use crate::errors::CoreError;

verus! {

/// One retained test case.
pub struct CorpusEntry {
    /// Stable identifier, unique within the store's lifetime.
    pub id: u64,
    /// The raw test-case payload, immutable after `add`.
    pub bytes: Vec<u8>,
    /// The entry that produced this one, if the scheduler recorded it.
    pub parent_id: Option<u64>,
}

/// Index of the first entry with the given id, or -1 if there is none.
pub open spec fn find_index(s: Seq<CorpusEntry>, id: u64) -> int
    decreases s.len(),
{
    if s.len() == 0 {
        -1
    } else if s[0].id == id {
        0
    } else {
        let r = find_index(s.drop_first(), id);
        if r == -1 {
            -1
        } else {
            r + 1
        }
    }
}

/// Whether some entry of `s` has the given id.
pub open spec fn contains_id(s: Seq<CorpusEntry>, id: u64) -> bool {
    exists|i: int| 0 <= i < s.len() && (#[trigger] s[i].id) == id
}

/// Entries strictly ascending by id.
pub open spec fn entries_ascending(s: Seq<CorpusEntry>) -> bool {
    forall|i: int, j: int| 0 <= i < j < s.len() ==> (#[trigger] s[i].id) < (#[trigger] s[j].id)
}

/// The smallest id in `s` greater than `id`, if any; `s` ascending by id.
pub open spec fn spec_successor(s: Seq<CorpusEntry>, id: u64) -> Option<u64>
    decreases s.len(),
{
    if s.len() == 0 {
        None
    } else if s[0].id > id {
        Some(s[0].id)
    } else {
        spec_successor(s.drop_first(), id)
    }
}

/// The store of test cases, in ascending id order.
pub struct CorpusStore {
    entries: Vec<CorpusEntry>,
    next_id: u64,
}

impl View for CorpusStore {
    type V = Seq<CorpusEntry>;

    closed spec fn view(&self) -> Seq<CorpusEntry> {
        self.entries@
    }
}

impl CorpusStore {
    /// The id the next added entry will receive.
    pub closed spec fn spec_next_id(&self) -> u64 {
        self.next_id
    }

    /// Entries strictly ascending by id, every id below the next one.
    pub open spec fn wf(&self) -> bool {
        &&& entries_ascending(self@)
        &&& forall|i: int| 0 <= i < self@.len() ==> (#[trigger] self@[i].id) < self.spec_next_id()
    }

    pub fn new() -> (r: Self)
        ensures
            r.wf(),
            r@ == Seq::<CorpusEntry>::empty(),
            r.spec_next_id() == 0,
    {
        CorpusStore { entries: Vec::new(), next_id: 0 }
    }

    pub fn count(&self) -> (r: usize)
        ensures
            r == self@.len(),
    {
        self.entries.len()
    }

    /// Appends a new entry under a fresh id; fails only when the id space
    /// is exhausted, in which case nothing changes.
    pub fn add(&mut self, bytes: Vec<u8>) -> (r: Result<u64, CoreError>)
        requires
            old(self).wf(),
        ensures
            final(self).wf(),
            old(self).spec_next_id() < u64::MAX ==> {
                &&& r == Ok::<u64, CoreError>(old(self).spec_next_id())
                &&& final(self)@ == old(self)@.push(
                    (CorpusEntry { id: old(self).spec_next_id(), bytes: bytes, parent_id: None }),
                )
                &&& final(self).spec_next_id() == old(self).spec_next_id() + 1
            },
            old(self).spec_next_id() == u64::MAX ==> {
                &&& r == Err::<u64, CoreError>(CoreError::StorageFailure)
                &&& *final(self) == *old(self)
            },
    {
        if self.next_id == u64::MAX {
            return Err(CoreError::StorageFailure);
        }
        let id = self.next_id;
        self.entries.push(CorpusEntry { id, bytes, parent_id: None });
        self.next_id = id + 1;
        Ok(id)
    }

    /// Looks an entry up by id; `NotFound` if the id is unknown or was
    /// removed.
    pub fn get(&self, id: u64) -> (r: Result<&CorpusEntry, CoreError>)
        requires
            self.wf(),
        ensures
            r is Ok <==> contains_id(self@, id),
            r matches Ok(e) ==> *e == self@[find_index(self@, id)] && e.id == id,
            r is Err ==> r == Err::<&CorpusEntry, CoreError>(CoreError::NotFound),
    {
        proof {
            lemma_find_index_props(self@, id);
        }
        let mut i: usize = 0;
        while i < self.entries.len()
            invariant
                self.wf(),
                0 <= i <= self@.len(),
                forall|j: int| 0 <= j < i ==> (#[trigger] self@[j].id) != id,
            decreases self@.len() - i,
        {
            if self.entries[i].id == id {
                proof {
                    assert(contains_id(self@, id));
                    lemma_find_index_props(self@, id);
                    assert(find_index(self@, id) == i);
                }
                return Ok(&self.entries[i]);
            }
            i = i + 1;
        }
        Err(CoreError::NotFound)
    }

    /// The entry at position `i` in ascending id order.
    pub fn entry_at(&self, i: usize) -> (r: &CorpusEntry)
        requires
            i < self@.len(),
        ensures
            *r == self@[i as int],
    {
        &self.entries[i]
    }

    /// Records the lineage of the entry with the given id.
    pub fn set_parent(&mut self, id: u64, parent: Option<u64>) -> (r: Result<(), CoreError>)
        requires
            old(self).wf(),
        ensures
            final(self).wf(),
            final(self).spec_next_id() == old(self).spec_next_id(),
            r is Ok <==> contains_id(old(self)@, id),
            r is Err ==> r == Err::<(), CoreError>(CoreError::NotFound) && *final(self) == *old(
                self,
            ),
            r is Ok ==> final(self)@ == old(self)@.update(
                find_index(old(self)@, id),
                (CorpusEntry {
                    id: id,
                    bytes: old(self)@[find_index(old(self)@, id)].bytes,
                    parent_id: parent,
                }),
            ),
    {
        proof {
            lemma_find_index_props(self@, id);
        }
        let mut i: usize = 0;
        while i < self.entries.len()
            invariant
                old(self).wf(),
                *self == *old(self),
                0 <= i <= self@.len(),
                forall|j: int| 0 <= j < i ==> (#[trigger] self@[j].id) != id,
            decreases self@.len() - i,
        {
            if self.entries[i].id == id {
                proof {
                    assert(contains_id(self@, id));
                    lemma_find_index_props(self@, id);
                    assert(find_index(self@, id) == i);
                }
                let e = &mut self.entries[i];
                e.parent_id = parent;
                return Ok(());
            }
            i = i + 1;
        }
        Err(CoreError::NotFound)
    }

    /// The smallest id, if the store is not empty.
    pub fn first_id(&self) -> (r: Option<u64>)
        ensures
            r == (if self@.len() == 0 {
                Option::<u64>::None
            } else {
                Some(self@[0].id)
            }),
    {
        if self.entries.len() == 0 {
            None
        } else {
            Some(self.entries[0].id)
        }
    }

    /// The largest id, if the store is not empty.
    pub fn last_id(&self) -> (r: Option<u64>)
        ensures
            r == (if self@.len() == 0 {
                Option::<u64>::None
            } else {
                Some(self@[self@.len() - 1].id)
            }),
    {
        if self.entries.len() == 0 {
            None
        } else {
            Some(self.entries[self.entries.len() - 1].id)
        }
    }

    /// The smallest id greater than `id`, if any.
    pub fn successor_of(&self, id: u64) -> (r: Option<u64>)
        requires
            self.wf(),
        ensures
            r == spec_successor(self@, id),
    {
        proof {
            assert(self@.skip(0) =~= self@);
        }
        let mut i: usize = 0;
        while i < self.entries.len()
            invariant
                self.wf(),
                0 <= i <= self@.len(),
                spec_successor(self@, id) == spec_successor(self@.skip(i as int), id),
            decreases self@.len() - i,
        {
            proof {
                lemma_successor_skip(self@, id, i as int);
            }
            if self.entries[i].id > id {
                return Some(self.entries[i].id);
            }
            i = i + 1;
        }
        None
    }

    /// Removes and returns the entry with the given id; its id is never
    /// assigned again. The retention policy that decides when to call this
    /// lives outside the core.
    pub fn remove(&mut self, id: u64) -> (r: Result<CorpusEntry, CoreError>)
        requires
            old(self).wf(),
        ensures
            final(self).wf(),
            final(self).spec_next_id() == old(self).spec_next_id(),
            r is Ok <==> contains_id(old(self)@, id),
            r is Err ==> r == Err::<CorpusEntry, CoreError>(CoreError::NotFound) && *final(self)
                == *old(self),
            r matches Ok(e) ==> e == old(self)@[find_index(old(self)@, id)] && e.id == id
                && final(self)@ == old(self)@.remove(find_index(old(self)@, id)),
    {
        proof {
            lemma_find_index_props(self@, id);
        }
        let mut i: usize = 0;
        while i < self.entries.len()
            invariant
                old(self).wf(),
                *self == *old(self),
                0 <= i <= self@.len(),
                forall|j: int| 0 <= j < i ==> (#[trigger] self@[j].id) != id,
            decreases self@.len() - i,
        {
            if self.entries[i].id == id {
                proof {
                    assert(contains_id(self@, id));
                    lemma_find_index_props(self@, id);
                    assert(find_index(self@, id) == i);
                }
                let e = self.entries.remove(i);
                return Ok(e);
            }
            i = i + 1;
        }
        Err(CoreError::NotFound)
    }

    /// Whether some entry already holds exactly this payload.
    pub fn contains_bytes(&self, bytes: &[u8]) -> (r: bool)
        ensures
            r == exists|i: int| 0 <= i < self@.len() && (#[trigger] self@[i].bytes@) == bytes@,
    {
        let mut i: usize = 0;
        while i < self.entries.len()
            invariant
                0 <= i <= self@.len(),
                forall|j: int| 0 <= j < i ==> (#[trigger] self@[j].bytes@) != bytes@,
            decreases self@.len() - i,
        {
            if bytes_equal(self.entries[i].bytes.as_slice(), bytes) {
                return true;
            }
            i = i + 1;
        }
        false
    }
}

/// Exact comparison of two byte strings.
pub fn bytes_equal(a: &[u8], b: &[u8]) -> (r: bool)
    ensures
        r == (a@ == b@),
{
    if a.len() != b.len() {
        proof {
            assert(a@ != b@);
        }
        return false;
    }
    let mut i: usize = 0;
    while i < a.len()
        invariant
            a@.len() == b@.len(),
            0 <= i <= a@.len(),
            forall|j: int| 0 <= j < i ==> a@[j] == b@[j],
        decreases a@.len() - i,
    {
        if a[i] != b[i] {
            return false;
        }
        i = i + 1;
    }
    proof {
        assert(a@ =~= b@);
    }
    true
}

/// What `find_index` yields: -1 exactly when no entry has the id, else the
/// first position that does.
pub proof fn lemma_find_index_props(s: Seq<CorpusEntry>, id: u64)
    ensures
        find_index(s, id) == -1 <==> !contains_id(s, id),
        contains_id(s, id) ==> {
            &&& 0 <= find_index(s, id) < s.len()
            &&& s[find_index(s, id)].id == id
            &&& forall|j: int| 0 <= j < find_index(s, id) ==> (#[trigger] s[j].id) != id
        },
    decreases s.len(),
{
    if s.len() == 0 {
    } else if s[0].id == id {
    } else {
        let t = s.drop_first();
        lemma_find_index_props(t, id);
        assert(forall|k: int| 0 <= k < t.len() ==> (#[trigger] t[k]) == s[k + 1]);
        if contains_id(s, id) {
            let w = choose|i: int| 0 <= i < s.len() && (#[trigger] s[i].id) == id;
            assert(t[w - 1].id == id);
            assert(contains_id(t, id));
            let ft = find_index(t, id);
            assert(find_index(s, id) == ft + 1);
            assert(s[ft + 1] == t[ft]);
            assert forall|j: int| 0 <= j < find_index(s, id) implies (#[trigger] s[j].id)
                != id by {
                if j >= 1 {
                    assert(s[j] == t[j - 1]);
                }
            }
        }
        if contains_id(t, id) {
            let w = choose|i: int| 0 <= i < t.len() && (#[trigger] t[i].id) == id;
            assert(s[w + 1].id == id);
            assert(contains_id(s, id));
        }
    }
}

/// Peels the first scanned entry off the successor search.
proof fn lemma_successor_skip(s: Seq<CorpusEntry>, id: u64, i: int)
    requires
        0 <= i < s.len(),
    ensures
        spec_successor(s.skip(i), id) == (if s[i].id > id {
            Some(s[i].id)
        } else {
            spec_successor(s.skip(i + 1), id)
        }),
{
    assert(s.skip(i)[0] == s[i]);
    assert(s.skip(i).drop_first() =~= s.skip(i + 1));
}

} // verus!
