//! Bit-packed edge-coverage map over a raw byte buffer.
//!
//! Layout (a fixed external contract with the instrumented target): bytes
//! 0..4 hold the edge count as an unsigned 32-bit little-endian integer;
//! from byte 4 on, one bit per edge, LSB-first within each byte, so edge `i`
//! lives at byte `4 + i/8`, bit `i % 8`.

use vstd::prelude::*;

use crate::errors::CoreError;

verus! {

/// The edge count declared by the buffer's 4-byte little-endian header.
pub open spec fn header_edges(s: Seq<u8>) -> int
    recommends
        s.len() >= 4,
{
    s[0] + s[1] * 0x100 + s[2] * 0x1_0000 + s[3] * 0x100_0000
}

/// Number of bytes that hold the coverage bits for `n` edges.
pub open spec fn bit_region_len(n: int) -> int {
    (n + 7) / 8
}

/// A buffer is well formed when it holds its header and the bit region that
/// the header's edge count demands.
pub open spec fn buffer_ok(s: Seq<u8>) -> bool {
    s.len() >= 4 && s.len() >= 4 + bit_region_len(header_edges(s))
}

/// The coverage bit of edge `i` in buffer `s`.
pub open spec fn edge_bit(s: Seq<u8>, i: int) -> u8
    recommends
        0 <= i,
        4 + i / 8 < s.len(),
{
    (s[4 + i / 8] >> ((i % 8) as u8)) & 1
}

/// Population count of one byte.
pub open spec fn pop_byte(b: u8) -> int {
    (b & 1) + ((b >> 1u8) & 1) + ((b >> 2u8) & 1) + ((b >> 3u8) & 1) + ((b >> 4u8) & 1) + ((b
        >> 5u8) & 1) + ((b >> 6u8) & 1) + ((b >> 7u8) & 1)
}

/// Population count of the bytes of `s` in the index range `[lo, hi)`.
pub open spec fn pop_range(s: Seq<u8>, lo: int, hi: int) -> int
    recommends
        0 <= lo,
        hi <= s.len(),
    decreases hi - lo,
{
    if lo >= hi {
        0
    } else {
        pop_byte(s[lo]) + pop_range(s, lo + 1, hi)
    }
}

/// How many of the given edge indices have their bit set in buffer `s` with
/// `n` edges; out-of-range indices contribute 0 and duplicates count twice.
pub open spec fn count_among(s: Seq<u8>, n: int, idxs: Seq<usize>) -> int
    decreases idxs.len(),
{
    if idxs.len() == 0 {
        0
    } else {
        (if idxs[0] < n && edge_bit(s, idxs[0] as int) == 1 {
            1int
        } else {
            0int
        }) + count_among(s, n, idxs.drop_first())
    }
}

/// The buffer after writing `value` (as a bit) for edge `i`.
pub open spec fn set_bit_bytes(s: Seq<u8>, i: int, value: u8) -> Seq<u8>
    recommends
        0 <= i,
        4 + i / 8 < s.len(),
{
    let j = 4 + i / 8;
    let mask = 1u8 << ((i % 8) as u8);
    if value != 0 {
        s.update(j, s[j] | mask)
    } else {
        s.update(j, s[j] & !mask)
    }
}

/// A queryable view of a bit-packed edge-coverage buffer.
///
/// The map owns a snapshot of the shared buffer; it is re-derived from a
/// fresh read of shared memory whenever the caller wants a newer view.
pub struct FuzzilliCoverageObserver {
    buf: Vec<u8>,
    num_edges: u32,
}

impl View for FuzzilliCoverageObserver {
    type V = Seq<u8>;

    closed spec fn view(&self) -> Seq<u8> {
        self.buf@
    }
}

impl FuzzilliCoverageObserver {
    /// The edge count, fixed at construction from the buffer's header.
    pub closed spec fn spec_num_edges(&self) -> u32 {
        self.num_edges
    }

    pub open spec fn wf(&self) -> bool {
        &&& buffer_ok(self@)
        &&& self.spec_num_edges() == header_edges(self@)
    }

    /// Builds the map from a snapshot of the shared buffer, rejecting a
    /// buffer that cannot hold its own header or the bit region that the
    /// header's edge count demands.
    pub fn new(map: Vec<u8>) -> (r: Result<Self, CoreError>)
        ensures
            r is Ok <==> buffer_ok(map@),
            r matches Ok(o) ==> o.wf() && o@ == map@,
            r is Err ==> r == Err::<Self, CoreError>(CoreError::MalformedBuffer),
    {
        if map.len() < 4 {
            return Err(CoreError::MalformedBuffer);
        }
        let n: u32 = map[0] as u32 + map[1] as u32 * 0x100 + map[2] as u32 * 0x1_0000 + map[3]
            as u32 * 0x100_0000;
        let region: u64 = (n as u64 + 7) / 8;
        if (map.len() as u64) < 4 + region {
            return Err(CoreError::MalformedBuffer);
        }
        Ok(FuzzilliCoverageObserver { buf: map, num_edges: n })
    }

    pub fn num_edges(&self) -> (r: u32)
        ensures
            r == self.spec_num_edges(),
    {
        self.num_edges
    }

    /// The bit of `edge_index`; any index at or past the edge count reads 0.
    pub fn get(&self, edge_index: usize) -> (r: u8)
        requires
            self.wf(),
        ensures
            edge_index < self.spec_num_edges() ==> r == edge_bit(self@, edge_index as int),
            edge_index >= self.spec_num_edges() ==> r == 0,
    {
        if edge_index >= self.num_edges as usize {
            return 0;
        }
        proof {
            lemma_edge_byte_in_region(self@, self.spec_num_edges() as int, edge_index as int);
        }
        let byte_idx: usize = 4 + edge_index / 8;
        let sh: u8 = (edge_index % 8) as u8;
        (self.buf[byte_idx] >> sh) & 1
    }

    /// Writes `value` as the bit of `edge_index`; a no-op at or past the
    /// edge count.
    pub fn set(&mut self, edge_index: usize, value: u8)
        requires
            old(self).wf(),
        ensures
            final(self).wf(),
            final(self).spec_num_edges() == old(self).spec_num_edges(),
            edge_index < old(self).spec_num_edges() ==> final(self)@ == set_bit_bytes(
                old(self)@,
                edge_index as int,
                value,
            ),
            edge_index >= old(self).spec_num_edges() ==> final(self)@ == old(self)@,
    {
        if edge_index < self.num_edges as usize {
            proof {
                lemma_edge_byte_in_region(self@, self.spec_num_edges() as int, edge_index as int);
            }
            let byte_idx: usize = 4 + edge_index / 8;
            let sh: u8 = (edge_index % 8) as u8;
            let mask: u8 = 1u8 << sh;
            if value != 0 {
                self.buf[byte_idx] = self.buf[byte_idx] | mask;
            } else {
                self.buf[byte_idx] = self.buf[byte_idx] & !mask;
            }
        }
    }

    /// Zeroes every byte after the 4-byte header, clearing all coverage
    /// bits while preserving the header.
    pub fn reset(&mut self)
        requires
            old(self).wf(),
        ensures
            final(self).wf(),
            final(self).spec_num_edges() == old(self).spec_num_edges(),
            final(self)@.len() == old(self)@.len(),
            forall|j: int| 0 <= j < 4 ==> final(self)@[j] == old(self)@[j],
            forall|j: int| 4 <= j < final(self)@.len() ==> final(self)@[j] == 0u8,
    {
        let mut i: usize = 4;
        while i < self.buf.len()
            invariant
                4 <= i <= self.buf.len(),
                self.buf@.len() == old(self)@.len(),
                forall|j: int| 0 <= j < 4 ==> self.buf@[j] == old(self)@[j],
                forall|j: int| 4 <= j < i ==> self.buf@[j] == 0u8,
                forall|j: int| i <= j < self.buf@.len() ==> self.buf@[j] == old(self)@[j],
                self.num_edges == old(self).spec_num_edges(),
            decreases self.buf.len() - i,
        {
            self.buf[i] = 0u8;
            i = i + 1;
        }
    }

    /// Population count over the whole bit region, padding bits of the last
    /// byte included, mirroring the raw-buffer semantics.
    pub fn count_set(&self) -> (r: u64)
        requires
            self.wf(),
        ensures
            r == pop_range(self@, 4, 4 + bit_region_len(self.spec_num_edges() as int)),
    {
        let region: u64 = (self.num_edges as u64 + 7) / 8;
        let end: usize = 4 + region as usize;
        let mut acc: u64 = 0;
        let mut i: usize = 4;
        while i < end
            invariant
                self.wf(),
                4 <= i <= end,
                end == 4 + bit_region_len(self.spec_num_edges() as int),
                end <= self@.len(),
                acc == pop_range(self@, 4, i as int),
                acc <= 8 * (i - 4),
            decreases end - i,
        {
            proof {
                lemma_pop_byte_bounds(self@[i as int]);
                lemma_pop_range_snoc(self@, 4, i as int);
            }
            acc = acc + byte_popcount(self.buf[i]) as u64;
            i = i + 1;
        }
        acc
    }

    /// How many of the given indices have their bit set; out-of-range
    /// indices contribute 0 and duplicates are not removed.
    pub fn count_set_among(&self, indices: &[usize]) -> (r: usize)
        requires
            self.wf(),
        ensures
            r == count_among(self@, self.spec_num_edges() as int, indices@),
    {
        let ghost n = self.spec_num_edges() as int;
        proof {
            assert(indices@.skip(0) =~= indices@);
        }
        let mut acc: usize = 0;
        let mut k: usize = 0;
        while k < indices.len()
            invariant
                self.wf(),
                n == self.spec_num_edges() as int,
                0 <= k <= indices@.len(),
                acc <= k,
                acc + count_among(self@, n, indices@.skip(k as int)) == count_among(
                    self@,
                    n,
                    indices@,
                ),
            decreases indices@.len() - k,
        {
            proof {
                lemma_count_among_skip(self@, n, indices@, k as int);
                if (indices@[k as int] as int) < n {
                    lemma_edge_bit_is_boolean(self@, indices@[k as int] as int);
                }
            }
            if self.get(indices[k]) > 0 {
                acc = acc + 1;
            }
            k = k + 1;
        }
        acc
    }

    /// The value an untouched edge reads: always 0.
    pub fn initial_value(&self) -> (r: u8)
        ensures
            r == 0u8,
    {
        0
    }

    /// One element per edge in index order.
    pub fn to_dense_vector(&self) -> (r: Vec<u8>)
        requires
            self.wf(),
        ensures
            r@.len() == self.spec_num_edges() as int,
            forall|i: int|
                0 <= i < self.spec_num_edges() as int ==> r@[i] == edge_bit(self@, i),
    {
        let n: usize = self.num_edges as usize;
        let mut out: Vec<u8> = Vec::new();
        let mut i: usize = 0;
        while i < n
            invariant
                self.wf(),
                n == self.spec_num_edges() as usize,
                0 <= i <= n,
                out@.len() == i as int,
                forall|j: int| 0 <= j < i as int ==> out@[j] == edge_bit(self@, j),
            decreases n - i,
        {
            out.push(self.get(i));
            i = i + 1;
        }
        out
    }
}

/// Exact population count of one byte.
fn byte_popcount(b: u8) -> (r: u32)
    ensures
        r == pop_byte(b),
        r <= 8,
{
    let r = (b & 1) as u32 + ((b >> 1u8) & 1) as u32 + ((b >> 2u8) & 1) as u32 + ((b >> 3u8)
        & 1) as u32 + ((b >> 4u8) & 1) as u32 + ((b >> 5u8) & 1) as u32 + ((b >> 6u8) & 1) as u32 + (
    (b >> 7u8) & 1) as u32;
    proof {
        lemma_pop_byte_bounds(b);
    }
    r
}

/// The byte of an in-range edge lies inside the bit region.
proof fn lemma_edge_byte_in_region(s: Seq<u8>, n: int, i: int)
    requires
        s.len() >= 4 + bit_region_len(n),
        0 <= i < n,
    ensures
        4 + i / 8 < s.len(),
        0 <= i % 8 < 8,
{
    assert(i / 8 < bit_region_len(n)) by {
        assert(i <= n - 1);
        assert(i / 8 <= (n - 1) / 8) by (nonlinear_arith)
            requires
                0 <= i <= n - 1,
        ;
        assert((n - 1) / 8 < (n + 7) / 8) by (nonlinear_arith);
    }
}

/// A coverage bit is 0 or 1.
proof fn lemma_edge_bit_is_boolean(s: Seq<u8>, i: int)
    requires
        0 <= i,
        4 + i / 8 < s.len(),
    ensures
        edge_bit(s, i) == 0 || edge_bit(s, i) == 1,
{
    let b = s[4 + i / 8];
    let sh = (i % 8) as u8;
    assert((b >> sh) & 1 == 0 || (b >> sh) & 1 == 1) by (bit_vector);
}

proof fn lemma_pop_byte_bounds(b: u8)
    ensures
        0 <= pop_byte(b) <= 8,
{
    assert(0 <= (b & 1) + ((b >> 1u8) & 1) + ((b >> 2u8) & 1) + ((b >> 3u8) & 1) + ((b >> 4u8) & 1)
        + ((b >> 5u8) & 1) + ((b >> 6u8) & 1) + ((b >> 7u8) & 1) <= 8) by (bit_vector);
}

/// A byte-range population count lies between 0 and 8 bits per byte.
pub proof fn lemma_pop_range_bounds(s: Seq<u8>, lo: int, hi: int)
    requires
        0 <= lo <= hi <= s.len(),
    ensures
        0 <= pop_range(s, lo, hi) <= 8 * (hi - lo),
    decreases hi - lo,
{
    if lo < hi {
        lemma_pop_byte_bounds(s[lo]);
        lemma_pop_range_bounds(s, lo + 1, hi);
    }
}

/// Extends a byte population count one byte to the right.
proof fn lemma_pop_range_snoc(s: Seq<u8>, lo: int, mid: int)
    requires
        0 <= lo <= mid,
        mid < s.len(),
    ensures
        pop_range(s, lo, mid + 1) == pop_range(s, lo, mid) + pop_byte(s[mid]),
    decreases mid - lo,
{
    if lo == mid {
        assert(pop_range(s, mid + 1, mid + 1) == 0);
        assert(pop_range(s, lo, mid + 1) == pop_byte(s[lo]) + pop_range(s, lo + 1, mid + 1));
    } else {
        lemma_pop_range_snoc(s, lo + 1, mid);
        assert(pop_range(s, lo, mid + 1) == pop_byte(s[lo]) + pop_range(s, lo + 1, mid + 1));
        assert(pop_range(s, lo, mid) == pop_byte(s[lo]) + pop_range(s, lo + 1, mid));
    }
}

/// Peels one index off the front of a suffix of the index list.
proof fn lemma_count_among_skip(s: Seq<u8>, n: int, idxs: Seq<usize>, k: int)
    requires
        0 <= k < idxs.len(),
    ensures
        count_among(s, n, idxs.skip(k)) == (if idxs[k] < n && edge_bit(s, idxs[k] as int) == 1 {
            1int
        } else {
            0int
        }) + count_among(s, n, idxs.skip(k + 1)),
{
    assert(idxs.skip(k)[0] == idxs[k]);
    assert(idxs.skip(k).drop_first() =~= idxs.skip(k + 1));
}

/// Writing a bit and reading it back yields the written value, and no other
/// edge's bit changes: the round-trip law of `set` and `get`.
pub proof fn lemma_set_bit_round_trip(s: Seq<u8>, n: int, i: int, value: u8)
    requires
        s.len() >= 4 + bit_region_len(n),
        0 <= i < n,
    ensures
        edge_bit(set_bit_bytes(s, i, value), i) == (if value != 0 {
            1u8
        } else {
            0u8
        }),
        forall|j: int|
            0 <= j < n && j != i ==> edge_bit(set_bit_bytes(s, i, value), j) == edge_bit(s, j),
        set_bit_bytes(s, i, value).len() == s.len(),
        forall|k: int| 0 <= k < 4 ==> set_bit_bytes(s, i, value)[k] == s[k],
{
    lemma_edge_byte_in_region(s, n, i);
    let t = set_bit_bytes(s, i, value);
    let b = s[4 + i / 8];
    let si = (i % 8) as u8;
    assert(((b | (1u8 << si)) >> si) & 1 == 1 && ((b & !(1u8 << si)) >> si) & 1 == 0) by (bit_vector)
        requires
            si < 8,
    ;
    assert forall|j: int| 0 <= j < n && j != i implies edge_bit(t, j) == edge_bit(s, j) by {
        lemma_edge_byte_in_region(s, n, j);
        if 4 + j / 8 == 4 + i / 8 {
            let sj = (j % 8) as u8;
            assert(si != sj) by {
                vstd::arithmetic::div_mod::lemma_fundamental_div_mod(i, 8);
                vstd::arithmetic::div_mod::lemma_fundamental_div_mod(j, 8);
            }
            assert(((b | (1u8 << si)) >> sj) & 1 == (b >> sj) & 1 && ((b & !(1u8 << si)) >> sj) & 1
                == (b >> sj) & 1) by (bit_vector)
                requires
                    si < 8,
                    sj < 8,
                    si != sj,
            ;
        }
    }
}

} // verus!
