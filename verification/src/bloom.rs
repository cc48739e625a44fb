//! Classical k-hash Bloom filter over a byte-packed bit array.
//!
//! A filter of `m` bits answers membership through `k` bit positions
//! `(h1 + i * h2) mod m` for `i` in `[0, k)`, where `h1` and `h2` are two
//! keyed 64-bit hashes of the input. Setting a value writes its `k` bits;
//! checking reads them and reports "probably present" only when all are set,
//! so an inserted value is never reported absent.

use vstd::prelude::*;

use crate::bits::BitArray;
use crate::hashing::{xxh3_seeded, xxh3_seeded_of};

verus! {

/// Numerator of ln 2 scaled by 10^15, for the hash-count formula.
pub const LN2_NUM: u64 = 693147180559945;

/// Denominator of the scaled ln 2.
pub const LN2_DEN: u64 = 1000000000000000;

/// The bit position probed for hash index `i`: `(h1 + i * h2) mod m`, where
/// `h1` and `h2` are the two seeded hashes of `x` and `m` is the bit count.
pub open spec fn bloom_pos(seed0: u64, seed1: u64, m: nat, x: Seq<u8>, i: int) -> int {
    (xxh3_seeded_of(seed0, x) + i * xxh3_seeded_of(seed1, x)) % (m as int)
}

/// Membership report of a Bloom state: all `k` positions of `x` are set.
pub open spec fn bloom_check(bits: Seq<bool>, seed0: u64, seed1: u64, k: nat, x: Seq<u8>) -> bool {
    forall|i: int| 0 <= i < k ==> bits[#[trigger] bloom_pos(seed0, seed1, bits.len(), x, i)]
}

/// The Bloom state after inserting `x`: every one of its `k` positions set,
/// all other bits unchanged.
pub open spec fn bloom_insert(
    bits: Seq<bool>,
    seed0: u64,
    seed1: u64,
    k: nat,
    x: Seq<u8>,
) -> Seq<bool> {
    Seq::new(
        bits.len(),
        |j: int|
            bits[j] || exists|i: int|
                0 <= i < k && #[trigger] bloom_pos(seed0, seed1, bits.len(), x, i) == j,
    )
}

/// The number of hash functions derived from `m` bits and capacity `n`:
/// `(m / n) * ln 2` rounded to the nearest integer (with ln 2 taken to
/// fifteen decimal digits), clamped to `[1, 64]`.
pub open spec fn spec_hash_count(m: nat, n: nat) -> nat {
    let raw = (2 * m * LN2_NUM + n * LN2_DEN) / (2 * n * LN2_DEN);
    if raw < 1 {
        1
    } else if raw > 64 {
        64
    } else {
        raw as nat
    }
}

/// A k-hash Bloom filter: the shared bit array, the hash count, and the two
/// 64-bit seeds that key its hash pair.
pub struct BloomFilter {
    bits: BitArray,
    num_hashes: u64,
    seed0: u64,
    seed1: u64,
}

impl View for BloomFilter {
    type V = Seq<bool>;

    /// The logical contents of the underlying bit array.
    closed spec fn view(&self) -> Seq<bool> {
        self.bits@
    }
}

impl BloomFilter {
    /// The bit array is well formed and non-empty, and the hash count lies
    /// in `[1, 64]`.
    pub closed spec fn wf(&self) -> bool {
        &&& self.bits.wf()
        &&& self.bits.spec_bit_len() >= 1
        &&& 1 <= self.num_hashes <= 64
    }

    /// The number of bits `m`.
    pub closed spec fn spec_bit_len(&self) -> nat {
        self.bits.spec_bit_len()
    }

    /// The number of hash functions `k`.
    pub closed spec fn spec_k(&self) -> nat {
        self.num_hashes as nat
    }

    /// The seed keying the first hash.
    pub closed spec fn spec_seed0(&self) -> u64 {
        self.seed0
    }

    /// The seed keying the second hash.
    pub closed spec fn spec_seed1(&self) -> u64 {
        self.seed1
    }

    pub proof fn lemma_view_len(&self)
        ensures
            self@.len() == self.spec_bit_len(),
    {
        self.bits.lemma_view_len();
    }

    /// Membership report of this filter's state for `x`.
    pub open spec fn spec_check(&self, x: Seq<u8>) -> bool {
        bloom_check(self@, self.spec_seed0(), self.spec_seed1(), self.spec_k(), x)
    }

    /// This filter's state after inserting `x`.
    pub open spec fn spec_insert(&self, x: Seq<u8>) -> Seq<bool> {
        bloom_insert(self@, self.spec_seed0(), self.spec_seed1(), self.spec_k(), x)
    }

    /// True when `other` keeps this filter's geometry and seeds.
    pub open spec fn same_shape(&self, other: &BloomFilter) -> bool {
        &&& self.spec_bit_len() == other.spec_bit_len()
        &&& self.spec_k() == other.spec_k()
        &&& self.spec_seed0() == other.spec_seed0()
        &&& self.spec_seed1() == other.spec_seed1()
    }

    /// Creates a zero-filled filter of `8 * size_bytes` bits whose hash count
    /// follows `spec_hash_count`, keyed by the two given seeds.
    pub fn new(size_bytes: u64, capacity: u64, seed0: u64, seed1: u64) -> (r: BloomFilter)
        requires
            size_bytes >= 1,
            capacity >= 1,
            8 * size_bytes <= usize::MAX,
        ensures
            r.wf(),
            r.spec_bit_len() == 8 * size_bytes,
            r.spec_k() == spec_hash_count((8 * size_bytes) as nat, capacity as nat),
            r.spec_seed0() == seed0,
            r.spec_seed1() == seed1,
            r@ =~= Seq::new((8 * size_bytes) as nat, |i: int| false),
    {
        let m: usize = (8 * size_bytes) as usize;
        let num_hashes = hash_count(8 * size_bytes, capacity);
        BloomFilter { bits: BitArray::new(m), num_hashes, seed0, seed1 }
    }

    /// Rebuilds a filter from its persisted parts: the packed bit bytes, the
    /// bit count, and the stored seeds. The hash count is recomputed from the
    /// geometry, as `new` derives it.
    pub fn from_parts(bytes: &[u8], size_bytes: u64, capacity: u64, seed0: u64, seed1: u64) -> (r:
        Result<BloomFilter, crate::bits::BitsError>)
        requires
            size_bytes >= 1,
            capacity >= 1,
            8 * size_bytes <= usize::MAX,
        ensures
            bytes@.len() == size_bytes ==> {
                &&& r is Ok
                &&& r->Ok_0.wf()
                &&& r->Ok_0.spec_bit_len() == 8 * size_bytes
                &&& r->Ok_0.spec_k() == spec_hash_count((8 * size_bytes) as nat, capacity as nat)
                &&& r->Ok_0.spec_seed0() == seed0
                &&& r->Ok_0.spec_seed1() == seed1
                &&& forall|i: int|
                    0 <= i < 8 * size_bytes ==> r->Ok_0@[i] == crate::bits::byte_bit(
                        #[trigger] bytes@[i / 8],
                        (i % 8) as nat,
                    )
            },
            bytes@.len() != size_bytes ==> r is Err,
    {
        let m: usize = (8 * size_bytes) as usize;
        let bits = BitArray::from_bytes(bytes, m)?;
        let num_hashes = hash_count(8 * size_bytes, capacity);
        Ok(BloomFilter { bits, num_hashes, seed0, seed1 })
    }

    /// The two hash seeds, in persistence order.
    pub fn seeds(&self) -> (r: (u64, u64))
        ensures
            r.0 == self.spec_seed0(),
            r.1 == self.spec_seed1(),
    {
        (self.seed0, self.seed1)
    }

    /// The packed bytes of the bit array, for persistence.
    pub fn to_bytes(&self) -> (r: Vec<u8>)
        requires
            self.wf(),
        ensures
            r@.len() == crate::bits::spec_byte_len(self.spec_bit_len()),
            forall|i: int|
                0 <= i < self.spec_bit_len() ==> crate::bits::byte_bit(
                    #[trigger] r@[i / 8],
                    (i % 8) as nat,
                ) == self@[i],
            forall|j: int|
                self.spec_bit_len() <= j < 8 * r@.len() ==> !crate::bits::byte_bit(
                    #[trigger] r@[j / 8],
                    (j % 8) as nat,
                ),
    {
        proof {
            self.bits.lemma_view_len();
        }
        self.bits.to_bytes()
    }

    /// Inserts `x`: sets all of its `k` bit positions.
    pub fn set(&mut self, x: &[u8])
        requires
            old(self).wf(),
        ensures
            final(self).wf(),
            old(self).same_shape(final(self)),
            final(self)@ =~= old(self).spec_insert(x@),
    {
        let _ = self.run_probes(x);
    }

    /// Reports whether `x` is probably present: true iff all of its `k` bit
    /// positions are set.
    pub fn check(&self, x: &[u8]) -> (r: bool)
        requires
            self.wf(),
        ensures
            r == self.spec_check(x@),
    {
        let h1 = xxh3_seeded(x, self.seed0);
        let h2 = xxh3_seeded(x, self.seed1);
        let m = self.bits.bit_len();
        let ghost s0 = self.seed0;
        let ghost s1 = self.seed1;
        proof {
            self.bits.lemma_view_len();
        }
        let mut all = true;
        let mut i: u64 = 0;
        while i < self.num_hashes
            invariant
                self.wf(),
                0 <= i <= self.num_hashes,
                h1 == xxh3_seeded_of(s0, x@),
                h2 == xxh3_seeded_of(s1, x@),
                s0 == self.spec_seed0(),
                s1 == self.spec_seed1(),
                m == self.spec_bit_len(),
                self@.len() == m,
                all == forall|t: int|
                    0 <= t < i ==> self@[#[trigger] bloom_pos(s0, s1, self@.len(), x@, t)],
            decreases self.num_hashes - i,
        {
            let idx = pos_of(h1, h2, i, m);
            let bit = self.bits.read_bit(idx);
            all = all && bit;
            proof {
                let pos_i = bloom_pos(s0, s1, self@.len(), x@, i as int);
                assert(pos_i == idx as int);
                if all {
                    assert forall|t: int| 0 <= t < i + 1 implies self@[#[trigger] bloom_pos(
                        s0,
                        s1,
                        self@.len(),
                        x@,
                        t,
                    )] by {}
                }
            }
            i = i + 1;
        }
        all
    }

    /// Checks and inserts in one pass: returns whether all of the `k` bit
    /// positions of `x` were already set, and sets all of them.
    pub fn check_and_set(&mut self, x: &[u8]) -> (r: bool)
        requires
            old(self).wf(),
        ensures
            final(self).wf(),
            old(self).same_shape(final(self)),
            r == old(self).spec_check(x@),
            final(self)@ =~= old(self).spec_insert(x@),
    {
        self.run_probes(x)
    }

    /// Walks the `k` positions of `x`, reporting whether all were already set
    /// in the starting state, and setting each along the way.
    fn run_probes(&mut self, x: &[u8]) -> (r: bool)
        requires
            old(self).wf(),
        ensures
            final(self).wf(),
            old(self).same_shape(final(self)),
            r == old(self).spec_check(x@),
            final(self)@ =~= old(self).spec_insert(x@),
    {
        let h1 = xxh3_seeded(x, self.seed0);
        let h2 = xxh3_seeded(x, self.seed1);
        let m = self.bits.bit_len();
        let ghost s0 = self.seed0;
        let ghost s1 = self.seed1;
        let ghost orig = self@;
        proof {
            self.bits.lemma_view_len();
        }
        let mut all = true;
        let mut i: u64 = 0;
        while i < self.num_hashes
            invariant
                self.wf(),
                0 <= i <= self.num_hashes,
                h1 == xxh3_seeded_of(s0, x@),
                h2 == xxh3_seeded_of(s1, x@),
                s0 == self.spec_seed0(),
                s1 == self.spec_seed1(),
                m == self.spec_bit_len(),
                self.num_hashes == old(self).spec_k(),
                orig.len() == m,
                self@.len() == orig.len(),
                all == forall|t: int|
                    0 <= t < i ==> orig[#[trigger] bloom_pos(s0, s1, orig.len(), x@, t)],
                self@ =~= Seq::new(
                    orig.len(),
                    |j: int|
                        orig[j] || exists|t: int|
                            0 <= t < i && #[trigger] bloom_pos(s0, s1, orig.len(), x@, t) == j,
                ),
            decreases self.num_hashes - i,
        {
            let ghost pre = self@;
            let idx = pos_of(h1, h2, i, m);
            let bit = self.bits.read_bit(idx);
            self.bits.set(idx, true);
            all = all && bit;
            proof {
                let pos_i = bloom_pos(s0, s1, orig.len(), x@, i as int);
                assert(pos_i == idx as int);
                // The freshly probed bit was read from `pre`; relate it to the
                // original state: bits are only ever set, so a reading that
                // disagrees with `orig` can only come from an earlier probe of
                // the same position, and that probe already decided `all`.
                assert(bit == pre[pos_i]);
                if bit && !orig[pos_i] {
                    let t = choose|t: int|
                        0 <= t < i && #[trigger] bloom_pos(s0, s1, orig.len(), x@, t) == pos_i;
                    assert(!orig[bloom_pos(s0, s1, orig.len(), x@, t)]);
                }
                assert(all == forall|t: int|
                    0 <= t < i + 1 ==> orig[#[trigger] bloom_pos(s0, s1, orig.len(), x@, t)]) by {
                    if all {
                        assert(orig[pos_i]);
                        assert forall|t: int| 0 <= t < i + 1 implies orig[#[trigger] bloom_pos(
                            s0,
                            s1,
                            orig.len(),
                            x@,
                            t,
                        )] by {}
                    } else {
                        if forall|t: int|
                            0 <= t < i + 1 ==> orig[#[trigger] bloom_pos(s0, s1, orig.len(), x@, t)] {
                            assert(orig[pos_i]);
                            assert(bit);
                        }
                    }
                }
                assert(self@ =~= Seq::new(
                    orig.len(),
                    |j: int|
                        orig[j] || exists|t: int|
                            0 <= t < i + 1 && #[trigger] bloom_pos(s0, s1, orig.len(), x@, t) == j,
                )) by {
                    assert forall|j: int| 0 <= j < orig.len() implies self@[j] == (orig[j]
                        || exists|t: int|
                        0 <= t < i + 1 && #[trigger] bloom_pos(s0, s1, orig.len(), x@, t) == j) by {
                        assert(self@ == pre.update(idx as int, true));
                        if j == pos_i {
                            assert(bloom_pos(s0, s1, orig.len(), x@, i as int) == j);
                            assert(self@[j]);
                        } else {
                            assert(self@[j] == pre[j]);
                            if exists|t: int|
                                0 <= t < i + 1 && #[trigger] bloom_pos(s0, s1, orig.len(), x@, t)
                                    == j {
                                let t = choose|t: int|
                                    0 <= t < i + 1 && #[trigger] bloom_pos(
                                        s0,
                                        s1,
                                        orig.len(),
                                        x@,
                                        t,
                                    ) == j;
                                assert(t != i);
                                assert(0 <= t < i && bloom_pos(s0, s1, orig.len(), x@, t) == j);
                            }
                        }
                    }
                }
            }
            i = i + 1;
        }
        all
    }
}

/// Computes `spec_hash_count(m, n)` exactly, in 128-bit arithmetic.
fn hash_count(m: u64, n: u64) -> (k: u64)
    requires
        n >= 1,
    ensures
        k == spec_hash_count(m as nat, n as nat),
        1 <= k <= 64,
{
    proof {
        assert(2 * (m as int) * (LN2_NUM as int) + (n as int) * (LN2_DEN as int)
            < 0x100000000000000000000000000000000) by (nonlinear_arith)
            requires
                m <= 0xFFFFFFFFFFFFFFFF,
                n <= 0xFFFFFFFFFFFFFFFF,
        ;
        assert(2 * (n as int) * (LN2_DEN as int) < 0x100000000000000000000000000000000)
            by (nonlinear_arith)
            requires
                n <= 0xFFFFFFFFFFFFFFFF,
        ;
        assert(2 * (n as int) * (LN2_DEN as int) >= 1) by (nonlinear_arith)
            requires
                n >= 1,
        ;
    }
    let num: u128 = 2u128 * (m as u128) * (LN2_NUM as u128) + (n as u128) * (LN2_DEN as u128);
    let den: u128 = 2u128 * (n as u128) * (LN2_DEN as u128);
    let raw: u128 = num / den;
    if raw < 1 {
        1
    } else if raw > 64 {
        64
    } else {
        raw as u64
    }
}

/// Computes the probed position `(h1 + i * h2) mod m` exactly, in 128-bit
/// arithmetic.
fn pos_of(h1: u64, h2: u64, i: u64, m: usize) -> (p: usize)
    requires
        m >= 1,
        i <= 64,
    ensures
        p < m,
        p as int == (h1 + i * h2) % (m as int),
{
    proof {
        assert((i as int) * (h2 as int) <= 64 * 0xFFFFFFFFFFFFFFFF) by (nonlinear_arith)
            requires
                i <= 64,
                h2 <= 0xFFFFFFFFFFFFFFFF,
        ;
    }
    let sum: u128 = (h1 as u128) + (i as u128) * (h2 as u128);
    let p: u128 = sum % (m as u128);
    p as usize
}

/// Inserting `x` sets every one of its positions: a just-inserted value
/// always checks as present, whatever was in the filter before.
pub proof fn lemma_insert_sets(bits: Seq<bool>, seed0: u64, seed1: u64, k: nat, x: Seq<u8>)
    requires
        bits.len() >= 1,
    ensures
        bloom_check(bloom_insert(bits, seed0, seed1, k, x), seed0, seed1, k, x),
        forall|j: int|
            0 <= j < bits.len() && bits[j] ==> bloom_insert(bits, seed0, seed1, k, x)[j],
        bloom_insert(bits, seed0, seed1, k, x).len() == bits.len(),
{
    let post = bloom_insert(bits, seed0, seed1, k, x);
    assert forall|i: int| 0 <= i < k implies post[#[trigger] bloom_pos(
        seed0,
        seed1,
        post.len(),
        x,
        i,
    )] by {
        let j = bloom_pos(seed0, seed1, bits.len(), x, i);
        assert(0 <= j < bits.len()) by {
            vstd::arithmetic::div_mod::lemma_mod_bound(
                xxh3_seeded_of(seed0, x) + i * xxh3_seeded_of(seed1, x),
                bits.len() as int,
            );
        }
    }
}

/// A check that succeeded keeps succeeding when bits are only ever set: any
/// state that dominates the old one bit for bit reports at least as much.
pub proof fn lemma_check_monotone(
    bits1: Seq<bool>,
    bits2: Seq<bool>,
    seed0: u64,
    seed1: u64,
    k: nat,
    x: Seq<u8>,
)
    requires
        bits1.len() == bits2.len(),
        bits1.len() >= 1,
        forall|j: int| 0 <= j < bits1.len() && bits1[j] ==> bits2[j],
        bloom_check(bits1, seed0, seed1, k, x),
    ensures
        bloom_check(bits2, seed0, seed1, k, x),
{
    assert forall|i: int| 0 <= i < k implies bits2[#[trigger] bloom_pos(
        seed0,
        seed1,
        bits2.len(),
        x,
        i,
    )] by {
        let j = bloom_pos(seed0, seed1, bits1.len(), x, i);
        assert(0 <= j < bits1.len()) by {
            vstd::arithmetic::div_mod::lemma_mod_bound(
                xxh3_seeded_of(seed0, x) + i * xxh3_seeded_of(seed1, x),
                bits1.len() as int,
            );
        }
        assert(bits1[j]);
    }
}

/// The Bloom state after inserting each value of `xs` in order.
pub open spec fn bloom_insert_all(
    bits: Seq<bool>,
    seed0: u64,
    seed1: u64,
    k: nat,
    xs: Seq<Seq<u8>>,
) -> Seq<bool>
    decreases xs.len(),
{
    if xs.len() == 0 {
        bits
    } else {
        bloom_insert_all(bloom_insert(bits, seed0, seed1, k, xs[0]), seed0, seed1, k, xs.drop_first())
    }
}

/// A Bloom filter has no false negatives: after inserting any sequence of
/// values, every inserted value still checks as present.
pub proof fn lemma_no_false_negatives(
    bits: Seq<bool>,
    seed0: u64,
    seed1: u64,
    k: nat,
    xs: Seq<Seq<u8>>,
    i: int,
)
    requires
        bits.len() >= 1,
        0 <= i < xs.len(),
    ensures
        bloom_insert_all(bits, seed0, seed1, k, xs).len() == bits.len(),
        bloom_check(bloom_insert_all(bits, seed0, seed1, k, xs), seed0, seed1, k, xs[i]),
    decreases xs.len(),
{
    let after_first = bloom_insert(bits, seed0, seed1, k, xs[0]);
    lemma_insert_sets(bits, seed0, seed1, k, xs[0]);
    if i == 0 {
        lemma_insert_all_monotone(after_first, seed0, seed1, k, xs.drop_first(), xs[0]);
    } else {
        lemma_no_false_negatives(after_first, seed0, seed1, k, xs.drop_first(), i - 1);
        assert(xs.drop_first()[i - 1] == xs[i]);
    }
}

/// Later insertions never clear a value that already checks as present.
proof fn lemma_insert_all_monotone(
    bits: Seq<bool>,
    seed0: u64,
    seed1: u64,
    k: nat,
    xs: Seq<Seq<u8>>,
    x: Seq<u8>,
)
    requires
        bits.len() >= 1,
        bloom_check(bits, seed0, seed1, k, x),
    ensures
        bloom_insert_all(bits, seed0, seed1, k, xs).len() == bits.len(),
        bloom_check(bloom_insert_all(bits, seed0, seed1, k, xs), seed0, seed1, k, x),
    decreases xs.len(),
{
    if xs.len() > 0 {
        let next = bloom_insert(bits, seed0, seed1, k, xs[0]);
        lemma_insert_sets(bits, seed0, seed1, k, xs[0]);
        lemma_check_monotone(bits, next, seed0, seed1, k, x);
        lemma_insert_all_monotone(next, seed0, seed1, k, xs.drop_first(), x);
    }
}

} // verus!
