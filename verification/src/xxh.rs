//! Compact single-hash slotted filter over a byte-packed bit array.
//!
//! The bit array is divided into slots of `key_bits + 1` bits: an "occupied"
//! flag followed by the low `key_bits` bits of the stored fingerprint. A
//! value hashes once; the hash picks an anchor slot by linear remapping and
//! a fingerprint from its low bits. Insertion probes a bounded run of
//! consecutive slots (wrapping), stopping at a matching fingerprint (a hit),
//! at the first free slot (a write), or after the probe limit (fail-open:
//! nothing is written). Lookup probes in the same order, so a free slot seen
//! before any match is a definite miss, and a fully occupied run without a
//! match is a conservative "probably present".

use vstd::prelude::*;

use crate::bits::BitArray;
use crate::hashing::{xxh3, xxh3_of};

verus! {

/// The slot geometry and probe limit of a slotted filter. The fields are
/// mathematical integers, so the shape is a specification-level value.
pub struct XxhShape {
    /// Number of slots in the bit array.
    pub num_slots: nat,
    /// Number of fingerprint bits stored per slot.
    pub key_bits: nat,
    /// Maximum number of consecutive slots probed.
    pub num_tries: nat,
}

/// A shape is consistent with a bit array of `bits_len` bits: every slot
/// lies inside it and the fingerprint fits a 64-bit word.
pub open spec fn shape_ok(shape: XxhShape, bits_len: nat) -> bool {
    &&& 1 <= shape.key_bits <= 63
    &&& shape.num_slots >= 1
    &&& shape.num_tries >= 1
    &&& shape.num_slots * (shape.key_bits + 1) <= bits_len
}

/// Bit `b` (little-endian) of the word `v`.
pub open spec fn spec_nth_bit(v: u64, b: u64) -> bool {
    (v >> b) & 1u64 == 1u64
}

/// The value of `count` consecutive bits read little-endian from `from`.
pub open spec fn bits_value(bits: Seq<bool>, from: int, count: nat) -> nat
    decreases count,
{
    if count == 0 {
        0
    } else {
        (if bits[from] {
            1nat
        } else {
            0nat
        }) + 2 * bits_value(bits, from + 1, (count - 1) as nat)
    }
}

/// The first bit index of slot `s`.
pub open spec fn slot_base(shape: XxhShape, s: int) -> int {
    s * (shape.key_bits + 1)
}

/// Whether slot `s` is occupied.
pub open spec fn slot_used(bits: Seq<bool>, shape: XxhShape, s: int) -> bool {
    bits[slot_base(shape, s)]
}

/// The fingerprint stored in slot `s`.
pub open spec fn slot_key(bits: Seq<bool>, shape: XxhShape, s: int) -> nat {
    bits_value(bits, slot_base(shape, s) + 1, shape.key_bits)
}

/// The fingerprint of `x`: the low `key_bits` bits of its hash.
pub open spec fn xxh_fp(shape: XxhShape, x: Seq<u8>) -> u64 {
    xxh3_of(x) & (((1u64 << (shape.key_bits as u64)) - 1) as u64)
}

/// The anchor slot of `x`: its hash linearly remapped from the 64-bit range
/// onto `[0, num_slots - 1]`, reduced modulo the slot count.
pub open spec fn xxh_anchor(shape: XxhShape, x: Seq<u8>) -> int {
    ((xxh3_of(x) * (shape.num_slots - 1)) / 0xFFFF_FFFF_FFFF_FFFF) % (shape.num_slots as int)
}

/// The slot inspected by probe `t` of `x`: the anchor advanced `t` slots,
/// wrapping around the slot count.
pub open spec fn xxh_probe(shape: XxhShape, x: Seq<u8>, t: int) -> int {
    (xxh_anchor(shape, x) + t) % (shape.num_slots as int)
}

/// The state after writing fingerprint `fp` into slot `s`: the occupied flag
/// set, the key bits holding `fp`, everything else unchanged.
pub open spec fn write_slot(bits: Seq<bool>, shape: XxhShape, s: int, fp: u64) -> Seq<bool> {
    Seq::new(
        bits.len(),
        |j: int|
            if j == slot_base(shape, s) {
                true
            } else if slot_base(shape, s) < j <= slot_base(shape, s) + shape.key_bits {
                spec_nth_bit(fp, (j - slot_base(shape, s) - 1) as u64)
            } else {
                bits[j]
            },
    )
}

/// What lookup reports when probing starts at probe index `i`: false at the
/// first free slot, true on a fingerprint match, true when the whole probe
/// run is occupied without a match.
pub open spec fn xxh_check_from(bits: Seq<bool>, shape: XxhShape, x: Seq<u8>, i: nat) -> bool
    decreases shape.num_tries - i when i <= shape.num_tries
{
    if i >= shape.num_tries {
        true
    } else {
        let s = xxh_probe(shape, x, i as int);
        if !slot_used(bits, shape, s) {
            false
        } else if slot_key(bits, shape, s) == xxh_fp(shape, x) {
            true
        } else {
            xxh_check_from(bits, shape, x, i + 1)
        }
    }
}

/// What check-and-set returns when probing starts at probe index `i`: true
/// only on a fingerprint match; false at a free slot (which it fills) and
/// false when the probe run is exhausted (fail-open).
pub open spec fn xxh_cas_result_from(bits: Seq<bool>, shape: XxhShape, x: Seq<u8>, i: nat) -> bool
    decreases shape.num_tries - i when i <= shape.num_tries
{
    if i >= shape.num_tries {
        false
    } else {
        let s = xxh_probe(shape, x, i as int);
        if !slot_used(bits, shape, s) {
            false
        } else if slot_key(bits, shape, s) == xxh_fp(shape, x) {
            true
        } else {
            xxh_cas_result_from(bits, shape, x, i + 1)
        }
    }
}

/// Whether check-and-set writes a slot when probing starts at `i`: it does
/// exactly when it meets a free slot before any match.
pub open spec fn xxh_cas_wrote_from(bits: Seq<bool>, shape: XxhShape, x: Seq<u8>, i: nat) -> bool
    decreases shape.num_tries - i when i <= shape.num_tries
{
    if i >= shape.num_tries {
        false
    } else {
        let s = xxh_probe(shape, x, i as int);
        if !slot_used(bits, shape, s) {
            true
        } else if slot_key(bits, shape, s) == xxh_fp(shape, x) {
            false
        } else {
            xxh_cas_wrote_from(bits, shape, x, i + 1)
        }
    }
}

/// The state after check-and-set when probing starts at `i`: unchanged on a
/// match or on fail-open, the first free slot filled otherwise.
pub open spec fn xxh_cas_bits_from(bits: Seq<bool>, shape: XxhShape, x: Seq<u8>, i: nat) -> Seq<
    bool,
>
    decreases shape.num_tries - i when i <= shape.num_tries
{
    if i >= shape.num_tries {
        bits
    } else {
        let s = xxh_probe(shape, x, i as int);
        if !slot_used(bits, shape, s) {
            write_slot(bits, shape, s, xxh_fp(shape, x))
        } else if slot_key(bits, shape, s) == xxh_fp(shape, x) {
            bits
        } else {
            xxh_cas_bits_from(bits, shape, x, i + 1)
        }
    }
}

/// Lookup of `x` in a slotted filter state.
pub open spec fn xxh_check(bits: Seq<bool>, shape: XxhShape, x: Seq<u8>) -> bool {
    xxh_check_from(bits, shape, x, 0)
}

/// The report of check-and-set of `x`.
pub open spec fn xxh_cas_result(bits: Seq<bool>, shape: XxhShape, x: Seq<u8>) -> bool {
    xxh_cas_result_from(bits, shape, x, 0)
}

/// Whether check-and-set of `x` writes a slot.
pub open spec fn xxh_cas_wrote(bits: Seq<bool>, shape: XxhShape, x: Seq<u8>) -> bool {
    xxh_cas_wrote_from(bits, shape, x, 0)
}

/// The state after check-and-set of `x`.
pub open spec fn xxh_cas_bits(bits: Seq<bool>, shape: XxhShape, x: Seq<u8>) -> Seq<bool> {
    xxh_cas_bits_from(bits, shape, x, 0)
}

/// Every probed slot lies inside the bit array.
pub proof fn lemma_probe_in_range(shape: XxhShape, x: Seq<u8>, t: int, bits_len: nat)
    requires
        shape_ok(shape, bits_len),
    ensures
        0 <= xxh_probe(shape, x, t) < shape.num_slots,
        0 <= slot_base(shape, xxh_probe(shape, x, t)),
        slot_base(shape, xxh_probe(shape, x, t)) + shape.key_bits + 1 <= bits_len,
{
    let ns = shape.num_slots as int;
    let kb = shape.key_bits as int;
    let a = xxh_anchor(shape, x) + t;
    vstd::arithmetic::div_mod::lemma_mod_bound(a, ns);
    let s = xxh_probe(shape, x, t);
    lemma_slot_in_range(shape, s, bits_len);
}

/// Every slot below the slot count lies inside the bit array.
pub proof fn lemma_slot_in_range(shape: XxhShape, s: int, bits_len: nat)
    requires
        shape_ok(shape, bits_len),
        0 <= s < shape.num_slots,
    ensures
        0 <= slot_base(shape, s),
        slot_base(shape, s) + shape.key_bits + 1 <= bits_len,
{
    let ns = shape.num_slots as int;
    let kb = shape.key_bits as int;
    assert(s * (kb + 1) >= 0) by (nonlinear_arith)
        requires
            s >= 0,
            kb >= 0,
    ;
    assert(s * (kb + 1) + kb + 1 <= ns * (kb + 1)) by (nonlinear_arith)
        requires
            s < ns,
            kb >= 0,
    ;
}

/// Two distinct slots occupy disjoint bit ranges: an index inside one slot's
/// range is outside the other's.
pub proof fn lemma_slots_disjoint(shape: XxhShape, s1: int, s2: int, j: int)
    requires
        0 <= s1,
        0 <= s2,
        s1 != s2,
        slot_base(shape, s1) <= j <= slot_base(shape, s1) + shape.key_bits,
        shape.key_bits >= 1,
    ensures
        !(slot_base(shape, s2) <= j <= slot_base(shape, s2) + shape.key_bits),
{
    let kb = shape.key_bits as int;
    if s1 < s2 {
        assert(s1 * (kb + 1) + kb < s2 * (kb + 1)) by (nonlinear_arith)
            requires
                0 <= s1 < s2,
                kb >= 1,
        ;
    } else {
        assert(s2 * (kb + 1) + kb < s1 * (kb + 1)) by (nonlinear_arith)
            requires
                0 <= s2 < s1,
                kb >= 1,
        ;
    }
}

/// The value of a run of bits depends only on those bits.
pub proof fn lemma_bits_value_congruence(b1: Seq<bool>, b2: Seq<bool>, from: int, count: nat)
    requires
        0 <= from,
        from + count <= b1.len(),
        b1.len() == b2.len(),
        forall|t: int| from <= t < from + count ==> #[trigger] b1[t] == b2[t],
    ensures
        bits_value(b1, from, count) == bits_value(b2, from, count),
    decreases count,
{
    if count > 0 {
        lemma_bits_value_congruence(b1, b2, from + 1, (count - 1) as nat);
    }
}

/// A run of bits that spells out the binary digits of a word `v < 2^count`
/// has value exactly `v`.
pub proof fn lemma_bits_value_is(v: u64, bits: Seq<bool>, from: int, count: nat)
    requires
        count <= 63,
        v < (1u64 << (count as u64)),
        forall|b: int| 0 <= b < count ==> bits[from + b] == #[trigger] spec_nth_bit(v, b as u64),
    ensures
        bits_value(bits, from, count) == v,
    decreases count,
{
    if count == 0 {
        assert(v < (1u64 << 0u64) ==> v == 0) by (bit_vector);
    } else {
        let c = (count - 1) as u64;
        let cp = count as u64;
        let v2 = v >> 1u64;
        assert(v2 < (1u64 << c)) by (bit_vector)
            requires
                v2 == v >> 1u64,
                v < (1u64 << cp),
                cp == c + 1,
                c <= 62,
        ;
        assert forall|b: int| 0 <= b < count - 1 implies bits[from + 1 + b] == #[trigger] spec_nth_bit(
            v2,
            b as u64,
        ) by {
            let bb = b as u64;
            assert(((v >> 1u64) >> bb) & 1u64 == (v >> ((bb + 1) as u64)) & 1u64) by (bit_vector)
                requires
                    bb <= 62,
            ;
            assert(spec_nth_bit(v2, bb) == spec_nth_bit(v, (bb + 1) as u64));
            assert(bits[from + (b + 1)] == spec_nth_bit(v, (b + 1) as u64));
        }
        lemma_bits_value_is(v2, bits, from + 1, (count - 1) as nat);
        assert((if (v >> 0u64) & 1u64 == 1u64 {
            1u64
        } else {
            0u64
        }) + 2 * (v >> 1u64) == v) by (bit_vector);
        let b0: int = 0;
        assert(bits[from + b0] == spec_nth_bit(v, b0 as u64));
        assert(bits[from] == spec_nth_bit(v, 0u64));
    }
}


/// Writing one slot leaves every other slot's occupied flag and stored
/// fingerprint unchanged.
pub proof fn lemma_write_slot_other(bits: Seq<bool>, shape: XxhShape, s: int, fp: u64, s2: int)
    requires
        shape_ok(shape, bits.len()),
        0 <= s < shape.num_slots,
        0 <= s2 < shape.num_slots,
        s2 != s,
    ensures
        write_slot(bits, shape, s, fp).len() == bits.len(),
        slot_used(write_slot(bits, shape, s, fp), shape, s2) == slot_used(bits, shape, s2),
        slot_key(write_slot(bits, shape, s, fp), shape, s2) == slot_key(bits, shape, s2),
{
    let w = write_slot(bits, shape, s, fp);
    let kb = shape.key_bits;
    lemma_slot_in_range(shape, s, bits.len());
    lemma_slot_in_range(shape, s2, bits.len());
    lemma_slots_disjoint(shape, s2, s, slot_base(shape, s2));
    assert forall|t: int|
        slot_base(shape, s2) + 1 <= t < slot_base(shape, s2) + 1 + kb implies #[trigger] bits[t]
        == w[t] by {
        lemma_slots_disjoint(shape, s2, s, t);
    }
    lemma_bits_value_congruence(bits, w, slot_base(shape, s2) + 1, kb);
}

/// Writing a slot marks it occupied and stores exactly the fingerprint.
pub proof fn lemma_write_slot_own(bits: Seq<bool>, shape: XxhShape, s: int, fp: u64)
    requires
        shape_ok(shape, bits.len()),
        0 <= s < shape.num_slots,
        fp < (1u64 << (shape.key_bits as u64)),
    ensures
        write_slot(bits, shape, s, fp).len() == bits.len(),
        slot_used(write_slot(bits, shape, s, fp), shape, s),
        slot_key(write_slot(bits, shape, s, fp), shape, s) == fp,
{
    let w = write_slot(bits, shape, s, fp);
    let kb = shape.key_bits;
    let base = slot_base(shape, s);
    lemma_slot_in_range(shape, s, bits.len());
    assert forall|b: int| 0 <= b < kb implies w[base + 1 + b] == #[trigger] spec_nth_bit(
        fp,
        b as u64,
    ) by {
        assert(base < base + 1 + b <= base + kb);
    }
    lemma_bits_value_is(fp, w, base + 1, kb);
}

/// The fingerprint always fits in `key_bits` bits.
pub proof fn lemma_fp_bounded(shape: XxhShape, x: Seq<u8>)
    requires
        1 <= shape.key_bits <= 63,
    ensures
        xxh_fp(shape, x) < (1u64 << (shape.key_bits as u64)),
{
    let kb = shape.key_bits as u64;
    let h = xxh3_of(x);
    assert(h & (((1u64 << kb) - 1) as u64) < (1u64 << kb)) by (bit_vector)
        requires
            1 <= kb < 64,
    ;
}

/// Check-and-set never disturbs an occupied slot: its flag and fingerprint
/// survive, whatever was inserted.
pub proof fn lemma_cas_preserves_used_slot(
    bits: Seq<bool>,
    shape: XxhShape,
    x: Seq<u8>,
    i: nat,
    s2: int,
)
    requires
        shape_ok(shape, bits.len()),
        0 <= s2 < shape.num_slots,
        slot_used(bits, shape, s2),
        i <= shape.num_tries,
    ensures
        xxh_cas_bits_from(bits, shape, x, i).len() == bits.len(),
        slot_used(xxh_cas_bits_from(bits, shape, x, i), shape, s2),
        slot_key(xxh_cas_bits_from(bits, shape, x, i), shape, s2) == slot_key(bits, shape, s2),
    decreases shape.num_tries - i,
{
    if i < shape.num_tries {
        let s = xxh_probe(shape, x, i as int);
        lemma_probe_in_range(shape, x, i as int, bits.len());
        if !slot_used(bits, shape, s) {
            lemma_write_slot_other(bits, shape, s, xxh_fp(shape, x), s2);
        } else if slot_key(bits, shape, s) == xxh_fp(shape, x) {
        } else {
            lemma_cas_preserves_used_slot(bits, shape, x, i + 1, s2);
        }
    }
}

/// When check-and-set writes nothing, the state is exactly unchanged.
pub proof fn lemma_cas_no_write_no_change(bits: Seq<bool>, shape: XxhShape, x: Seq<u8>, i: nat)
    requires
        shape_ok(shape, bits.len()),
        i <= shape.num_tries,
        !xxh_cas_wrote_from(bits, shape, x, i),
    ensures
        xxh_cas_bits_from(bits, shape, x, i) == bits,
    decreases shape.num_tries - i,
{
    if i < shape.num_tries {
        let s = xxh_probe(shape, x, i as int);
        if slot_used(bits, shape, s) && slot_key(bits, shape, s) != xxh_fp(shape, x) {
            lemma_cas_no_write_no_change(bits, shape, x, i + 1);
        }
    }
}

proof fn lemma_xxh_check_after_cas_from(bits: Seq<bool>, shape: XxhShape, x: Seq<u8>, i: nat)
    requires
        shape_ok(shape, bits.len()),
        i <= shape.num_tries,
    ensures
        xxh_check_from(xxh_cas_bits_from(bits, shape, x, i), shape, x, i),
    decreases shape.num_tries - i,
{
    if i < shape.num_tries {
        let s = xxh_probe(shape, x, i as int);
        let fp = xxh_fp(shape, x);
        let post = xxh_cas_bits_from(bits, shape, x, i);
        lemma_probe_in_range(shape, x, i as int, bits.len());
        if !slot_used(bits, shape, s) {
            lemma_fp_bounded(shape, x);
            lemma_write_slot_own(bits, shape, s, fp);
        } else if slot_key(bits, shape, s) == fp {
        } else {
            lemma_cas_preserves_used_slot(bits, shape, x, i + 1, s);
            lemma_xxh_check_after_cas_from(bits, shape, x, i + 1);
        }
    }
}

/// Inserting a value and then looking it up always reports it present: a hit
/// keeps the matching slot, a write plants the fingerprint on the probe path,
/// and a fail-open insertion leaves the whole probe run occupied, which the
/// lookup conservatively reports as present.
pub proof fn lemma_xxh_insert_then_check(bits: Seq<bool>, shape: XxhShape, x: Seq<u8>)
    requires
        shape_ok(shape, bits.len()),
    ensures
        xxh_cas_bits(bits, shape, x).len() == bits.len(),
        xxh_check(xxh_cas_bits(bits, shape, x), shape, x),
{
    lemma_cas_bits_len(bits, shape, x, 0);
    lemma_xxh_check_after_cas_from(bits, shape, x, 0);
}

proof fn lemma_cas_bits_len(bits: Seq<bool>, shape: XxhShape, x: Seq<u8>, i: nat)
    requires
        shape_ok(shape, bits.len()),
        i <= shape.num_tries,
    ensures
        xxh_cas_bits_from(bits, shape, x, i).len() == bits.len(),
    decreases shape.num_tries - i,
{
    if i < shape.num_tries {
        lemma_cas_bits_len(bits, shape, x, i + 1);
    }
}

proof fn lemma_xxh_cas_again_from(bits: Seq<bool>, shape: XxhShape, x: Seq<u8>, i: nat)
    requires
        shape_ok(shape, bits.len()),
        i <= shape.num_tries,
        xxh_cas_result_from(bits, shape, x, i) || xxh_cas_wrote_from(bits, shape, x, i),
    ensures
        xxh_cas_result_from(xxh_cas_bits_from(bits, shape, x, i), shape, x, i),
    decreases shape.num_tries - i,
{
    if i < shape.num_tries {
        let s = xxh_probe(shape, x, i as int);
        let fp = xxh_fp(shape, x);
        lemma_probe_in_range(shape, x, i as int, bits.len());
        if !slot_used(bits, shape, s) {
            lemma_fp_bounded(shape, x);
            lemma_write_slot_own(bits, shape, s, fp);
        } else if slot_key(bits, shape, s) == fp {
        } else {
            lemma_cas_preserves_used_slot(bits, shape, x, i + 1, s);
            lemma_xxh_cas_again_from(bits, shape, x, i + 1);
        }
    }
}

/// A repeated check-and-set reports the value present, provided the first
/// call found it or wrote it. (A fail-open first call changes nothing, so
/// the second call fails open again: that case is excluded.)
pub proof fn lemma_xxh_cas_again(bits: Seq<bool>, shape: XxhShape, x: Seq<u8>)
    requires
        shape_ok(shape, bits.len()),
        xxh_cas_result(bits, shape, x) || xxh_cas_wrote(bits, shape, x),
    ensures
        xxh_cas_result(xxh_cas_bits(bits, shape, x), shape, x),
{
    lemma_xxh_cas_again_from(bits, shape, x, 0);
}

proof fn lemma_xxh_check_monotone_from(bits: Seq<bool>, shape: XxhShape, x: Seq<u8>, y: Seq<u8>, i: nat)
    requires
        shape_ok(shape, bits.len()),
        i <= shape.num_tries,
        xxh_check_from(bits, shape, x, i),
    ensures
        xxh_check_from(xxh_cas_bits(bits, shape, y), shape, x, i),
    decreases shape.num_tries - i,
{
    if i < shape.num_tries {
        let s = xxh_probe(shape, x, i as int);
        lemma_probe_in_range(shape, x, i as int, bits.len());
        lemma_cas_preserves_used_slot(bits, shape, y, 0, s);
        if slot_key(bits, shape, s) != xxh_fp(shape, x) {
            lemma_xxh_check_monotone_from(bits, shape, x, y, i + 1);
        }
    }
}

/// A slotted filter's lookup only ever gains: a value reported present stays
/// reported present through any later insertion. (Insertions never free or
/// rewrite an occupied slot.)
pub proof fn lemma_xxh_check_monotone(bits: Seq<bool>, shape: XxhShape, x: Seq<u8>, y: Seq<u8>)
    requires
        shape_ok(shape, bits.len()),
        xxh_check(bits, shape, x),
    ensures
        xxh_check(xxh_cas_bits(bits, shape, y), shape, x),
{
    lemma_xxh_check_monotone_from(bits, shape, x, y, 0);
}

/// Fingerprint bits stored per slot.
pub const KEY_BITS: u64 = 20;

/// Bits per slot: the occupied flag plus the fingerprint.
pub const SLOT_BITS: u64 = 21;

/// Maximum number of consecutive slots probed per value.
pub const NUM_TRIES: u64 = 4;

/// A slotted single-hash filter: the shared bit array and its slot geometry.
pub struct XxhFilter {
    bits: BitArray,
    key_bits: u64,
    num_slots: u64,
    num_tries: u64,
}

impl View for XxhFilter {
    type V = Seq<bool>;

    /// The logical contents of the underlying bit array.
    closed spec fn view(&self) -> Seq<bool> {
        self.bits@
    }
}

impl XxhFilter {
    /// The slot geometry of this filter.
    pub closed spec fn shape(&self) -> XxhShape {
        XxhShape {
            num_slots: self.num_slots as nat,
            key_bits: self.key_bits as nat,
            num_tries: self.num_tries as nat,
        }
    }

    /// The number of bits in the backing array.
    pub closed spec fn spec_bit_len(&self) -> nat {
        self.bits.spec_bit_len()
    }

    /// The bit array is well formed and the shape fits inside it.
    pub closed spec fn wf(&self) -> bool {
        &&& self.bits.wf()
        &&& shape_ok(self.shape(), self.bits.spec_bit_len())
    }

    pub proof fn lemma_view_len(&self)
        ensures
            self@.len() == self.spec_bit_len(),
    {
        self.bits.lemma_view_len();
    }

    /// A well-formed filter's shape is consistent with its bit array.
    pub proof fn lemma_wf_shape(&self)
        requires
            self.wf(),
        ensures
            shape_ok(self.shape(), self@.len()),
            self@.len() == self.spec_bit_len(),
    {
        self.bits.lemma_view_len();
    }

    /// Lookup report of this filter's state for `x`.
    pub open spec fn spec_check(&self, x: Seq<u8>) -> bool {
        xxh_check(self@, self.shape(), x)
    }

    /// What check-and-set of `x` returns on this state.
    pub open spec fn spec_cas_result(&self, x: Seq<u8>) -> bool {
        xxh_cas_result(self@, self.shape(), x)
    }

    /// Whether check-and-set of `x` writes a slot on this state.
    pub open spec fn spec_cas_wrote(&self, x: Seq<u8>) -> bool {
        xxh_cas_wrote(self@, self.shape(), x)
    }

    /// This filter's state after check-and-set of `x`.
    pub open spec fn spec_cas_bits(&self, x: Seq<u8>) -> Seq<bool> {
        xxh_cas_bits(self@, self.shape(), x)
    }

    /// True when `other` keeps this filter's geometry.
    pub open spec fn same_shape(&self, other: &XxhFilter) -> bool {
        &&& self.shape() == other.shape()
        &&& self.spec_bit_len() == other.spec_bit_len()
    }

    /// The default shape over `8 * size_bytes` bits: 20-bit fingerprints in
    /// 21-bit slots, probe runs of 4.
    pub open spec fn spec_default_shape(size_bytes: u64) -> XxhShape {
        XxhShape {
            num_slots: ((8 * size_bytes) as nat) / (SLOT_BITS as nat),
            key_bits: KEY_BITS as nat,
            num_tries: NUM_TRIES as nat,
        }
    }

    /// Creates a zero-filled filter of `8 * size_bytes` bits with the default
    /// slot geometry. The size must leave room for at least one slot.
    pub fn new(size_bytes: u64) -> (r: XxhFilter)
        requires
            8 * size_bytes <= usize::MAX,
            8 * size_bytes >= 21,
        ensures
            r.wf(),
            r.spec_bit_len() == 8 * size_bytes,
            r.shape() == Self::spec_default_shape(size_bytes),
            r@ =~= Seq::new((8 * size_bytes) as nat, |i: int| false),
    {
        let bit_len: usize = (8 * size_bytes) as usize;
        let num_slots: u64 = (8 * size_bytes) / SLOT_BITS;
        let r = XxhFilter {
            bits: BitArray::new(bit_len),
            key_bits: KEY_BITS,
            num_slots,
            num_tries: NUM_TRIES,
        };
        proof {
            r.bits.lemma_view_len();
            let lb = 8 * (size_bytes as int);
            vstd::arithmetic::div_mod::lemma_fundamental_div_mod(lb, 21);
            vstd::arithmetic::div_mod::lemma_mod_bound(lb, 21);
            assert(num_slots >= 1) by (nonlinear_arith)
                requires
                    num_slots == lb / 21,
                    lb >= 21,
            ;
            assert(21 * (lb / 21) <= lb);
            assert(r.shape().num_slots == lb / 21);
            assert(r.shape().key_bits + 1 == 21);
            assert(r.shape().num_slots * (r.shape().key_bits + 1) <= lb) by (nonlinear_arith)
                requires
                    r.shape().num_slots == lb / 21,
                    r.shape().key_bits + 1 == 21,
                    21 * (lb / 21) <= lb,
            ;
        }
        r
    }

    /// Rebuilds a filter from its persisted packed bytes and byte size, with
    /// the default slot geometry.
    pub fn from_parts(bytes: &[u8], size_bytes: u64) -> (r: Result<
        XxhFilter,
        crate::bits::BitsError,
    >)
        requires
            8 * size_bytes <= usize::MAX,
            8 * size_bytes >= 21,
        ensures
            bytes@.len() == size_bytes ==> {
                &&& r is Ok
                &&& r->Ok_0.wf()
                &&& r->Ok_0.spec_bit_len() == 8 * size_bytes
                &&& r->Ok_0.shape() == Self::spec_default_shape(size_bytes)
                &&& forall|i: int|
                    0 <= i < 8 * size_bytes ==> r->Ok_0@[i] == crate::bits::byte_bit(
                        #[trigger] bytes@[i / 8],
                        (i % 8) as nat,
                    )
            },
            bytes@.len() != size_bytes ==> r is Err,
    {
        let bit_len: usize = (8 * size_bytes) as usize;
        let bits = BitArray::from_bytes(bytes, bit_len)?;
        let num_slots: u64 = (8 * size_bytes) / SLOT_BITS;
        let r = XxhFilter { bits, key_bits: KEY_BITS, num_slots, num_tries: NUM_TRIES };
        proof {
            r.bits.lemma_view_len();
            let lb = 8 * (size_bytes as int);
            vstd::arithmetic::div_mod::lemma_fundamental_div_mod(lb, 21);
            vstd::arithmetic::div_mod::lemma_mod_bound(lb, 21);
            assert(num_slots >= 1) by (nonlinear_arith)
                requires
                    num_slots == lb / 21,
                    lb >= 21,
            ;
            assert(21 * (lb / 21) <= lb);
            assert(r.shape().num_slots == lb / 21);
            assert(r.shape().key_bits + 1 == 21);
            assert(r.shape().num_slots * (r.shape().key_bits + 1) <= lb) by (nonlinear_arith)
                requires
                    r.shape().num_slots == lb / 21,
                    r.shape().key_bits + 1 == 21,
                    21 * (lb / 21) <= lb,
            ;
        }
        Ok(r)
    }

    /// The packed bytes of the bit array, for persistence.
    pub fn to_bytes(&self) -> (r: Vec<u8>)
        requires
            self.wf(),
        ensures
            r@.len() == crate::bits::spec_byte_len(self.spec_bit_len()),
            forall|i: int|
                0 <= i < self.spec_bit_len() ==> crate::bits::byte_bit(
                    #[trigger] r@[i / 8],
                    (i % 8) as nat,
                ) == self@[i],
            forall|j: int|
                self.spec_bit_len() <= j < 8 * r@.len() ==> !crate::bits::byte_bit(
                    #[trigger] r@[j / 8],
                    (j % 8) as nat,
                ),
    {
        proof {
            self.bits.lemma_view_len();
        }
        self.bits.to_bytes()
    }

    /// The first bit index of slot `s`.
    fn slot_base_idx(&self, s: u64) -> (b: usize)
        requires
            self.wf(),
            s < self.shape().num_slots,
        ensures
            b == slot_base(self.shape(), s as int),
            b + self.shape().key_bits + 1 <= self.spec_bit_len(),
    {
        proof {
            lemma_slot_in_range(self.shape(), s as int, self.spec_bit_len());
            self.bits.lemma_view_len();
        }
        (s * (self.key_bits + 1)) as usize
    }

    /// Whether slot `s` is occupied.
    fn slot_in_use(&self, s: u64) -> (r: bool)
        requires
            self.wf(),
            s < self.shape().num_slots,
        ensures
            r == slot_used(self@, self.shape(), s as int),
    {
        proof {
            self.bits.lemma_view_len();
        }
        self.bits.read_bit(self.slot_base_idx(s))
    }

    /// The fingerprint stored in slot `s`.
    fn read_key(&self, s: u64) -> (r: u64)
        requires
            self.wf(),
            s < self.shape().num_slots,
        ensures
            r == slot_key(self@, self.shape(), s as int),
            r < (1u64 << (self.shape().key_bits as u64)),
    {
        proof {
            self.bits.lemma_view_len();
        }
        let base = self.slot_base_idx(s);
        let from = base + 1;
        let kb = self.key_bits;
        let mut r: u64 = 0;
        let mut b: u64 = 0;
        proof {
            assert(0u64 < (1u64 << 0u64)) by (bit_vector);
        }
        while b < kb
            invariant
                self.wf(),
                kb == self.shape().key_bits,
                0 <= b <= kb,
                from == slot_base(self.shape(), s as int) + 1,
                from + kb <= self@.len(),
                self@.len() == self.spec_bit_len(),
                r < (1u64 << b),
                forall|t: u64| t < b ==> #[trigger] spec_nth_bit(r, t) == self@[from + t],
            decreases kb - b,
        {
            let ghost r0 = r;
            let bit = self.bits.read_bit(from + (b as usize));
            if bit {
                proof {
                    assert(1u64 << b >= 1u64) by (bit_vector)
                        requires
                            b < 64,
                    ;
                }
                r = r | (1u64 << b);
            }
            proof {
                assert(bit == self@[from + b]);
                if bit {
                    assert(r == r0 | (1u64 << b));
                    assert((r0 | (1u64 << b)) < (1u64 << ((b + 1) as u64)) && ((r0 | (1u64 << b))
                        >> b) & 1u64 == 1u64) by (bit_vector)
                        requires
                            r0 < (1u64 << b),
                            b < 63,
                    ;
                    assert(spec_nth_bit(r, b));
                } else {
                    assert(r0 < (1u64 << ((b + 1) as u64)) && (r0 >> b) & 1u64 == 0u64)
                        by (bit_vector)
                        requires
                            r0 < (1u64 << b),
                            b < 63,
                    ;
                    assert(!spec_nth_bit(r, b));
                }
                assert forall|t: u64| t < b + 1 implies #[trigger] spec_nth_bit(r, t)
                    == self@[from + t] by {
                    if t < b {
                        assert(spec_nth_bit(r0, t) == self@[from + t]);
                        if bit {
                            assert(((r0 | (1u64 << b)) >> t) & 1u64 == (r0 >> t) & 1u64)
                                by (bit_vector)
                                requires
                                    t < b,
                                    b < 63,
                            ;
                            assert(spec_nth_bit(r, t) == spec_nth_bit(r0, t));
                        }
                    } else {
                        assert(t == b);
                        assert(spec_nth_bit(r, b) == self@[from + b]);
                    }
                }
            }
            b = b + 1;
        }
        proof {
            assert forall|t: int| 0 <= t < kb implies self@[from + t] == #[trigger] spec_nth_bit(
                r,
                t as u64,
            ) by {
                assert(spec_nth_bit(r, t as u64) == self@[from + (t as u64)]);
            }
            lemma_bits_value_is(r, self@, from as int, kb as nat);
        }
        r
    }

    /// Marks slot `s` occupied and stores fingerprint `key` in its key bits.
    fn write_key(&mut self, s: u64, key: u64)
        requires
            old(self).wf(),
            s < old(self).shape().num_slots,
        ensures
            final(self).wf(),
            old(self).same_shape(final(self)),
            final(self)@ =~= write_slot(old(self)@, old(self).shape(), s as int, key),
    {
        proof {
            self.bits.lemma_view_len();
        }
        let ghost orig = self@;
        let ghost shape = self.shape();
        let base = self.slot_base_idx(s);
        self.bits.set(base, true);
        let kb = self.key_bits;
        let mut b: u64 = 0;
        while b < kb
            invariant
                self.wf(),
                kb == shape.key_bits,
                shape == self.shape(),
                0 <= b <= kb,
                base == slot_base(shape, s as int),
                base + kb + 1 <= self@.len(),
                self@.len() == orig.len(),
                self@.len() == self.spec_bit_len(),
                self.spec_bit_len() == old(self).spec_bit_len(),
                forall|j: int|
                    0 <= j < self@.len() ==> #[trigger] self@[j] == if j == base {
                        true
                    } else if base < j <= base + b {
                        spec_nth_bit(key, (j - base - 1) as u64)
                    } else {
                        orig[j]
                    },
            decreases kb - b,
        {
            let bit = (key >> b) & 1u64 == 1u64;
            self.bits.set(base + 1 + (b as usize), bit);
            proof {
                assert(bit == spec_nth_bit(key, b));
            }
            b = b + 1;
        }
        proof {
            assert(self@ =~= write_slot(orig, shape, s as int, key));
        }
    }

    /// The anchor slot for hash `h`: `h` linearly remapped onto
    /// `[0, num_slots - 1]`, computed exactly in 128-bit arithmetic.
    fn anchor_of(&self, h: u64) -> (a: u64)
        requires
            self.wf(),
        ensures
            a as int == ((h * (self.shape().num_slots - 1)) / 0xFFFF_FFFF_FFFF_FFFF) % (
            self.shape().num_slots as int),
            a < self.shape().num_slots,
    {
        let ns = self.num_slots;
        proof {
            assert((h as int) * ((ns - 1) as int) < 0x100000000000000000000000000000000)
                by (nonlinear_arith)
                requires
                    h <= 0xFFFFFFFFFFFFFFFF,
                    1 <= ns <= 0xFFFFFFFFFFFFFFFF,
            ;
            vstd::arithmetic::div_mod::lemma_mod_bound(
                ((h as int) * ((ns - 1) as int)) / 0xFFFF_FFFF_FFFF_FFFF,
                ns as int,
            );
        }
        let prod: u128 = (h as u128) * ((ns - 1) as u128);
        let q: u128 = prod / 0xFFFF_FFFF_FFFF_FFFFu128;
        (q % (ns as u128)) as u64
    }

    /// The slot inspected by probe `t` for anchor `a`.
    fn probe_slot(&self, a: u64, t: u64) -> (s: u64)
        requires
            self.wf(),
        ensures
            s as int == (a + t) % (self.shape().num_slots as int),
            s < self.shape().num_slots,
    {
        proof {
            vstd::arithmetic::div_mod::lemma_mod_bound((a + t) as int, self.num_slots as int);
        }
        let sum: u128 = (a as u128) + (t as u128);
        (sum % (self.num_slots as u128)) as u64
    }

    /// The fingerprint for hash `h`: its low `key_bits` bits.
    fn fingerprint_of(&self, h: u64) -> (fp: u64)
        requires
            self.wf(),
        ensures
            fp == h & (((1u64 << (self.shape().key_bits as u64)) - 1) as u64),
            fp < (1u64 << (self.shape().key_bits as u64)),
    {
        let kb = self.key_bits;
        proof {
            assert(1u64 << kb >= 1u64) by (bit_vector)
                requires
                    kb < 64,
            ;
            assert(h & (((1u64 << kb) - 1) as u64) < (1u64 << kb)) by (bit_vector)
                requires
                    kb < 64,
            ;
        }
        h & ((1u64 << kb) - 1)
    }

    /// Lookup of `x`: probes up to `num_tries` consecutive slots; a free slot
    /// before any match is a definite miss, a match is a hit, and a fully
    /// occupied run without a match is a conservative hit.
    pub fn check(&self, x: &[u8]) -> (r: bool)
        requires
            self.wf(),
        ensures
            r == self.spec_check(x@),
    {
        proof {
            self.bits.lemma_view_len();
        }
        let ghost shape = self.shape();
        let h = xxh3(x);
        let fp = self.fingerprint_of(h);
        let a = self.anchor_of(h);
        let mut t: u64 = 0;
        proof {
            assert(fp == xxh_fp(shape, x@));
            assert(a as int == xxh_anchor(shape, x@));
        }
        while t < self.num_tries
            invariant
                self.wf(),
                shape == self.shape(),
                fp == xxh_fp(shape, x@),
                a as int == xxh_anchor(shape, x@),
                a < shape.num_slots,
                0 <= t <= shape.num_tries,
                xxh_check_from(self@, shape, x@, 0) == xxh_check_from(self@, shape, x@, t as nat),
            decreases self.num_tries - t,
        {
            let s = self.probe_slot(a, t);
            proof {
                assert(s as int == xxh_probe(shape, x@, t as int));
            }
            if !self.slot_in_use(s) {
                return false;
            }
            if self.read_key(s) == fp {
                return true;
            }
            t = t + 1;
        }
        true
    }

    /// Check-and-set of `x`: returns `(found, wrote)`. A match returns
    /// `(true, false)` and changes nothing; the first free slot is filled and
    /// returns `(false, true)`; an exhausted probe run returns
    /// `(false, false)` and changes nothing (fail-open).
    pub fn check_and_set(&mut self, x: &[u8]) -> (r: (bool, bool))
        requires
            old(self).wf(),
        ensures
            final(self).wf(),
            old(self).same_shape(final(self)),
            final(self)@.len() == old(self)@.len(),
            r.0 == old(self).spec_cas_result(x@),
            r.1 == old(self).spec_cas_wrote(x@),
            final(self)@ =~= old(self).spec_cas_bits(x@),
    {
        proof {
            self.bits.lemma_view_len();
        }
        let ghost shape = self.shape();
        let ghost orig = self@;
        let h = xxh3(x);
        let fp = self.fingerprint_of(h);
        let a = self.anchor_of(h);
        let mut t: u64 = 0;
        proof {
            assert(fp == xxh_fp(shape, x@));
            assert(a as int == xxh_anchor(shape, x@));
        }
        while t < self.num_tries
            invariant
                self.wf(),
                self@ == orig,
                shape == self.shape(),
                self.spec_bit_len() == old(self).spec_bit_len(),
                fp == xxh_fp(shape, x@),
                a as int == xxh_anchor(shape, x@),
                a < shape.num_slots,
                0 <= t <= shape.num_tries,
                xxh_cas_result_from(orig, shape, x@, 0) == xxh_cas_result_from(
                    orig,
                    shape,
                    x@,
                    t as nat,
                ),
                xxh_cas_wrote_from(orig, shape, x@, 0) == xxh_cas_wrote_from(
                    orig,
                    shape,
                    x@,
                    t as nat,
                ),
                xxh_cas_bits_from(orig, shape, x@, 0) == xxh_cas_bits_from(
                    orig,
                    shape,
                    x@,
                    t as nat,
                ),
            decreases self.num_tries - t,
        {
            let s = self.probe_slot(a, t);
            proof {
                assert(s as int == xxh_probe(shape, x@, t as int));
            }
            if self.slot_in_use(s) {
                if self.read_key(s) == fp {
                    return (true, false);
                }
            } else {
                self.write_key(s, fp);
                return (false, true);
            }
            t = t + 1;
        }
        (false, false)
    }

    /// Inserts `x` as check-and-set does, discarding the report. The write
    /// count lives with the owning container, which always counts a `set`.
    pub fn set(&mut self, x: &[u8])
        requires
            old(self).wf(),
        ensures
            final(self).wf(),
            old(self).same_shape(final(self)),
            final(self)@.len() == old(self)@.len(),
            final(self)@ =~= old(self).spec_cas_bits(x@),
    {
        let _ = self.check_and_set(x);
    }
}

} // verus!
