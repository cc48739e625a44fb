//! Fixed-size bit array with byte-packed storage.
//!
//! Bit `i` resides at byte `i / 8`, at little-endian bit position `i % 8`
//! within that byte. The array is allocated zero-filled, never resized, and
//! keeps the unused padding bits of its last byte at zero, so that its byte
//! serialization is canonical.

use vstd::prelude::*;

verus! {

/// Errors reported by [`BitArray`] operations.
#[derive(Clone, Copy, Debug, PartialEq, Eq, Structural)]
pub enum BitsError {
    /// A bit index at or beyond the logical bit length.
    IndexOutOfRange,
    /// A byte buffer whose length is not exactly `ceil(bit_len / 8)`.
    BadLength,
}

/// True iff bit `k` (little-endian) of byte `b` is set.
pub open spec fn byte_bit(b: u8, k: nat) -> bool {
    (b >> (k as u8)) & 1u8 == 1u8
}

/// The number of bytes that hold `bit_len` bits.
pub open spec fn spec_byte_len(bit_len: nat) -> nat {
    (bit_len + 7) / 8
}

/// A fixed-length bit array of `bit_len` bits, byte-packed.
pub struct BitArray {
    bytes: Vec<u8>,
    bit_len: usize,
}

impl View for BitArray {
    type V = Seq<bool>;

    /// The logical contents: one boolean per bit, in index order.
    closed spec fn view(&self) -> Seq<bool> {
        Seq::new(
            self.bit_len as nat,
            |i: int| byte_bit(self.bytes@[i / 8], (i % 8) as nat),
        )
    }
}

impl BitArray {
    /// The storage is exactly `ceil(bit_len / 8)` bytes and every padding bit
    /// past `bit_len` in the last byte is zero.
    pub closed spec fn wf(&self) -> bool {
        &&& self.bytes@.len() == spec_byte_len(self.bit_len as nat)
        &&& forall|j: int|
            self.bit_len <= j < 8 * self.bytes@.len()
                ==> !byte_bit(#[trigger] self.bytes@[j / 8], (j % 8) as nat)
    }

    /// The logical bit length chosen at construction.
    pub closed spec fn spec_bit_len(&self) -> nat {
        self.bit_len as nat
    }

    pub proof fn lemma_view_len(&self)
        ensures
            self@.len() == self.spec_bit_len(),
            self.spec_bit_len() <= usize::MAX,
    {
    }

    /// Returns the logical bit length.
    pub fn bit_len(&self) -> (n: usize)
        ensures
            n == self.spec_bit_len(),
    {
        self.bit_len
    }

    /// Allocates a zero-filled array of `bit_len` bits.
    pub fn new(bit_len: usize) -> (r: BitArray)
        ensures
            r.wf(),
            r.spec_bit_len() == bit_len,
            r@ =~= Seq::new(bit_len as nat, |i: int| false),
    {
        let num_bytes: usize = bit_len / 8 + if bit_len % 8 == 0 { 0 } else { 1 };
        let bytes: Vec<u8> = vec![0u8; num_bytes];
        let r = BitArray { bytes, bit_len };
        proof {
            assert forall|j: int| 0 <= j < 8 * r.bytes@.len() implies !byte_bit(
                #[trigger] r.bytes@[j / 8],
                (j % 8) as nat,
            ) by {
                let k = (j % 8) as u8;
                assert((0u8 >> k) & 1u8 != 1u8) by (bit_vector);
            }
        }
        r
    }

    /// Copies the packed storage out: exactly `ceil(bit_len / 8)` bytes, with
    /// every padding bit past `bit_len` zero.
    pub fn to_bytes(&self) -> (r: Vec<u8>)
        requires
            self.wf(),
        ensures
            r@.len() == spec_byte_len(self.spec_bit_len()),
            forall|i: int|
                0 <= i < self.spec_bit_len() ==> byte_bit(#[trigger] r@[i / 8], (i % 8) as nat)
                    == self@[i],
            forall|j: int|
                self.spec_bit_len() <= j < 8 * r@.len() ==> !byte_bit(
                    #[trigger] r@[j / 8],
                    (j % 8) as nat,
                ),
    {
        vstd::slice::slice_to_vec(self.bytes.as_slice())
    }

    /// Rebuilds a `bit_len`-bit array from its packed bytes, failing with
    /// `BadLength` when the buffer is not exactly `ceil(bit_len / 8)` bytes.
    /// Padding bits of the last byte are ignored and stored as zero.
    pub fn from_bytes(bytes: &[u8], bit_len: usize) -> (r: Result<BitArray, BitsError>)
        ensures
            bytes@.len() == spec_byte_len(bit_len as nat) ==> {
                &&& r is Ok
                &&& r->Ok_0.wf()
                &&& r->Ok_0.spec_bit_len() == bit_len
                &&& forall|i: int|
                    0 <= i < bit_len ==> r->Ok_0@[i] == byte_bit(
                        #[trigger] bytes@[i / 8],
                        (i % 8) as nat,
                    )
            },
            bytes@.len() != spec_byte_len(bit_len as nat) ==> r == Err::<
                BitArray,
                BitsError,
            >(BitsError::BadLength),
    {
        let num_bytes: usize = bit_len / 8 + if bit_len % 8 == 0 {
            0
        } else {
            1
        };
        if bytes.len() != num_bytes {
            return Err(BitsError::BadLength);
        }
        let mut copy: Vec<u8> = vstd::slice::slice_to_vec(bytes);
        let tail = (bit_len % 8) as u8;
        if tail != 0 {
            let last = copy[num_bytes - 1];
            proof {
                assert(1u8 << tail >= 1u8) by (bit_vector)
                    requires
                        tail < 8,
                ;
            }
            let masked = last & ((1u8 << tail) - 1);
            copy[num_bytes - 1] = masked;
            proof {
                let len = bit_len as int;
                assert forall|i: int| 0 <= i < len implies byte_bit(
                    #[trigger] copy@[i / 8],
                    (i % 8) as nat,
                ) == byte_bit(bytes@[i / 8], (i % 8) as nat) by {
                    if i / 8 == num_bytes - 1 {
                        let ki = (i % 8) as u8;
                        assert(ki < tail);
                        assert(((last & (((1u8 << tail) - 1) as u8)) >> ki) & 1u8 == (last >> ki) & 1u8)
                            by (bit_vector)
                            requires
                                ki < tail,
                                tail < 8,
                        ;
                    }
                }
                assert forall|j: int| len <= j < 8 * copy@.len() implies !byte_bit(
                    #[trigger] copy@[j / 8],
                    (j % 8) as nat,
                ) by {
                    assert(j / 8 == num_bytes - 1);
                    let kj = (j % 8) as u8;
                    assert(kj >= tail);
                    assert(((last & (((1u8 << tail) - 1) as u8)) >> kj) & 1u8 != 1u8) by (bit_vector)
                        requires
                            tail <= kj,
                            kj < 8,
                            tail < 8,
                    ;
                }
            }
        }
        let r = BitArray { bytes: copy, bit_len };
        Ok(r)
    }

    /// Reads bit `i`; the index must be in bounds.
    pub fn read_bit(&self, i: usize) -> (v: bool)
        requires
            self.wf(),
            i < self.spec_bit_len(),
        ensures
            v == self@[i as int],
    {
        let byte = self.bytes[i / 8];
        let k = (i % 8) as u8;
        (byte >> k) & 1u8 == 1u8
    }

    /// Reads bit `i`, failing with `IndexOutOfRange` when `i` is at or beyond
    /// the bit length.
    pub fn get(&self, i: usize) -> (r: Result<bool, BitsError>)
        requires
            self.wf(),
        ensures
            i < self.spec_bit_len() ==> r == Ok::<bool, BitsError>(self@[i as int]),
            i >= self.spec_bit_len() ==> r == Err::<bool, BitsError>(BitsError::IndexOutOfRange),
    {
        if i < self.bit_len {
            Ok(self.read_bit(i))
        } else {
            Err(BitsError::IndexOutOfRange)
        }
    }

    /// Writes value `v` at bit `i`; the index must be in bounds.
    pub fn set(&mut self, i: usize, v: bool)
        requires
            old(self).wf(),
            i < old(self).spec_bit_len(),
        ensures
            final(self).wf(),
            final(self).spec_bit_len() == old(self).spec_bit_len(),
            final(self)@ =~= old(self)@.update(i as int, v),
    {
        let byte_idx = i / 8;
        let k = (i % 8) as u8;
        let b = self.bytes[byte_idx];
        let nb = if v {
            b | (1u8 << k)
        } else {
            b & !(1u8 << k)
        };
        self.bytes[byte_idx] = nb;
        proof {
            self.lemma_set_bits(old(self), i as int, v);
        }
    }

    /// After replacing byte `i / 8` as `set` does, every bit other than `i`
    /// keeps its value, bit `i` becomes `v`, and padding stays zero.
    proof fn lemma_set_bits(&self, prev: &BitArray, i: int, v: bool)
        requires
            prev.wf(),
            0 <= i < prev.spec_bit_len(),
            self.bit_len == prev.bit_len,
            self.bytes@.len() == prev.bytes@.len(),
            forall|bi: int| 0 <= bi < self.bytes@.len() && bi != i / 8 ==> self.bytes@[bi] == prev.bytes@[bi],
            ({
                let b = prev.bytes@[i / 8];
                let k = (i % 8) as u8;
                self.bytes@[i / 8] == if v {
                    b | (1u8 << k)
                } else {
                    b & !(1u8 << k)
                }
            }),
        ensures
            self.wf(),
            self@ =~= prev@.update(i, v),
    {
        let b = prev.bytes@[i / 8];
        let k = (i % 8) as u8;
        let nb = self.bytes@[i / 8];
        assert forall|j: int| 0 <= j < 8 * self.bytes@.len() && j != i implies byte_bit(
            #[trigger] self.bytes@[j / 8],
            (j % 8) as nat,
        ) == byte_bit(prev.bytes@[j / 8], (j % 8) as nat) by {
            if j / 8 == i / 8 {
                let kj = (j % 8) as u8;
                assert(kj != k);
                assert(kj < 8 && k < 8);
                assert(((b | (1u8 << k)) >> kj) & 1u8 == (b >> kj) & 1u8) by (bit_vector)
                    requires
                        kj != k,
                        kj < 8,
                        k < 8,
                ;
                assert(((b & !(1u8 << k)) >> kj) & 1u8 == (b >> kj) & 1u8) by (bit_vector)
                    requires
                        kj != k,
                        kj < 8,
                        k < 8,
                ;
            }
        }
        assert(byte_bit(nb, (i % 8) as nat) == v) by {
            assert(((b | (1u8 << k)) >> k) & 1u8 == 1u8) by (bit_vector)
                requires
                    k < 8,
            ;
            assert(((b & !(1u8 << k)) >> k) & 1u8 == 0u8) by (bit_vector)
                requires
                    k < 8,
            ;
        }
    }
}

} // verus!
