//! The versioned container file format.
//!
//! A container file is a fixed 128-byte header followed by the filter
//! payload. The header holds a big-endian magic, a one-byte kind
//! discriminant, five little-endian 64-bit fields (size, capacity,
//! error-rate bits, writes observed, write limit) and an 83-byte reserved
//! region that is written as zero and skipped on read. The payload of a
//! Bloom container starts with four little-endian seed words (the two hash
//! seeds and two reserved words) before the packed bit array; the slotted
//! variant stores the packed bit array alone. A decoder verifies the magic
//! before any other field.

use vstd::prelude::*;

use vstd::bytes::{
    lemma_auto_spec_u64_to_from_le_bytes, spec_u64_from_le_bytes, spec_u64_to_le_bytes,
    u64_from_le_bytes, u64_to_le_bytes,
};

use crate::bits::byte_bit;
use crate::bloom;
use crate::bloom::BloomFilter;
use crate::container::{
    Container, ContainerDetails, ContainerModel, ConstructionDetails, ConstructionType,
    DataSource, Filter, FilterModel, model_wf,
};
use crate::xxh::XxhFilter;

verus! {

/// Errors reported when decoding a container file image.
#[derive(Clone, Copy, Debug, PartialEq, Eq, Structural)]
pub enum CodecError {
    /// The file does not start with the container magic.
    MagicMismatch,
    /// The kind discriminant names no known filter variant.
    UnknownKind,
    /// The image is shorter than its header and payload require.
    TruncatedPayload,
    /// The stored construction parameters are invalid.
    ConfigInvalid,
}

/// The four magic bytes opening every container file (big-endian).
pub open spec fn spec_magic() -> Seq<u8> {
    seq![0xB1u8, 0x00u8, 0x88u8, 0x11u8]
}

/// The kind discriminant persisted for each construction.
pub open spec fn spec_kind_byte(t: ConstructionType) -> u8 {
    match t {
        ConstructionType::BloomByCapacityAndSize => 0u8,
        ConstructionType::BloomByCapacityAndErrorRate => 1u8,
        ConstructionType::XxhByCapacityAndSize => 2u8,
    }
}

/// The construction named by a kind discriminant, if any.
pub open spec fn spec_kind_of_byte(b: u8) -> Option<ConstructionType> {
    if b == 0 {
        Some(ConstructionType::BloomByCapacityAndSize)
    } else if b == 1 {
        Some(ConstructionType::BloomByCapacityAndErrorRate)
    } else if b == 2 {
        Some(ConstructionType::XxhByCapacityAndSize)
    } else {
        None
    }
}

/// The byte packing bits `[off, off + 8)` of a bit sequence, little-endian;
/// bits past the end of the sequence pack as zero.
pub open spec fn pack_byte(bits: Seq<bool>, off: int) -> u8 {
    ((if off < bits.len() && bits[off] {
        1int
    } else {
        0int
    }) + (if off + 1 < bits.len() && bits[off + 1] {
        2int
    } else {
        0int
    }) + (if off + 2 < bits.len() && bits[off + 2] {
        4int
    } else {
        0int
    }) + (if off + 3 < bits.len() && bits[off + 3] {
        8int
    } else {
        0int
    }) + (if off + 4 < bits.len() && bits[off + 4] {
        16int
    } else {
        0int
    }) + (if off + 5 < bits.len() && bits[off + 5] {
        32int
    } else {
        0int
    }) + (if off + 6 < bits.len() && bits[off + 6] {
        64int
    } else {
        0int
    }) + (if off + 7 < bits.len() && bits[off + 7] {
        128int
    } else {
        0int
    })) as u8
}

/// The canonical byte packing of a bit sequence: `ceil(len / 8)` bytes,
/// padding bits zero.
pub open spec fn pack_bits(bits: Seq<bool>) -> Seq<u8> {
    Seq::new((bits.len() + 7) / 8, |i: int| pack_byte(bits, 8 * i))
}

/// The `bit_len` bits stored in a packed byte sequence.
pub open spec fn unpack_bits(bytes: Seq<u8>, bit_len: nat) -> Seq<bool> {
    Seq::new(bit_len, |i: int| byte_bit(bytes[i / 8], (i % 8) as nat))
}

/// A run of zero bytes.
pub open spec fn spec_zero_bytes(n: nat) -> Seq<u8> {
    Seq::new(n, |i: int| 0u8)
}

/// The payload of a filter: for a Bloom filter the four seed words (the two
/// hash seeds, then two reserved words written as zero) followed by the
/// packed bit array; for the slotted variant the packed bit array alone.
pub open spec fn spec_payload(f: FilterModel) -> Seq<u8> {
    match f {
        FilterModel::Bloom { bits, seed0, seed1, .. } => spec_u64_to_le_bytes(seed0)
            + spec_u64_to_le_bytes(seed1) + spec_u64_to_le_bytes(0u64) + spec_u64_to_le_bytes(0u64)
            + pack_bits(bits),
        FilterModel::Xxh { bits, .. } => pack_bits(bits),
    }
}

/// The complete file image of a container state.
pub open spec fn spec_encode(m: ContainerModel) -> Seq<u8> {
    spec_magic() + seq![spec_kind_byte(m.construction_type)] + spec_u64_to_le_bytes(
        m.size_bytes as u64,
    ) + spec_u64_to_le_bytes(m.capacity as u64) + spec_u64_to_le_bytes(m.error_rate_bits)
        + spec_u64_to_le_bytes(m.num_writes as u64) + spec_u64_to_le_bytes(m.max_writes as u64)
        + spec_zero_bytes(83) + spec_payload(m.filter)
}

/// What decoding a file image yields: the container state it describes, or
/// the first error in decoding order (magic, length, kind, parameter
/// validity, payload length). Bytes past the payload are ignored. The
/// decoded container carries the given path, is file-backed, and is not
/// acquired.
pub open spec fn spec_decode(bytes: Seq<u8>, path: Seq<char>) -> Result<
    ContainerModel,
    CodecError,
> {
    if bytes.len() < 4 {
        Err(CodecError::TruncatedPayload)
    } else if bytes.subrange(0, 4) != spec_magic() {
        Err(CodecError::MagicMismatch)
    } else if bytes.len() < 128 {
        Err(CodecError::TruncatedPayload)
    } else if spec_kind_of_byte(bytes[4]) is None {
        Err(CodecError::UnknownKind)
    } else {
        let kind = spec_kind_of_byte(bytes[4])->Some_0;
        let size = spec_u64_from_le_bytes(bytes.subrange(5, 13));
        let capacity = spec_u64_from_le_bytes(bytes.subrange(13, 21));
        let rate_bits = spec_u64_from_le_bytes(bytes.subrange(21, 29));
        let num_writes = spec_u64_from_le_bytes(bytes.subrange(29, 37));
        let max_writes = spec_u64_from_le_bytes(bytes.subrange(37, 45));
        let cd = ConstructionDetails {
            construction_type: kind,
            capacity,
            error_rate_bits: rate_bits,
            size_bytes: size,
        };
        if !Container::spec_details_valid(cd) || max_writes < 1 {
            Err(CodecError::ConfigInvalid)
        } else if kind == ConstructionType::XxhByCapacityAndSize {
            if bytes.len() < 128 + size {
                Err(CodecError::TruncatedPayload)
            } else {
                Ok(
                    spec_decoded_model(
                        path,
                        cd,
                        num_writes,
                        max_writes,
                        FilterModel::Xxh {
                            bits: unpack_bits(
                                bytes.subrange(128, 128 + size),
                                (8 * size) as nat,
                            ),
                            shape: XxhFilter::spec_default_shape(size),
                        },
                    ),
                )
            }
        } else {
            if bytes.len() < 160 + size {
                Err(CodecError::TruncatedPayload)
            } else {
                Ok(
                    spec_decoded_model(
                        path,
                        cd,
                        num_writes,
                        max_writes,
                        FilterModel::Bloom {
                            bits: unpack_bits(
                                bytes.subrange(160, 160 + size),
                                (8 * size) as nat,
                            ),
                            num_hashes: bloom::spec_hash_count(
                                (8 * size) as nat,
                                capacity as nat,
                            ),
                            seed0: spec_u64_from_le_bytes(bytes.subrange(128, 136)),
                            seed1: spec_u64_from_le_bytes(bytes.subrange(136, 144)),
                        },
                    ),
                )
            }
        }
    }
}

/// The container state a decoded file describes.
pub open spec fn spec_decoded_model(
    path: Seq<char>,
    cd: ConstructionDetails,
    num_writes: u64,
    max_writes: u64,
    f: FilterModel,
) -> ContainerModel {
    ContainerModel {
        path,
        source: DataSource::File,
        construction_type: cd.construction_type,
        capacity: cd.capacity as nat,
        size_bytes: cd.size_bytes as nat,
        error_rate_bits: cd.error_rate_bits,
        num_writes: num_writes as nat,
        max_writes: max_writes as nat,
        acquired: false,
        filter: f,
    }
}

/// Each bit of a packed byte is the corresponding bit of the sequence, with
/// zero past the end.
proof fn lemma_pack_byte_bits(bits: Seq<bool>, off: int)
    requires
        0 <= off,
    ensures
        forall|k: int|
            0 <= k < 8 ==> (#[trigger] byte_bit(pack_byte(bits, off), k as nat) == (off + k
                < bits.len() && bits[off + k])),
{
    let d0: u8 = if off < bits.len() && bits[off] {
        1
    } else {
        0
    };
    let d1: u8 = if off + 1 < bits.len() && bits[off + 1] {
        2
    } else {
        0
    };
    let d2: u8 = if off + 2 < bits.len() && bits[off + 2] {
        4
    } else {
        0
    };
    let d3: u8 = if off + 3 < bits.len() && bits[off + 3] {
        8
    } else {
        0
    };
    let d4: u8 = if off + 4 < bits.len() && bits[off + 4] {
        16
    } else {
        0
    };
    let d5: u8 = if off + 5 < bits.len() && bits[off + 5] {
        32
    } else {
        0
    };
    let d6: u8 = if off + 6 < bits.len() && bits[off + 6] {
        64
    } else {
        0
    };
    let d7: u8 = if off + 7 < bits.len() && bits[off + 7] {
        128
    } else {
        0
    };
    let b = pack_byte(bits, off);
    assert(b == d0 + d1 + d2 + d3 + d4 + d5 + d6 + d7);
    assert((((b >> 0u8) & 1u8 == 1u8) == (d0 == 1u8)) && (((b >> 1u8) & 1u8 == 1u8) == (d1 == 2u8))
        && (((b >> 2u8) & 1u8 == 1u8) == (d2 == 4u8)) && (((b >> 3u8) & 1u8 == 1u8) == (d3 == 8u8))
        && (((b >> 4u8) & 1u8 == 1u8) == (d4 == 16u8)) && (((b >> 5u8) & 1u8 == 1u8) == (d5
        == 32u8)) && (((b >> 6u8) & 1u8 == 1u8) == (d6 == 64u8)) && (((b >> 7u8) & 1u8 == 1u8) == (
    d7 == 128u8))) by (bit_vector)
        requires
            (d0 == 0u8 || d0 == 1u8) && (d1 == 0u8 || d1 == 2u8) && (d2 == 0u8 || d2 == 4u8) && (d3
                == 0u8 || d3 == 8u8) && (d4 == 0u8 || d4 == 16u8) && (d5 == 0u8 || d5 == 32u8) && (
            d6 == 0u8 || d6 == 64u8) && (d7 == 0u8 || d7 == 128u8),
            b == d0 + d1 + d2 + d3 + d4 + d5 + d6 + d7,
    ;
    assert forall|k: int| 0 <= k < 8 implies (#[trigger] byte_bit(pack_byte(bits, off), k as nat)
        == (off + k < bits.len() && bits[off + k])) by {
        if k == 0 {
            assert(byte_bit(b, 0nat) == ((b >> 0u8) & 1u8 == 1u8));
        } else if k == 1 {
            assert(byte_bit(b, 1nat) == ((b >> 1u8) & 1u8 == 1u8));
        } else if k == 2 {
            assert(byte_bit(b, 2nat) == ((b >> 2u8) & 1u8 == 1u8));
        } else if k == 3 {
            assert(byte_bit(b, 3nat) == ((b >> 3u8) & 1u8 == 1u8));
        } else if k == 4 {
            assert(byte_bit(b, 4nat) == ((b >> 4u8) & 1u8 == 1u8));
        } else if k == 5 {
            assert(byte_bit(b, 5nat) == ((b >> 5u8) & 1u8 == 1u8));
        } else if k == 6 {
            assert(byte_bit(b, 6nat) == ((b >> 6u8) & 1u8 == 1u8));
        } else {
            assert(byte_bit(b, 7nat) == ((b >> 7u8) & 1u8 == 1u8));
        }
    }
}

/// Two bytes that agree on all eight bits are equal.
proof fn lemma_u8_bit_ext(a: u8, b: u8)
    requires
        forall|k: nat| k < 8 ==> #[trigger] byte_bit(a, k) == byte_bit(b, k),
    ensures
        a == b,
{
    assert(byte_bit(a, 0nat) == byte_bit(b, 0nat));
    assert(byte_bit(a, 1nat) == byte_bit(b, 1nat));
    assert(byte_bit(a, 2nat) == byte_bit(b, 2nat));
    assert(byte_bit(a, 3nat) == byte_bit(b, 3nat));
    assert(byte_bit(a, 4nat) == byte_bit(b, 4nat));
    assert(byte_bit(a, 5nat) == byte_bit(b, 5nat));
    assert(byte_bit(a, 6nat) == byte_bit(b, 6nat));
    assert(byte_bit(a, 7nat) == byte_bit(b, 7nat));
    assert(a == b) by (bit_vector)
        requires
            (((a >> 0u8) & 1u8 == 1u8) <==> ((b >> 0u8) & 1u8 == 1u8)) && (((a >> 1u8) & 1u8 == 1u8)
                <==> ((b >> 1u8) & 1u8 == 1u8)) && (((a >> 2u8) & 1u8 == 1u8) <==> ((b >> 2u8) & 1u8
                == 1u8)) && (((a >> 3u8) & 1u8 == 1u8) <==> ((b >> 3u8) & 1u8 == 1u8)) && (((a
                >> 4u8) & 1u8 == 1u8) <==> ((b >> 4u8) & 1u8 == 1u8)) && (((a >> 5u8) & 1u8 == 1u8)
                <==> ((b >> 5u8) & 1u8 == 1u8)) && (((a >> 6u8) & 1u8 == 1u8) <==> ((b >> 6u8) & 1u8
                == 1u8)) && (((a >> 7u8) & 1u8 == 1u8) <==> ((b >> 7u8) & 1u8 == 1u8)),
    ;
}

/// A byte buffer whose bits spell out a bit sequence (with zero padding) is
/// exactly the canonical packing of that sequence.
proof fn lemma_bytes_are_pack_bits(bytes: Seq<u8>, bits: Seq<bool>)
    requires
        bytes.len() == (bits.len() + 7) / 8,
        forall|i: int|
            0 <= i < bits.len() ==> byte_bit(#[trigger] bytes[i / 8], (i % 8) as nat) == bits[i],
        forall|j: int|
            bits.len() <= j < 8 * bytes.len() ==> !byte_bit(#[trigger] bytes[j / 8], (j % 8) as nat),
    ensures
        bytes =~= pack_bits(bits),
{
    assert forall|i: int| 0 <= i < bytes.len() implies bytes[i] == #[trigger] pack_bits(bits)[i] by {
        lemma_pack_byte_bits(bits, 8 * i);
        assert forall|k: nat| k < 8 implies #[trigger] byte_bit(bytes[i], k) == byte_bit(
            pack_byte(bits, 8 * i),
            k,
        ) by {
            let j = 8 * i + k;
            assert(j / 8 == i && j % 8 == k);
            if j < bits.len() {
                assert(byte_bit(bytes[j / 8], (j % 8) as nat) == bits[j]);
            } else {
                assert(!byte_bit(bytes[j / 8], (j % 8) as nat));
            }
        }
        lemma_u8_bit_ext(bytes[i], pack_byte(bits, 8 * i));
    }
}

/// Unpacking the canonical packing of a bit sequence restores it.
proof fn lemma_unpack_pack(bits: Seq<bool>)
    ensures
        unpack_bits(pack_bits(bits), bits.len()) =~= bits,
{
    assert forall|i: int| 0 <= i < bits.len() implies #[trigger] unpack_bits(
        pack_bits(bits),
        bits.len(),
    )[i] == bits[i] by {
        lemma_pack_byte_bits(bits, 8 * (i / 8));
        let k = i % 8;
        assert(8 * (i / 8) + k == i);
        assert(byte_bit(pack_byte(bits, 8 * (i / 8)), k as nat) == bits[i]);
    }
}


/// Serializes a container into its file image.
pub fn encode(c: &Container) -> (out: Vec<u8>)
    requires
        c.wf(),
    ensures
        out@ =~= spec_encode(c.model()),
{
    proof {
        lemma_auto_spec_u64_to_from_le_bytes();
        c.lemma_model_fields();
        c.lemma_wf_parts();
    }
    let mut out: Vec<u8> = Vec::new();
    out.push(0xB1);
    out.push(0x00);
    out.push(0x88);
    out.push(0x11);
    let kind_byte: u8 = match c.details.construction_details.construction_type {
        ConstructionType::BloomByCapacityAndSize => 0,
        ConstructionType::BloomByCapacityAndErrorRate => 1,
        ConstructionType::XxhByCapacityAndSize => 2,
    };
    out.push(kind_byte);
    let mut field = u64_to_le_bytes(c.details.construction_details.size_bytes);
    out.append(&mut field);
    let mut field = u64_to_le_bytes(c.details.construction_details.capacity);
    out.append(&mut field);
    let mut field = u64_to_le_bytes(c.details.construction_details.error_rate_bits);
    out.append(&mut field);
    let mut field = u64_to_le_bytes(c.num_writes);
    out.append(&mut field);
    let mut field = u64_to_le_bytes(c.max_writes);
    out.append(&mut field);
    let mut reserved: Vec<u8> = vec![0u8; 83];
    out.append(&mut reserved);
    proof {
        assert(out@ =~= spec_magic() + seq![spec_kind_byte(c.model().construction_type)]
            + spec_u64_to_le_bytes(c.model().size_bytes as u64) + spec_u64_to_le_bytes(
            c.model().capacity as u64,
        ) + spec_u64_to_le_bytes(c.model().error_rate_bits) + spec_u64_to_le_bytes(
            c.model().num_writes as u64,
        ) + spec_u64_to_le_bytes(c.model().max_writes as u64) + spec_zero_bytes(83));
    }
    match &c.filter {
        Filter::Bloom(b) => {
            let (s0, s1) = b.seeds();
            let mut field = u64_to_le_bytes(s0);
            out.append(&mut field);
            let mut field = u64_to_le_bytes(s1);
            out.append(&mut field);
            let mut field = u64_to_le_bytes(0);
            out.append(&mut field);
            let mut field = u64_to_le_bytes(0);
            out.append(&mut field);
            let mut body = b.to_bytes();
            proof {
                b.lemma_view_len();
                lemma_bytes_are_pack_bits(body@, b@);
            }
            out.append(&mut body);
        },
        Filter::Xxh(f) => {
            let mut body = f.to_bytes();
            proof {
                f.lemma_view_len();
                lemma_bytes_are_pack_bits(body@, f@);
            }
            out.append(&mut body);
        },
    }
    proof {
        assert(out@ =~= spec_encode(c.model()));
    }
    out
}

/// Parses a container file image, reconstructing the persisted container at
/// the given path. The magic is verified before any other field; the
/// reserved header region is skipped without interpretation; bytes past the
/// payload are ignored.
pub fn decode(bytes: &[u8], path: String) -> (r: Result<Container, CodecError>)
    ensures
        r is Ok <==> spec_decode(bytes@, path@) is Ok,
        r is Err ==> r->Err_0 == spec_decode(bytes@, path@)->Err_0,
        r is Ok ==> r->Ok_0.wf() && r->Ok_0.model() =~~= spec_decode(bytes@, path@)->Ok_0,
{
    proof {
        lemma_auto_spec_u64_to_from_le_bytes();
    }
    if bytes.len() < 4 {
        return Err(CodecError::TruncatedPayload);
    }
    if !(*vstd::slice::slice_index_get(bytes, 0) == 0xB1 && *vstd::slice::slice_index_get(bytes, 1)
        == 0x00 && *vstd::slice::slice_index_get(bytes, 2) == 0x88 && *vstd::slice::slice_index_get(
        bytes,
        3,
    ) == 0x11) {
        proof {
            assert(bytes@.subrange(0, 4) != spec_magic()) by {
                if bytes@.subrange(0, 4) == spec_magic() {
                    assert(bytes@.subrange(0, 4)[0] == 0xB1);
                    assert(bytes@.subrange(0, 4)[1] == 0x00);
                    assert(bytes@.subrange(0, 4)[2] == 0x88);
                    assert(bytes@.subrange(0, 4)[3] == 0x11);
                }
            }
        }
        return Err(CodecError::MagicMismatch);
    }
    proof {
        assert(bytes@.subrange(0, 4) =~= spec_magic());
    }
    if bytes.len() < 128 {
        return Err(CodecError::TruncatedPayload);
    }
    let kind_byte = *vstd::slice::slice_index_get(bytes, 4);
    let kind = if kind_byte == 0 {
        ConstructionType::BloomByCapacityAndSize
    } else if kind_byte == 1 {
        ConstructionType::BloomByCapacityAndErrorRate
    } else if kind_byte == 2 {
        ConstructionType::XxhByCapacityAndSize
    } else {
        return Err(CodecError::UnknownKind);
    };
    let size = u64_from_le_bytes(vstd::slice::slice_subrange(bytes, 5, 13));
    let capacity = u64_from_le_bytes(vstd::slice::slice_subrange(bytes, 13, 21));
    let rate_bits = u64_from_le_bytes(vstd::slice::slice_subrange(bytes, 21, 29));
    let num_writes = u64_from_le_bytes(vstd::slice::slice_subrange(bytes, 29, 37));
    let max_writes = u64_from_le_bytes(vstd::slice::slice_subrange(bytes, 37, 45));
    let cd = ConstructionDetails {
        construction_type: kind,
        capacity,
        error_rate_bits: rate_bits,
        size_bytes: size,
    };
    if capacity < 1 || size < 1 {
        return Err(CodecError::ConfigInvalid);
    }
    if size > (usize::MAX as u64) / 8 {
        proof {
            assert(8 * size > usize::MAX) by (nonlinear_arith)
                requires
                    size > (usize::MAX as u64) / 8,
            ;
        }
        return Err(CodecError::ConfigInvalid);
    }
    proof {
        assert(8 * size <= usize::MAX) by (nonlinear_arith)
            requires
                size <= (usize::MAX as u64) / 8,
        ;
    }
    if matches!(kind, ConstructionType::XxhByCapacityAndSize) && 8 * size < 21 {
        return Err(CodecError::ConfigInvalid);
    }
    if matches!(kind, ConstructionType::BloomByCapacityAndErrorRate) && (rate_bits < 1 || rate_bits
        > crate::container::MAX_RATE_BITS) {
        return Err(CodecError::ConfigInvalid);
    }
    if max_writes < 1 {
        return Err(CodecError::ConfigInvalid);
    }
    let details = ContainerDetails { path, data_source: DataSource::File, construction_details: cd };
    match kind {
        ConstructionType::XxhByCapacityAndSize => {
            if (bytes.len() as u128) < 128u128 + (size as u128) {
                return Err(CodecError::TruncatedPayload);
            }
            let payload = vstd::slice::slice_subrange(bytes, 128, 128 + (size as usize));
            let f = match XxhFilter::from_parts(payload, size) {
                Ok(f) => f,
                Err(_) => {
                    proof {
                        assert(false);
                    }
                    return Err(CodecError::TruncatedPayload);
                },
            };
            proof {
                f.lemma_wf_shape();
            }
            let c = Container {
                details,
                num_writes,
                max_writes,
                is_acquired: false,
                filter: Filter::Xxh(f),
            };
            proof {
                c.lemma_model_fields();
                let sm = spec_decode(bytes@, path@)->Ok_0;
                assert(c.model().filter->Xxh_bits =~= sm.filter->Xxh_bits);
                assert(c.model() =~~= sm);
                assert(model_wf(c.model()));
                c.lemma_wf_intro();
            }
            Ok(c)
        },
        _ => {
            if (bytes.len() as u128) < 160u128 + (size as u128) {
                return Err(CodecError::TruncatedPayload);
            }
            let seed0 = u64_from_le_bytes(vstd::slice::slice_subrange(bytes, 128, 136));
            let seed1 = u64_from_le_bytes(vstd::slice::slice_subrange(bytes, 136, 144));
            let payload = vstd::slice::slice_subrange(bytes, 160, 160 + (size as usize));
            let f = match BloomFilter::from_parts(payload, size, capacity, seed0, seed1) {
                Ok(f) => f,
                Err(_) => {
                    proof {
                        assert(false);
                    }
                    return Err(CodecError::TruncatedPayload);
                },
            };
            let c = Container {
                details,
                num_writes,
                max_writes,
                is_acquired: false,
                filter: Filter::Bloom(f),
            };
            proof {
                f.lemma_view_len();
                c.lemma_model_fields();
                let sm = spec_decode(bytes@, path@)->Ok_0;
                assert(c.model().filter->Bloom_bits =~= sm.filter->Bloom_bits);
                assert(c.model() =~~= sm);
                assert(model_wf(c.model()));
                c.lemma_wf_intro();
            }
            Ok(c)
        },
    }
}

/// Decoding the encoding of any well-formed container state restores it
/// exactly, up to the identity a reader supplies: the path it was read from
/// and its file-backed, not-acquired status. In particular the bit array,
/// the hash seeds, and the write counters survive the round trip, so a
/// reloaded filter answers every query as the saved one did.
pub proof fn lemma_codec_round_trip(m: ContainerModel, path: Seq<char>)
    requires
        model_wf(m),
    ensures
        spec_decode(spec_encode(m), path) == Ok::<ContainerModel, CodecError>(
            ContainerModel { path, source: DataSource::File, acquired: false, ..m },
        ),
{
    lemma_auto_spec_u64_to_from_le_bytes();
    let e = spec_encode(m);
    let header_len: int = 128;
    assert(spec_u64_to_le_bytes(m.size_bytes as u64).len() == 8);
    let pb = spec_payload(m.filter);
    assert(e.len() == 128 + pb.len());
    assert(e.subrange(0, 4) =~= spec_magic());
    assert(e[4] == spec_kind_byte(m.construction_type));
    assert(e.subrange(5, 13) =~= spec_u64_to_le_bytes(m.size_bytes as u64));
    assert(e.subrange(13, 21) =~= spec_u64_to_le_bytes(m.capacity as u64));
    assert(e.subrange(21, 29) =~= spec_u64_to_le_bytes(m.error_rate_bits));
    assert(e.subrange(29, 37) =~= spec_u64_to_le_bytes(m.num_writes as u64));
    assert(e.subrange(37, 45) =~= spec_u64_to_le_bytes(m.max_writes as u64));
    assert(spec_kind_of_byte(spec_kind_byte(m.construction_type)) == Some(m.construction_type));
    let size = m.size_bytes as u64;
    let cd = ConstructionDetails {
        construction_type: m.construction_type,
        capacity: m.capacity as u64,
        error_rate_bits: m.error_rate_bits,
        size_bytes: size,
    };
    assert(Container::spec_details_valid(cd)) by {
        match m.filter {
            FilterModel::Xxh { bits, shape } => {
                assert(shape.num_slots >= 1);
                assert(8 * m.size_bytes >= 21) by (nonlinear_arith)
                    requires
                        ((8 * m.size_bytes) as nat) / 21 >= 1,
                ;
            },
            FilterModel::Bloom { .. } => {},
        }
    }
    match m.filter {
        FilterModel::Xxh { bits, shape } => {
            assert(pb.len() == (bits.len() + 7) / 8);
            assert(pb.len() == m.size_bytes);
            assert(e.len() >= 128 + size);
            assert(e.subrange(128, 128 + size as int) =~= pack_bits(bits));
            lemma_unpack_pack(bits);
            assert(unpack_bits(e.subrange(128, 128 + size as int), (8 * size) as nat) =~= bits);
            let d = spec_decode(e, path);
            assert(d is Ok);
            assert(d->Ok_0.filter =~~= m.filter);
            assert(d->Ok_0 =~~= (ContainerModel {
                path,
                source: DataSource::File,
                acquired: false,
                ..m
            }));
        },
        FilterModel::Bloom { bits, num_hashes, seed0, seed1 } => {
            assert(pb.len() == 32 + (bits.len() + 7) / 8);
            assert(pb.len() == 32 + m.size_bytes);
            assert(e.len() >= 160 + size);
            assert(e.subrange(128, 136) =~= spec_u64_to_le_bytes(seed0));
            assert(e.subrange(136, 144) =~= spec_u64_to_le_bytes(seed1));
            assert(e.subrange(160, 160 + size as int) =~= pack_bits(bits));
            lemma_unpack_pack(bits);
            assert(unpack_bits(e.subrange(160, 160 + size as int), (8 * size) as nat) =~= bits);
            let d = spec_decode(e, path);
            assert(d is Ok);
            assert(d->Ok_0.filter =~~= m.filter);
            assert(d->Ok_0 =~~= (ContainerModel {
                path,
                source: DataSource::File,
                acquired: false,
                ..m
            }));
        },
    }
}

} // verus!
