use bloom_filter::bits::{BitArray, BitsError};
use bloom_filter::codec::{decode, encode, CodecError};
use bloom_filter::container::{
    ConfigError, Container, ConstructionDetails, ConstructionType, ContainerDetails, DataSource,
};
use bloom_filter::reader_writer::ReaderWriter;

fn bloom_by_size(path: &str, capacity: u64, size_bytes: u64) -> Container {
    Container::from_details(ContainerDetails {
        path: String::from(path),
        data_source: DataSource::Memory,
        construction_details: ConstructionDetails {
            construction_type: ConstructionType::BloomByCapacityAndSize,
            capacity,
            error_rate_bits: 0,
            size_bytes,
        },
    })
    .unwrap()
}

fn xxh_by_size(path: &str, capacity: u64, size_bytes: u64) -> Container {
    Container::from_details(ContainerDetails {
        path: String::from(path),
        data_source: DataSource::Memory,
        construction_details: ConstructionDetails {
            construction_type: ConstructionType::XxhByCapacityAndSize,
            capacity,
            error_rate_bits: 0,
            size_bytes,
        },
    })
    .unwrap()
}

/// Byte size derived from a capacity and a target false-positive rate by
/// the standard Bloom formula, rounded up to whole bytes.
fn bloom_size_for(capacity: u64, error_rate: f64) -> u64 {
    let ln2 = 2f64.ln();
    let m = (-(capacity as f64) * error_rate.ln() / (ln2 * ln2)).ceil();
    let bytes = (m / 8.0).ceil() as u64;
    if bytes == 0 {
        1
    } else {
        bytes
    }
}

fn bloom_by_rate(path: &str, capacity: u64, error_rate: f64) -> Container {
    Container::from_details(ContainerDetails {
        path: String::from(path),
        data_source: DataSource::File,
        construction_details: ConstructionDetails {
            construction_type: ConstructionType::BloomByCapacityAndErrorRate,
            capacity,
            error_rate_bits: error_rate.to_bits(),
            size_bytes: bloom_size_for(capacity, error_rate),
        },
    })
    .unwrap()
}

#[test]
fn test_check_and_set() {
    let mut container = bloom_by_size("mock", 100, 1024);

    let test_value = String::from("test");

    // First check should return false and set the value
    assert!(!container.check_and_set(test_value.as_bytes()));

    // Second check should return true as value exists
    assert!(container.check_and_set(test_value.as_bytes()));
}

#[test]
fn it_works() {
    let result = 2 + 2;
    assert_eq!(result, 4);
}

#[test]
fn bit_array_get_set_round_trip() {
    let mut bits = BitArray::new(19);
    assert_eq!(bits.bit_len(), 19);
    for i in 0..19 {
        assert_eq!(bits.get(i), Ok(false));
    }
    bits.set(0, true);
    bits.set(9, true);
    bits.set(18, true);
    assert_eq!(bits.get(0), Ok(true));
    assert_eq!(bits.get(1), Ok(false));
    assert_eq!(bits.get(9), Ok(true));
    assert_eq!(bits.get(18), Ok(true));
    assert_eq!(bits.get(19), Err(BitsError::IndexOutOfRange));

    let bytes = bits.to_bytes();
    assert_eq!(bytes.len(), 3);
    assert_eq!(bytes[0], 0x01);
    assert_eq!(bytes[1], 0x02);
    assert_eq!(bytes[2], 0x04);

    let again = BitArray::from_bytes(&bytes, 19).unwrap();
    for i in 0..19 {
        assert_eq!(again.get(i), bits.get(i));
    }
}

#[test]
fn bit_array_from_bytes_rejects_bad_length() {
    let bytes = vec![0u8; 2];
    match BitArray::from_bytes(&bytes, 19) {
        Err(BitsError::BadLength) => {}
        _ => panic!("a two-byte buffer cannot hold nineteen bits"),
    }
}

#[test]
fn bloom_set_then_check() {
    let mut c = bloom_by_size("bloom-set", 100, 4096);
    c.set(b"a");
    assert!(c.check(b"a"));
    assert!(!c.check(b"b"));
    assert_eq!(c.get_num_writes(), 1);
}

#[test]
fn bloom_no_false_negatives_many() {
    let mut c = bloom_by_size("bloom-many", 1000, 65536);
    for i in 0..1000u32 {
        c.set(format!("value-{}", i).as_bytes());
    }
    for i in 0..1000u32 {
        assert!(c.check(format!("value-{}", i).as_bytes()));
    }
}

#[test]
fn xxh_set_then_check() {
    let mut c = xxh_by_size("xxh-set", 100, 1 << 20);
    c.set(b"a");
    assert!(c.check(b"a"));
    assert!(!c.check(b"b"));
    assert_eq!(c.get_num_writes(), 1);
}

#[test]
fn xxh_check_and_set_twice() {
    let mut c = xxh_by_size("xxh-twice", 10, 1 << 20);
    assert!(!c.check_and_set(b"alpha"));
    assert!(c.check_and_set(b"alpha"));
    assert_eq!(c.get_num_writes(), 1);
}

#[test]
fn xxh_set_counts_every_write() {
    let mut c = xxh_by_size("xxh-count", 10, 1 << 20);
    c.set(b"alpha");
    c.set(b"alpha");
    assert_eq!(c.get_num_writes(), 2);
}

#[test]
fn container_fills_at_capacity() {
    let mut c = bloom_by_size("fill", 2, 1024);
    assert!(!c.is_full());
    assert!(!c.check_and_set(b"one"));
    assert!(!c.is_full());
    assert!(!c.check_and_set(b"two"));
    assert!(c.is_full());
    assert_eq!(c.get_write_level(), 100);
}

#[test]
fn from_details_rejects_zero_capacity() {
    let r = Container::from_details(ContainerDetails {
        path: String::from("bad"),
        data_source: DataSource::Memory,
        construction_details: ConstructionDetails {
            construction_type: ConstructionType::BloomByCapacityAndSize,
            capacity: 0,
            error_rate_bits: 0,
            size_bytes: 16,
        },
    });
    assert!(matches!(r, Err(ConfigError::InvalidCapacity)));
}

#[test]
fn from_details_rejects_zero_size() {
    let r = Container::from_details(ContainerDetails {
        path: String::from("bad"),
        data_source: DataSource::Memory,
        construction_details: ConstructionDetails {
            construction_type: ConstructionType::BloomByCapacityAndSize,
            capacity: 1,
            error_rate_bits: 0,
            size_bytes: 0,
        },
    });
    assert!(matches!(r, Err(ConfigError::InvalidSize)));
}

#[test]
fn from_details_rejects_tiny_slotted_filter() {
    let r = Container::from_details(ContainerDetails {
        path: String::from("bad"),
        data_source: DataSource::Memory,
        construction_details: ConstructionDetails {
            construction_type: ConstructionType::XxhByCapacityAndSize,
            capacity: 1,
            error_rate_bits: 0,
            size_bytes: 2,
        },
    });
    assert!(matches!(r, Err(ConfigError::InvalidSize)));
}

#[test]
fn from_details_rejects_error_rate_of_one() {
    let r = Container::from_details(ContainerDetails {
        path: String::from("bad"),
        data_source: DataSource::File,
        construction_details: ConstructionDetails {
            construction_type: ConstructionType::BloomByCapacityAndErrorRate,
            capacity: 10,
            error_rate_bits: 1f64.to_bits(),
            size_bytes: 16,
        },
    });
    assert!(matches!(r, Err(ConfigError::InvalidErrorRate)));
}

#[test]
fn from_details_accepts_error_rate_in_range() {
    let c = bloom_by_rate("ok-rate", 10, 0.01);
    assert_eq!(c.get_num_max_writes(), 10);
    assert_eq!(c.get_num_writes(), 0);
}

#[test]
fn encode_has_fixed_header_layout() {
    let c = xxh_by_size("layout", 3, 21);
    let image = encode(&c);
    // 128-byte header, then the packed bit array of size_bytes bytes.
    assert_eq!(image.len(), 128 + 21);
    // Magic, big-endian.
    assert_eq!(&image[0..4], &[0xB1, 0x00, 0x88, 0x11]);
    // Kind discriminant.
    assert_eq!(image[4], 2);
    // size_bytes, little-endian.
    assert_eq!(&image[5..13], &21u64.to_le_bytes());
    // capacity.
    assert_eq!(&image[13..21], &3u64.to_le_bytes());
    // error-rate bits: zero for the slotted variant.
    assert_eq!(&image[21..29], &0u64.to_le_bytes());
    // writes observed, write limit.
    assert_eq!(&image[29..37], &0u64.to_le_bytes());
    assert_eq!(&image[37..45], &3u64.to_le_bytes());
    // Reserved region written as zero.
    assert!(image[45..128].iter().all(|b| *b == 0));
}

#[test]
fn bloom_file_round_trip_preserves_answers() {
    let mut c = bloom_by_rate("round-trip.blf", 1000, 0.001);
    let mut inserted: Vec<String> = Vec::new();
    for i in 0..500u32 {
        let s = format!("inserted-{}", i);
        c.set(s.as_bytes());
        inserted.push(s);
    }
    let image = encode(&c);
    let loaded = decode(&image, String::from("round-trip.blf")).unwrap();
    for s in &inserted {
        assert!(loaded.check(s.as_bytes()));
        assert_eq!(loaded.check(s.as_bytes()), c.check(s.as_bytes()));
    }
    let mut false_positives = 0;
    for i in 0..500u32 {
        let s = format!("absent-{}", i);
        assert_eq!(loaded.check(s.as_bytes()), c.check(s.as_bytes()));
        if loaded.check(s.as_bytes()) {
            false_positives += 1;
        }
    }
    assert!(false_positives < 5);
    assert_eq!(loaded.get_num_writes(), c.get_num_writes());
    assert_eq!(loaded.get_num_max_writes(), c.get_num_max_writes());
}

#[test]
fn xxh_file_round_trip_preserves_answers() {
    let mut c = xxh_by_size("xxh-round.blf", 100, 4096);
    for i in 0..50u32 {
        c.set(format!("item-{}", i).as_bytes());
    }
    let image = encode(&c);
    let loaded = decode(&image, String::from("xxh-round.blf")).unwrap();
    for i in 0..50u32 {
        let s = format!("item-{}", i);
        assert_eq!(loaded.check(s.as_bytes()), c.check(s.as_bytes()));
        assert!(loaded.check(s.as_bytes()));
    }
    for i in 0..50u32 {
        let s = format!("other-{}", i);
        assert_eq!(loaded.check(s.as_bytes()), c.check(s.as_bytes()));
    }
}

#[test]
fn decode_rejects_wrong_magic() {
    let c = xxh_by_size("magic", 3, 21);
    let mut image = encode(&c);
    image[0] = 0xB2;
    assert!(matches!(
        decode(&image, String::from("magic")),
        Err(CodecError::MagicMismatch)
    ));
}

#[test]
fn decode_rejects_unknown_kind() {
    let c = xxh_by_size("kind", 3, 21);
    let mut image = encode(&c);
    image[4] = 9;
    assert!(matches!(
        decode(&image, String::from("kind")),
        Err(CodecError::UnknownKind)
    ));
}

#[test]
fn decode_rejects_truncated_payload() {
    let c = xxh_by_size("short", 3, 21);
    let mut image = encode(&c);
    image.truncate(image.len() - 1);
    assert!(matches!(
        decode(&image, String::from("short")),
        Err(CodecError::TruncatedPayload)
    ));
    assert!(matches!(
        decode(&image[0..3], String::from("short")),
        Err(CodecError::TruncatedPayload)
    ));
}

#[test]
fn decode_rejects_invalid_stored_parameters() {
    let c = xxh_by_size("params", 3, 21);
    let mut image = encode(&c);
    // Zero out the stored capacity.
    for b in image[13..21].iter_mut() {
        *b = 0;
    }
    assert!(matches!(
        decode(&image, String::from("params")),
        Err(CodecError::ConfigInvalid)
    ));
}

#[test]
fn usage_reports_bit_fill_share() {
    let mut c = bloom_by_size("usage", 100, 1);
    // 8 bits in total; one write is 12 percent of them, rounded down.
    assert_eq!(c.get_usage(), 0);
    c.set(b"x");
    assert_eq!(c.get_usage(), 100 * 1 / 8);
}

#[test]
fn write_counters_can_be_overridden() {
    let mut c = bloom_by_size("counters", 5, 64);
    c.set_num_writes(7);
    c.set_num_max_writes(7);
    assert_eq!(c.get_num_writes(), 7);
    assert_eq!(c.get_num_max_writes(), 7);
    assert!(c.is_full());
    assert_eq!(c.get_write_level(), 100);
}

#[test]
fn reader_writer_interface_round_trip() {
    let mut c = bloom_by_size("rw", 100, 1024);
    ReaderWriter::acquire(&mut c);
    ReaderWriter::set(&mut c, &String::from("hello"));
    assert!(ReaderWriter::check(&c, &String::from("hello")));
    assert!(!ReaderWriter::check(&c, &String::from("other")));
    ReaderWriter::release(&mut c);
}

#[test]
fn from_details_rejects_absurd_size() {
    let r = Container::from_details(ContainerDetails {
        path: String::from("bad"),
        data_source: DataSource::Memory,
        construction_details: ConstructionDetails {
            construction_type: ConstructionType::BloomByCapacityAndSize,
            capacity: 1,
            error_rate_bits: 0,
            size_bytes: u64::MAX,
        },
    });
    assert!(matches!(r, Err(ConfigError::SizeTooLarge)));
}

#[test]
fn decode_skips_reserved_region_and_trailing_bytes() {
    let mut c = xxh_by_size("reserved", 5, 64);
    c.set(b"stored");
    let mut image = encode(&c);
    // The reserved header region must be skipped without interpretation.
    image[50] = 0xAB;
    image[127] = 0xCD;
    // Bytes past the payload are ignored.
    image.push(0xEE);
    let loaded = decode(&image, String::from("reserved")).unwrap();
    assert!(loaded.check(b"stored"));
    assert_eq!(loaded.get_num_writes(), c.get_num_writes());
}
