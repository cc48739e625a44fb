use bloom_filter::config::{check_spec_count, default_construction, validate_construction};
use bloom_filter::container::{
    ConfigError, Container, ConstructionDetails, ConstructionType, ContainerDetails, DataSource,
};
use bloom_filter::pipeline::{process_line, Params};

fn xxh_container(path: &str, capacity: u64, size_bytes: u64) -> Container {
    Container::from_details(ContainerDetails {
        path: String::from(path),
        data_source: DataSource::Memory,
        construction_details: ConstructionDetails {
            construction_type: ConstructionType::XxhByCapacityAndSize,
            capacity,
            error_rate_bits: 0,
            size_bytes,
        },
    })
    .unwrap()
}

fn bloom_rate_container(path: &str, capacity: u64, error_rate: f64) -> Container {
    let ln2 = 2f64.ln();
    let m = (-(capacity as f64) * error_rate.ln() / (ln2 * ln2)).ceil();
    let mut size_bytes = (m / 8.0).ceil() as u64;
    if size_bytes == 0 {
        size_bytes = 1;
    }
    Container::from_details(ContainerDetails {
        path: String::from(path),
        data_source: DataSource::Memory,
        construction_details: ConstructionDetails {
            construction_type: ConstructionType::BloomByCapacityAndErrorRate,
            capacity,
            error_rate_bits: error_rate.to_bits(),
            size_bytes,
        },
    })
    .unwrap()
}

/// Runs the pipeline over whole byte lines, returning the emitted ones.
fn run_lines(params: &mut Params, cursor: &mut usize, lines: &[&[u8]]) -> Vec<Vec<u8>> {
    let mut out = Vec::new();
    for line in lines {
        let last = *cursor;
        if process_line(params, cursor, line) {
            out.push(line.to_vec());
        }
        assert!(*cursor >= last, "the writable cursor never moves backwards");
    }
    out
}

#[test]
fn test_basic_deduplication() {
    let mut params = Params {
        write_mode: true,
        inverse: false,
        silent: false,
        containers: vec![xxh_container("dedup", 100, 1 << 20)],
    };
    let mut cursor = 0usize;
    let mut emitted: Vec<String> = Vec::new();
    for pass in 0..2 {
        let _ = pass;
        for i in 1..=10u32 {
            let line = i.to_string();
            if process_line(&mut params, &mut cursor, line.as_bytes()) {
                emitted.push(line);
            }
        }
    }
    assert_eq!(emitted.len(), 10, "Expected 10 unique lines");
    for i in 1..=10u32 {
        assert_eq!(
            emitted.iter().filter(|line| **line == i.to_string()).count(),
            1,
            "Number {} should appear exactly once",
            i
        );
    }
}

#[test]
fn test_deduplication_with_invalid_utf8() {
    let mut params = Params {
        write_mode: true,
        inverse: false,
        silent: false,
        containers: vec![xxh_container("utf8", 100, 1 << 20)],
    };
    let mut cursor = 0usize;
    let invalid: &[u8] = b"invalid \xFF\xFE line";
    let lines: [&[u8]; 4] = [b"valid line", invalid, b"valid line", invalid];
    let emitted = run_lines(&mut params, &mut cursor, &lines);
    assert_eq!(emitted.len(), 2, "Expected 2 unique lines, got {}", emitted.len());
    assert!(
        emitted.iter().any(|line| line.as_slice() == b"valid line"),
        "Should contain 'valid line'"
    );
    assert!(emitted.iter().any(|line| line.as_slice() == invalid));
}

#[test]
fn basic_dedup_scenario() {
    let mut params = Params {
        write_mode: true,
        inverse: false,
        silent: false,
        containers: vec![xxh_container("basic", 10, 1 << 20)],
    };
    let mut cursor = 0usize;
    let lines: [&[u8]; 6] = [b"1", b"2", b"3", b"1", b"2", b"3"];
    let emitted = run_lines(&mut params, &mut cursor, &lines);
    assert_eq!(emitted, vec![b"1".to_vec(), b"2".to_vec(), b"3".to_vec()]);
}

#[test]
fn inverse_mode_scenario() {
    let mut params = Params {
        write_mode: true,
        inverse: true,
        silent: false,
        containers: vec![xxh_container("inverse", 10, 1 << 20)],
    };
    let mut cursor = 0usize;
    let lines: [&[u8]; 6] = [b"1", b"2", b"3", b"1", b"2", b"3"];
    let emitted = run_lines(&mut params, &mut cursor, &lines);
    // The first occurrences are suppressed; the second ones come through.
    assert_eq!(emitted, vec![b"1".to_vec(), b"2".to_vec(), b"3".to_vec()]);
}

#[test]
fn silent_mode_scenario() {
    for inverse in [false, true] {
        let mut params = Params {
            write_mode: true,
            inverse,
            silent: true,
            containers: vec![xxh_container("silent", 10, 1 << 20)],
        };
        let mut cursor = 0usize;
        let lines: [&[u8]; 6] = [b"1", b"2", b"3", b"1", b"2", b"3"];
        let emitted = run_lines(&mut params, &mut cursor, &lines);
        assert_eq!(emitted.len(), 0, "silent mode writes nothing");
    }
}

#[test]
fn rollover_scenario() {
    let mut params = Params {
        write_mode: true,
        inverse: false,
        silent: false,
        containers: vec![
            bloom_rate_container("shard-0", 2, 0.01),
            bloom_rate_container("shard-1", 2, 0.01),
        ],
    };
    let mut cursor = 0usize;
    let lines: [&[u8]; 5] = [b"a", b"b", b"c", b"d", b"e"];
    let emitted = run_lines(&mut params, &mut cursor, &lines);
    assert_eq!(emitted.len(), 5, "all five distinct lines are emitted");
    // The first two lines fill the first container, the next two the second.
    assert!(params.containers[0].is_full());
    assert!(params.containers[1].is_full());
    // "e" found both containers full and pushed the cursor past the end.
    assert_eq!(cursor, 2);

    // A second read-only pass finds the four stored lines and emits nothing
    // for them; no false negatives are possible.
    let mut second = Params {
        write_mode: false,
        inverse: false,
        silent: false,
        containers: params.containers,
    };
    let mut cursor2 = 0usize;
    let stored: [&[u8]; 4] = [b"a", b"b", b"c", b"d"];
    let re_emitted = run_lines(&mut second, &mut cursor2, &stored);
    assert_eq!(re_emitted.len(), 0);
}

#[test]
fn cursor_is_monotone_across_rollover() {
    let mut params = Params {
        write_mode: true,
        inverse: false,
        silent: false,
        containers: vec![
            xxh_container("m0", 1, 1 << 12),
            xxh_container("m1", 1, 1 << 12),
            xxh_container("m2", 1, 1 << 12),
        ],
    };
    let mut cursor = 0usize;
    let mut last = 0usize;
    for line in [b"q1" as &[u8], b"q2", b"q3", b"q4", b"q5"] {
        process_line(&mut params, &mut cursor, line);
        assert!(cursor >= last);
        last = cursor;
    }
    assert_eq!(cursor, 3);
}

#[test]
fn read_mode_leaves_cursor_alone() {
    let mut params = Params {
        write_mode: false,
        inverse: false,
        silent: false,
        containers: vec![xxh_container("read", 1, 1 << 12)],
    };
    let mut cursor = 0usize;
    let emitted = run_lines(&mut params, &mut cursor, &[b"x", b"x", b"y"]);
    // Nothing is written in read mode, so nothing is ever found.
    assert_eq!(emitted.len(), 3);
    assert_eq!(cursor, 0);
    assert_eq!(params.containers[0].get_num_writes(), 0);
}

#[test]
fn empty_line_is_a_valid_key() {
    let mut params = Params {
        write_mode: true,
        inverse: false,
        silent: false,
        containers: vec![xxh_container("empty", 10, 1 << 12)],
    };
    let mut cursor = 0usize;
    let emitted = run_lines(&mut params, &mut cursor, &[b"", b"", b"x"]);
    assert_eq!(emitted, vec![b"".to_vec(), b"x".to_vec()]);
}

#[test]
fn spec_count_rules() {
    assert!(check_spec_count(0, 0).is_ok());
    assert!(check_spec_count(0, 5).is_ok());
    assert!(check_spec_count(3, 0).is_ok());
    assert!(check_spec_count(3, 1).is_ok());
    assert!(check_spec_count(3, 3).is_ok());
    assert_eq!(check_spec_count(3, 2), Err(ConfigError::CountMismatch));
}

#[test]
fn default_construction_is_the_slotted_filter() {
    let cd = default_construction();
    assert_eq!(cd.construction_type, ConstructionType::XxhByCapacityAndSize);
    assert_eq!(cd.capacity, 200000000);
    assert_eq!(cd.size_bytes, 2000000000);
    assert!(validate_construction(cd).is_ok());
}

#[test]
fn validate_construction_flags_bad_rates() {
    let cd = ConstructionDetails {
        construction_type: ConstructionType::BloomByCapacityAndErrorRate,
        capacity: 5,
        error_rate_bits: 0f64.to_bits(),
        size_bytes: 64,
    };
    assert_eq!(validate_construction(cd), Err(ConfigError::InvalidErrorRate));
    let cd2 = ConstructionDetails {
        error_rate_bits: 0.5f64.to_bits(),
        ..cd
    };
    assert!(validate_construction(cd2).is_ok());
}

#[test]
fn scan_stops_at_the_writable_cursor() {
    // The second container already holds the line, but the scan of a write
    // pass ends at the writable cursor: the line counts as unseen, is
    // inserted into the first container, and is emitted.
    let mut behind = xxh_container("behind", 10, 1 << 12);
    behind.set(b"x");
    assert!(behind.check(b"x"));
    let mut params = Params {
        write_mode: true,
        inverse: false,
        silent: false,
        containers: vec![xxh_container("front", 10, 1 << 12), behind],
    };
    let mut cursor = 0usize;
    assert!(process_line(&mut params, &mut cursor, b"x"));
    assert_eq!(params.containers[0].get_num_writes(), 1);
    // Now the cursor container holds the line too, so it is suppressed.
    assert!(!process_line(&mut params, &mut cursor, b"x"));
    // A read-only pass checks every container.
    let mut read_params = Params {
        write_mode: false,
        inverse: false,
        silent: false,
        containers: params.containers,
    };
    let mut read_cursor = 0usize;
    assert!(!process_line(&mut read_params, &mut read_cursor, b"x"));
}
