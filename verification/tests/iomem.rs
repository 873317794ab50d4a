use emd::iomem::{
    extract_mem_range, extract_system_ram_ranges, memory_size, parse_memory_range,
    ranges_well_formed, PhysRange, SEPARATOR_SYSTEM_RAM,
};

fn lines(raw: &[&str]) -> Vec<String> {
    raw.iter().map(|s| s.to_string()).collect()
}

#[test]
fn extracts_system_ram_ranges_and_total() {
    let input = lines(&["00001000-0009efff : System RAM", "00100000-5894bfff : System RAM"]);
    let ranges = extract_system_ram_ranges(&input);
    assert_eq!(
        ranges,
        vec![
            PhysRange { start: 0x1000, end: 0x9f000 },
            PhysRange { start: 0x100000, end: 0x5894c000 },
        ]
    );
    assert!(ranges_well_formed(&ranges));
    assert_eq!(memory_size(&ranges), 0x9e000 + 0x5884c000);
}

#[test]
fn extract_skips_other_tags_and_malformed_lines() {
    let input = lines(&[
        "00000000-00000fff : Reserved",
        "00001000-0009efff : System RAM",
        "  000a0000-000bffff : PCI Bus 0000:00",
        "garbage line without a range : System RAM",
        "0009f000-000fffff : Reserved",
        "6fc4f000-6fc4ffff : System RAM",
    ]);
    let ranges = extract_system_ram_ranges(&input);
    assert_eq!(
        ranges,
        vec![
            PhysRange { start: 0x1000, end: 0x9f000 },
            PhysRange { start: 0x6fc4f000, end: 0x6fc50000 },
        ]
    );
}

#[test]
fn extract_honors_the_given_identifier() {
    let input = lines(&[
        "00001000-0009efff : System RAM",
        "6ed6f000-6fbcefff : ACPI Non-volatile Storage",
    ]);
    let acpi = extract_mem_range(&input, " : ACPI Non-volatile Storage");
    assert_eq!(acpi, vec![PhysRange { start: 0x6ed6f000, end: 0x6fbcf000 }]);
    let ram = extract_mem_range(&input, SEPARATOR_SYSTEM_RAM);
    assert_eq!(ram, vec![PhysRange { start: 0x1000, end: 0x9f000 }]);
}

#[test]
fn parse_well_formed_line() {
    assert_eq!(
        parse_memory_range("00001000-0009efff : System RAM"),
        Some((0x1000, 0x9efff))
    );
}

#[test]
fn parse_line_with_leading_whitespace() {
    assert_eq!(
        parse_memory_range("  000a0000-000bffff : PCI Bus 0000:00"),
        Some((0xa0000, 0xbffff))
    );
}

#[test]
fn parse_rejects_missing_hyphen() {
    assert_eq!(parse_memory_range("00001000 : System RAM"), None);
}

#[test]
fn parse_rejects_two_hyphens_in_token() {
    assert_eq!(parse_memory_range("1-2-3 : System RAM"), None);
}

#[test]
fn parse_rejects_non_hex_bounds() {
    assert_eq!(parse_memory_range("zzzz-0009efff : System RAM"), None);
    assert_eq!(parse_memory_range("00001000-zzzz : System RAM"), None);
}

#[test]
fn parse_rejects_empty_bound() {
    assert_eq!(parse_memory_range("-0009efff : System RAM"), None);
    assert_eq!(parse_memory_range("00001000- : System RAM"), None);
}

#[test]
fn parse_rejects_empty_line() {
    assert_eq!(parse_memory_range(""), None);
    assert_eq!(parse_memory_range("   "), None);
}

#[test]
fn parse_rejects_overflowing_bound() {
    assert_eq!(parse_memory_range("10000000000000000-0 : System RAM"), None);
    assert_eq!(
        parse_memory_range("ffffffffffffffff-0 : System RAM"),
        Some((u64::MAX, 0))
    );
}

#[test]
fn extract_drops_inverted_bounds() {
    let input = lines(&["0009efff-00001000 : System RAM"]);
    assert_eq!(extract_system_ram_ranges(&input), vec![]);
}

#[test]
fn extract_drops_a_range_whose_end_cannot_be_represented() {
    let input = lines(&["fffffffffffffffe-ffffffffffffffff : System RAM"]);
    assert_eq!(extract_system_ram_ranges(&input), vec![]);
    let fits = lines(&["fffffffffffffffd-fffffffffffffffe : System RAM"]);
    assert_eq!(
        extract_system_ram_ranges(&fits),
        vec![PhysRange { start: 0xfffffffffffffffd, end: 0xffffffffffffffff }]
    );
}

#[test]
fn ranges_well_formed_checks_order_and_emptiness() {
    let sorted = vec![
        PhysRange { start: 0x1000, end: 0x2000 },
        PhysRange { start: 0x2000, end: 0x3000 },
    ];
    assert!(ranges_well_formed(&sorted));
    let unsorted = vec![
        PhysRange { start: 0x2000, end: 0x3000 },
        PhysRange { start: 0x1000, end: 0x2000 },
    ];
    assert!(!ranges_well_formed(&unsorted));
    let empty_range = vec![PhysRange { start: 0x1000, end: 0x1000 }];
    assert!(!ranges_well_formed(&empty_range));
    assert!(ranges_well_formed(&vec![]));
}
