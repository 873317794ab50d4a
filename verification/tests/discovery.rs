use emd::discovery::{
    discover_symbol_source, get_page_offset_base_address, parse_kptr_restrict,
    select_symbol_source, system_map_path, DiscoveryError, KptrRestrict, SymbolSource,
};

fn lines(raw: &[&str]) -> Vec<String> {
    raw.iter().map(|s| s.to_string()).collect()
}

#[test]
fn full_restriction_selects_the_on_disk_map() {
    assert_eq!(discover_symbol_source("2\n"), Ok(SymbolSource::SystemMap));
}

#[test]
fn readable_restrictions_select_kallsyms() {
    assert_eq!(discover_symbol_source("0\n"), Ok(SymbolSource::Kallsyms));
    assert_eq!(discover_symbol_source("1\n"), Ok(SymbolSource::Kallsyms));
}

#[test]
fn other_restriction_values_fail_discovery() {
    assert_eq!(
        discover_symbol_source("3\n"),
        Err(DiscoveryError::InvalidKptrRestrict)
    );
    assert_eq!(
        discover_symbol_source("255\n"),
        Err(DiscoveryError::InvalidKptrRestrict)
    );
    assert_eq!(
        discover_symbol_source("abc\n"),
        Err(DiscoveryError::InvalidKptrRestrict)
    );
    assert_eq!(
        discover_symbol_source(""),
        Err(DiscoveryError::InvalidKptrRestrict)
    );
}

#[test]
fn kptr_restrict_decodes_each_policy() {
    assert_eq!(parse_kptr_restrict("0"), Ok(KptrRestrict::Unrestricted));
    assert_eq!(parse_kptr_restrict(" 1 "), Ok(KptrRestrict::Partial));
    assert_eq!(parse_kptr_restrict("2"), Ok(KptrRestrict::Full));
    assert_eq!(select_symbol_source(KptrRestrict::Full), SymbolSource::SystemMap);
    assert_eq!(select_symbol_source(KptrRestrict::Partial), SymbolSource::Kallsyms);
    assert_eq!(
        select_symbol_source(KptrRestrict::Unrestricted),
        SymbolSource::Kallsyms
    );
}

#[test]
fn page_offset_base_read_from_kallsyms_line() {
    let listing = lines(&[
        "ffffffff82e13000 D some_other_symbol",
        "ffffffff82e14000 D page_offset_base",
        "ffffffff82e15000 D later_symbol",
    ]);
    assert_eq!(get_page_offset_base_address(&listing), Ok(0xffffffff82e14000));
}

#[test]
fn missing_symbol_yields_zero_base() {
    let listing = lines(&["ffffffff82e13000 D some_other_symbol"]);
    assert_eq!(get_page_offset_base_address(&listing), Ok(0));
    assert_eq!(get_page_offset_base_address(&lines(&[])), Ok(0));
}

#[test]
fn unparsable_symbol_address_is_an_error() {
    let listing = lines(&["zzzz D page_offset_base"]);
    assert_eq!(
        get_page_offset_base_address(&listing),
        Err(DiscoveryError::InvalidSymbolAddress)
    );
}

#[test]
fn first_matching_line_wins() {
    let listing = lines(&[
        "ffffffff82e14000 D page_offset_base",
        "0000000000000001 D page_offset_base",
    ]);
    assert_eq!(get_page_offset_base_address(&listing), Ok(0xffffffff82e14000));
}

#[test]
fn system_map_path_appends_trimmed_release() {
    assert_eq!(
        system_map_path("6.8.0-generic\n"),
        "/boot/System.map-6.8.0-generic"
    );
    assert_eq!(system_map_path("5.15.0"), "/boot/System.map-5.15.0");
}
