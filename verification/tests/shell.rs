use emd::address_calculation::{get_base_addr, get_page_offset_base, LocateError, MapEntry};
use emd::preflight::check_capability;
use emd::traits::HumanReadable;

#[test]
fn capability_present_allows_acquisition() {
    assert!(check_capability(Some(true)).is_ok());
}

#[test]
fn capability_missing_names_the_capability() {
    let r = check_capability(Some(false));
    match r {
        Err(msg) => assert!(msg.contains("CAP_SYS_ADMIN")),
        Ok(()) => panic!("acquisition must not proceed without the capability"),
    }
}

#[test]
fn capability_query_failure_refuses() {
    assert!(check_capability(None).is_err());
}

#[test]
fn base_addr_of_first_executable_private_entry() {
    let entries = vec![
        MapEntry { start: 0x1000, file_offset: 0, read: true, execute: false, private: true },
        MapEntry { start: 0x555500002000, file_offset: 0x2000, read: true, execute: true, private: true },
        MapEntry { start: 0x555500008000, file_offset: 0x8000, read: true, execute: true, private: true },
    ];
    assert_eq!(get_base_addr(&entries), Ok(0x555500000000));
}

#[test]
fn base_addr_requires_all_three_permissions() {
    let entries = vec![
        MapEntry { start: 0x1000, file_offset: 0, read: true, execute: true, private: false },
        MapEntry { start: 0x2000, file_offset: 0, read: false, execute: true, private: true },
    ];
    assert_eq!(get_base_addr(&entries), Err(LocateError::NoExecutableRegion));
    assert_eq!(get_base_addr(&vec![]), Err(LocateError::NoExecutableRegion));
}

#[test]
fn base_addr_refuses_offset_past_start() {
    let entries = vec![
        MapEntry { start: 0x1000, file_offset: 0x2000, read: true, execute: true, private: true },
    ];
    assert_eq!(get_base_addr(&entries), Err(LocateError::MalformedEntry));
}

#[test]
fn page_offset_base_reads_first_eight_bytes_little_endian() {
    let mut chunk = vec![0u8; 256];
    chunk[..8].copy_from_slice(&[0x00, 0x40, 0xe1, 0x82, 0xff, 0xff, 0xff, 0xff]);
    assert_eq!(get_page_offset_base(&chunk), 0xffffffff82e14000);
}

#[test]
fn human_readable_byte_counts() {
    assert_eq!(0u64.bytes_as_hrb(), "0.00B");
    assert_eq!(512u64.bytes_as_hrb(), "512.00B");
    assert_eq!(1024u64.bytes_as_hrb(), "1.00KiB");
    assert_eq!(1536u64.bytes_as_hrb(), "1.50KiB");
    assert_eq!((1u64 << 20).bytes_as_hrb(), "1.00MiB");
    assert_eq!((3u64 << 30).bytes_as_hrb(), "3.00GiB");
    assert_eq!(0x585dd000u64.bytes_as_hrb(), "1.38GiB");
    assert_eq!(u64::MAX.bytes_as_hrb(), "15.99EiB");
}
