use emd::lime::{LimeHeader, LIME_MAGIC, LIME_VERSION};

fn u64_from_le(bytes: &[u8]) -> u64 {
    let mut v: u64 = 0;
    for i in (0..8).rev() {
        v = (v << 8) | bytes[i] as u64;
    }
    v
}

#[test]
fn header_bytes_of_first_ram_segment() {
    let h = LimeHeader::new(0x1000, 0x9f000);
    let bytes = h.as_bytes();
    let expected_prefix: [u8; 24] = [
        0x45, 0x4D, 0x69, 0x4C, 0x01, 0x00, 0x00, 0x00, 0x00, 0x10, 0x00, 0x00, 0x00, 0x00,
        0x00, 0x00, 0x00, 0xF0, 0x09, 0x00, 0x00, 0x00, 0x00, 0x00,
    ];
    assert_eq!(&bytes[..24], &expected_prefix);
    assert_eq!(&bytes[24..], &[0u8; 8]);
}

#[test]
fn header_serialization_is_32_bytes_and_reads_back() {
    let h = LimeHeader::new(0xdeadbeef00112233, 0xfeedface44556677);
    let bytes = h.as_bytes();
    assert_eq!(bytes.len(), 32);
    assert_eq!(&bytes[0..4], &[0x45, 0x4D, 0x69, 0x4C]);
    assert_eq!(&bytes[4..8], &[0x01, 0x00, 0x00, 0x00]);
    assert_eq!(u64_from_le(&bytes[8..16]), 0xdeadbeef00112233);
    assert_eq!(u64_from_le(&bytes[16..24]), 0xfeedface44556677);
    assert_eq!(&bytes[24..32], &[0u8; 8]);
}

#[test]
fn default_header_has_magic_and_version() {
    let h = LimeHeader::default();
    assert_eq!(h.magic_bytes, LIME_MAGIC);
    assert_eq!(h.magic_bytes, 0x4C694D45);
    assert_eq!(h.header_version, LIME_VERSION);
    assert_eq!(h.header_version, 1);
    assert_eq!(h.start_address, 0);
    assert_eq!(h.end_address, 0);
    assert_eq!(h.reserved_space, [0u8; 8]);
}

#[test]
fn new_header_keeps_addresses() {
    let h = LimeHeader::new(7, 11);
    assert_eq!(h.start_address, 7);
    assert_eq!(h.end_address, 11);
    assert_eq!(h.magic_bytes, LIME_MAGIC);
}
