//! LiME framing: the 32-byte little-endian segment header placed in front
//! of each dumped memory segment when framing is selected.

use vstd::prelude::*;
use vstd::bytes::{
    spec_u32_to_le_bytes, spec_u64_to_le_bytes, spec_u32_from_le_bytes, spec_u64_from_le_bytes,
    u32_to_le_bytes, u64_to_le_bytes, lemma_auto_spec_u32_to_from_le_bytes,
    lemma_auto_spec_u64_to_from_le_bytes,
};

verus! {

/// The LiME magic number (`EMiL` in little-endian byte order).
pub const LIME_MAGIC: u32 = 0x4C694D45;

/// The LiME header format version this library writes.
pub const LIME_VERSION: u32 = 1;

/// The 32-byte header preceding one memory segment in a LiME stream.
#[derive(Clone, Copy, Debug)]
pub struct LimeHeader {
    pub magic_bytes: u32,
    pub header_version: u32,
    pub start_address: u64,
    pub end_address: u64,
    pub reserved_space: [u8; 8],
}

/// Serialized form of a header: each numeric field in little-endian byte
/// order, then the reserved bytes.
pub open spec fn spec_lime_header_bytes(h: LimeHeader) -> Seq<u8> {
    spec_u32_to_le_bytes(h.magic_bytes) + spec_u32_to_le_bytes(h.header_version)
        + spec_u64_to_le_bytes(h.start_address) + spec_u64_to_le_bytes(h.end_address)
        + h.reserved_space@
}

impl Default for LimeHeader {
    /// A header with the fixed magic and version, zero addresses, and zero
    /// reserved bytes.
    fn default() -> (h: Self)
        ensures
            h.magic_bytes == LIME_MAGIC,
            h.header_version == LIME_VERSION,
            h.start_address == 0,
            h.end_address == 0,
            forall|i: int| 0 <= i < 8 ==> h.reserved_space@[i] == 0,
    {
        LimeHeader {
            magic_bytes: LIME_MAGIC,
            header_version: LIME_VERSION,
            start_address: 0,
            end_address: 0,
            reserved_space: [0u8; 8],
        }
    }
}

impl LimeHeader {
    /// A header for the segment `[start_address, end_address)`, with the
    /// fixed magic and version and zero reserved bytes.
    pub fn new(start_address: u64, end_address: u64) -> (h: Self)
        ensures
            h.magic_bytes == LIME_MAGIC,
            h.header_version == LIME_VERSION,
            h.start_address == start_address,
            h.end_address == end_address,
            forall|i: int| 0 <= i < 8 ==> h.reserved_space@[i] == 0,
    {
        LimeHeader {
            magic_bytes: LIME_MAGIC,
            header_version: LIME_VERSION,
            start_address,
            end_address,
            reserved_space: [0u8; 8],
        }
    }

    /// Serializes the header into its 32-byte wire form.
    pub fn as_bytes(&self) -> (bytes: [u8; 32])
        ensures
            bytes@ == spec_lime_header_bytes(*self),
    {
        let mut bytes: [u8; 32] = [0u8; 32];
        let magic: Vec<u8> = u32_to_le_bytes(self.magic_bytes);
        let version: Vec<u8> = u32_to_le_bytes(self.header_version);
        let start: Vec<u8> = u64_to_le_bytes(self.start_address);
        let end: Vec<u8> = u64_to_le_bytes(self.end_address);
        copy_at(&mut bytes, magic.as_slice(), 0);
        copy_at(&mut bytes, version.as_slice(), 4);
        copy_at(&mut bytes, start.as_slice(), 8);
        copy_at(&mut bytes, end.as_slice(), 16);
        copy_at(&mut bytes, self.reserved_space.as_slice(), 24);
        proof {
            assert(bytes@ =~= spec_lime_header_bytes(*self));
        }
        bytes
    }
}

/// Writes `src` into `dst` starting at index `at`, leaving all other bytes
/// unchanged.
fn copy_at(dst: &mut [u8; 32], src: &[u8], at: usize)
    requires
        at + src@.len() <= 32,
    ensures
        forall|i: int| 0 <= i < at ==> final(dst)@[i] == old(dst)@[i],
        forall|i: int| 0 <= i < src@.len() ==> final(dst)@[at + i] == src@[i],
        forall|i: int| at + src@.len() <= i < 32 ==> final(dst)@[i] == old(dst)@[i],
{
    let m: usize = src.len();
    let mut j: usize = 0;
    while j < m
        invariant
            0 <= j <= m,
            m == src@.len(),
            at + m <= 32,
            forall|i: int| 0 <= i < at ==> dst@[i] == old(dst)@[i],
            forall|i: int| 0 <= i < j ==> dst@[at + i] == src@[i],
            forall|i: int| at + m <= i < 32 ==> dst@[i] == old(dst)@[i],
        decreases m - j,
    {
        dst[at + j] = src[j];
        j = j + 1;
    }
}

/// The framing selected for the output stream: raw bytes, or a LiME header
/// in front of every segment.  A `Lime` value carries the header template
/// whose magic, version and reserved bytes each segment header copies.
pub enum Header {
    Raw,
    Lime(LimeHeader),
}

/// The bytes that framing places in front of one segment `[start, end)`:
/// nothing for raw output, a 32-byte header for LiME.
pub open spec fn spec_segment_header_bytes(framing: Header, start: u64, end: u64) -> Seq<u8> {
    match framing {
        Header::Raw => Seq::empty(),
        Header::Lime(t) => spec_lime_header_bytes(
            LimeHeader {
                start_address: start,
                end_address: end,
                ..t
            },
        ),
    }
}

/// LiME header round trip: the wire form is exactly 32 bytes, and the
/// magic, version, start and end fields read back from it little-endian;
/// the final 8 bytes are the reserved bytes unchanged.
pub proof fn lemma_lime_header_round_trip(h: LimeHeader)
    ensures
        spec_lime_header_bytes(h).len() == 32,
        spec_u32_from_le_bytes(spec_lime_header_bytes(h).subrange(0, 4)) == h.magic_bytes,
        spec_u32_from_le_bytes(spec_lime_header_bytes(h).subrange(4, 8)) == h.header_version,
        spec_u64_from_le_bytes(spec_lime_header_bytes(h).subrange(8, 16)) == h.start_address,
        spec_u64_from_le_bytes(spec_lime_header_bytes(h).subrange(16, 24)) == h.end_address,
        spec_lime_header_bytes(h).subrange(24, 32) == h.reserved_space@,
{
    lemma_auto_spec_u32_to_from_le_bytes();
    lemma_auto_spec_u64_to_from_le_bytes();
    let b = spec_lime_header_bytes(h);
    assert(b.subrange(0, 4) =~= spec_u32_to_le_bytes(h.magic_bytes));
    assert(b.subrange(4, 8) =~= spec_u32_to_le_bytes(h.header_version));
    assert(b.subrange(8, 16) =~= spec_u64_to_le_bytes(h.start_address));
    assert(b.subrange(16, 24) =~= spec_u64_to_le_bytes(h.end_address));
    assert(b.subrange(24, 32) =~= h.reserved_space@);
}

} // verus!
