//! Locating the running executable in memory and decoding the direct-map
//! base out of the chunk the probe read from the kernel.

use vstd::prelude::*;
use vstd::slice::slice_subrange;
use vstd::bytes::{spec_u64_from_le_bytes, u64_from_le_bytes};

verus! {

/// One entry of the process's memory map, reduced to the plain values the
/// locator reads: where the mapping starts, which file offset backs it, and
/// its permissions.
#[derive(Clone, Copy, Debug, PartialEq, Eq, Structural)]
pub struct MapEntry {
    pub start: u64,
    pub file_offset: u64,
    pub read: bool,
    pub execute: bool,
    pub private: bool,
}

/// What can go wrong while locating the executable's load base.
#[derive(Clone, Copy, Debug, PartialEq, Eq, Structural)]
pub enum LocateError {
    /// No readable, executable, private mapping exists.
    NoExecutableRegion,
    /// The selected mapping's file offset exceeds its start address.
    MalformedEntry,
}

/// An entry that can carry the executable's image: readable, executable,
/// and privately mapped.
pub open spec fn spec_entry_candidate(e: MapEntry) -> bool {
    e.read && e.execute && e.private
}

/// The load base the memory map yields: the first readable, executable,
/// private entry's start address minus its file offset.
pub open spec fn spec_base_addr(entries: Seq<MapEntry>) -> Result<u64, LocateError>
    decreases entries.len(),
{
    if entries.len() == 0 {
        Result::Err(LocateError::NoExecutableRegion)
    } else if spec_entry_candidate(entries[0]) {
        if entries[0].file_offset <= entries[0].start {
            Result::Ok((entries[0].start - entries[0].file_offset) as u64)
        } else {
            Result::Err(LocateError::MalformedEntry)
        }
    } else {
        spec_base_addr(entries.drop_first())
    }
}

/// Finds the in-memory load base of the running executable: the first map
/// entry with read, execute and private permissions, start address minus
/// file offset.  Fails when no such entry exists.
pub fn get_base_addr(entries: &Vec<MapEntry>) -> (r: Result<u64, LocateError>)
    ensures
        r == spec_base_addr(entries@),
{
    let n: usize = entries.len();
    proof {
        assert(entries@.skip(0) =~= entries@);
    }
    let mut i: usize = 0;
    while i < n
        invariant
            0 <= i <= n,
            n == entries@.len(),
            spec_base_addr(entries@.skip(i as int)) == spec_base_addr(entries@),
        decreases n - i,
    {
        let e = entries[i];
        proof {
            assert(entries@.skip(i as int)[0] == e);
        }
        if e.read && e.execute && e.private {
            if e.file_offset <= e.start {
                return Result::Ok(e.start - e.file_offset);
            } else {
                return Result::Err(LocateError::MalformedEntry);
            }
        }
        i = i + 1;
        proof {
            assert(entries@.skip(i - 1).drop_first() =~= entries@.skip(i as int));
        }
    }
    proof {
        assert(entries@.skip(n as int) =~= Seq::<MapEntry>::empty());
    }
    Result::Err(LocateError::NoExecutableRegion)
}

/// Decodes the direct-map base out of the chunk the probe read at the
/// `page_offset_base` symbol's address: the chunk's first 8 bytes, read as
/// a little-endian 64-bit integer.
pub fn get_page_offset_base(chunk: &[u8]) -> (r: u64)
    requires
        chunk@.len() >= 8,
    ensures
        r == spec_u64_from_le_bytes(chunk@.subrange(0, 8)),
{
    let first: &[u8] = slice_subrange(chunk, 0, 8);
    u64_from_le_bytes(first)
}

} // verus!
