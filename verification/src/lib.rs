//! Acquisition pipeline for a physical-memory image of a Linux host.
//!
//! The library holds the verified core of the acquirer: sizing of the
//! in-kernel chunk queue, parsing of the kernel's I/O memory map, discovery
//! of the direct-map base, the in-kernel probe's decision logic, the
//! acquisition driver's plan and reassembly, and LiME framing.  Everything
//! that touches the host (procfs reads, the eBPF loader, the output sink)
//! lives outside the library and hands it plain values.

use vstd::prelude::*;

pub mod address_calculation;
pub mod chunking;
pub mod discovery;
pub mod iomem;
pub mod lex;
pub mod lime;
pub mod memory_dump;
pub mod preflight;
pub mod probe;
pub mod traits;

verus! {

/// Size in bytes of one chunk, the atomic unit the in-kernel probe reads and
/// enqueues.  Kept small so the probe's scratch buffer fits the eBPF budget.
pub const BUFFER_SIZE: usize = 256;

/// Capacity of the bounded chunk queue shared between probe and driver.
pub const QUEUE_SIZE: u32 = 64;

/// Largest size a single probe call may be asked to dump: a full queue,
/// `BUFFER_SIZE * QUEUE_SIZE` bytes.
pub const MAX_QUEUE_SIZE: usize = 16384;

/// The queue's byte capacity is exactly `BUFFER_SIZE * QUEUE_SIZE`.
pub proof fn lemma_queue_byte_capacity()
    ensures
        MAX_QUEUE_SIZE == BUFFER_SIZE * QUEUE_SIZE,
{
}

} // verus!
