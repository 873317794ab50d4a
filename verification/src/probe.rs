//! The in-kernel probe's decision logic, modeled as a function of the
//! values the kernel hands it.  The probe proper runs inside the kernel:
//! it decodes the call descriptor from the probe context, reads the source
//! range chunk by chunk, and pushes each chunk onto the shared queue,
//! aborting the whole call on the first failure so the driver can record
//! the gap.

use vstd::prelude::*;
use crate::{BUFFER_SIZE, MAX_QUEUE_SIZE};
use crate::chunking::{
    spec_queue_elements, spec_chunk_size, calc_queue_elements, lemma_chunk_prefix_sum_full,
    lemma_chunk_prefix_sum_le, lemma_chunk_sizes_sum,
};
use crate::memory_dump::spec_chunk_views;

verus! {

/// The running executable, as the uprobe's attach target.
pub const PROC_SELF_EXE: &'static str = "/proc/self/exe";

/// The symbol under which the probe program is installed.
pub const READ_KERNEL_MEM: &'static str = "read_kernel_memory";

/// The name of the shared chunk queue map.
pub const BUFFER_QUEUE: &'static str = "BUFFER_QUEUE";

/// The probe completed and every chunk is on the queue.
pub const PROBE_OK: u32 = 0;

/// The probe context held no source address (argument 0).
pub const PROBE_ERR_NO_ADDRESS: u32 = 1;

/// The probe context held no dump size (argument 1).
pub const PROBE_ERR_NO_SIZE: u32 = 2;

/// The requested size exceeds the queue's byte capacity.
pub const PROBE_ERR_SIZE: u32 = 3;

/// A kernel read faulted; the call was aborted at that chunk.
pub const PROBE_ERR_READ: u32 = 4;

/// The queue was full; the call was aborted at that chunk.
pub const PROBE_ERR_PUSH: u32 = 5;

/// The walk of the probe's chunk loop from chunk `j` on: the return code,
/// and how many chunks ended up on the queue.  The loop stops at the first
/// chunk whose kernel read faulted (`PROBE_ERR_READ`) or for which no queue
/// slot was free (`PROBE_ERR_PUSH`); chunks before the stop are pushed in
/// source-address order.
pub open spec fn spec_probe_run(reads: Seq<Option<Seq<u8>>>, free_slots: int, j: int) -> (
    u32,
    int,
)
    decreases reads.len() - j,
{
    if j < 0 || j >= reads.len() {
        (PROBE_OK, j)
    } else if reads[j] is None {
        (PROBE_ERR_READ, j)
    } else if j >= free_slots {
        (PROBE_ERR_PUSH, j)
    } else {
        spec_probe_run(reads, free_slots, j + 1)
    }
}

/// The kernel reads one call performs: the `i`-th chunk is read from
/// `src_va + i * BUFFER_SIZE`, a full chunk long except the final one,
/// which carries the remainder of `dump_size`.
pub fn probe_read_plan(src_va: u64, dump_size: usize) -> (r: Vec<(u64, usize)>)
    requires
        0 < dump_size <= MAX_QUEUE_SIZE,
        src_va + dump_size <= u64::MAX,
    ensures
        r@.len() == spec_queue_elements(dump_size as int),
        forall|i: int|
            0 <= i < r@.len() ==> (#[trigger] r@[i]).0 == src_va + i * (BUFFER_SIZE as int)
                && r@[i].1 == spec_chunk_size(dump_size as int, i),
{
    let n: usize = calc_queue_elements(dump_size);
    let mut r: Vec<(u64, usize)> = Vec::new();
    let mut i: usize = 0;
    while i < n
        invariant
            0 <= i <= n,
            n == spec_queue_elements(dump_size as int),
            0 < dump_size <= MAX_QUEUE_SIZE,
            src_va + dump_size <= u64::MAX,
            r@.len() == i,
            forall|j: int|
                0 <= j < i ==> (#[trigger] r@[j]).0 == src_va + j * (BUFFER_SIZE as int)
                    && r@[j].1 == spec_chunk_size(dump_size as int, j),
        decreases n - i,
    {
        let csz: usize = if i == n - 1 && dump_size % BUFFER_SIZE != 0 {
            dump_size % BUFFER_SIZE
        } else {
            BUFFER_SIZE
        };
        proof {
            lemma_chunk_prefix_sum_full(dump_size as int, i as int);
            lemma_chunk_prefix_sum_le(dump_size as int, i + 1, n as int);
            lemma_chunk_sizes_sum(dump_size as int);
            assert(i * (BUFFER_SIZE as int) + csz <= dump_size);
        }
        r.push((src_va + (i as u64) * (BUFFER_SIZE as u64), csz));
        i = i + 1;
    }
    r
}

/// The probe's decision logic over the values the kernel hands it: the two
/// probe-context arguments, the outcome of each chunk-sized kernel read
/// (`None` where the read faulted), and the number of free queue slots.
/// Returns the probe's return code and how many chunks it pushed; the
/// pushed chunks are exactly the first that many reads, in source-address
/// order.
pub fn read_kernel_memory(
    src_address: Option<u64>,
    dump_size: Option<usize>,
    reads: &Vec<Option<Vec<u8>>>,
    free_slots: usize,
) -> (r: (u32, usize))
    requires
        (src_address is Some && dump_size is Some && dump_size->0 <= MAX_QUEUE_SIZE)
            ==> reads@.len() == spec_queue_elements(dump_size->0 as int),
    ensures
        src_address is None ==> r == (PROBE_ERR_NO_ADDRESS, 0usize),
        src_address is Some && dump_size is None ==> r == (PROBE_ERR_NO_SIZE, 0usize),
        src_address is Some && dump_size is Some && dump_size->0 > MAX_QUEUE_SIZE ==> r == (
            PROBE_ERR_SIZE,
            0usize,
        ),
        (src_address is Some && dump_size is Some && dump_size->0 <= MAX_QUEUE_SIZE) ==> r.0
            == spec_probe_run(spec_chunk_views(reads@), free_slots as int, 0).0 && r.1
            == spec_probe_run(spec_chunk_views(reads@), free_slots as int, 0).1,
{
    if src_address.is_none() {
        return (PROBE_ERR_NO_ADDRESS, 0);
    }
    let size: usize = match dump_size {
        Some(v) => v,
        None => {
            return (PROBE_ERR_NO_SIZE, 0);
        },
    };
    if size > MAX_QUEUE_SIZE {
        return (PROBE_ERR_SIZE, 0);
    }
    let ghost cv = spec_chunk_views(reads@);
    let n: usize = calc_queue_elements(size);
    let mut j: usize = 0;
    while j < n
        invariant
            0 <= j <= n,
            n == reads@.len(),
            src_address is Some,
            dump_size == Some(size),
            size <= MAX_QUEUE_SIZE,
            n == spec_queue_elements(size as int),
            cv == spec_chunk_views(reads@),
            spec_probe_run(cv, free_slots as int, 0) == spec_probe_run(
                cv,
                free_slots as int,
                j as int,
            ),
        decreases n - j,
    {
        match &reads[j] {
            Option::None => {
                assert(cv[j as int] is None);
                return (PROBE_ERR_READ, j);
            },
            Option::Some(_) => {
                assert(cv[j as int] is Some);
                if j >= free_slots {
                    return (PROBE_ERR_PUSH, j);
                }
            },
        }
        j = j + 1;
    }
    (PROBE_OK, n)
}

} // verus!
