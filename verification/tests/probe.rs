use emd::probe::{
    probe_read_plan, read_kernel_memory, PROBE_ERR_NO_ADDRESS, PROBE_ERR_NO_SIZE, PROBE_ERR_PUSH,
    PROBE_ERR_READ, PROBE_ERR_SIZE, PROBE_OK,
};
use emd::{BUFFER_SIZE, MAX_QUEUE_SIZE, QUEUE_SIZE};

fn good_reads(n: usize) -> Vec<Option<Vec<u8>>> {
    (0..n).map(|i| Some(vec![i as u8; BUFFER_SIZE])).collect()
}

#[test]
fn probe_without_source_address() {
    assert_eq!(
        read_kernel_memory(None, Some(256), &good_reads(1), 64),
        (PROBE_ERR_NO_ADDRESS, 0)
    );
}

#[test]
fn probe_without_dump_size() {
    assert_eq!(
        read_kernel_memory(Some(0x1000), None, &good_reads(1), 64),
        (PROBE_ERR_NO_SIZE, 0)
    );
}

#[test]
fn probe_with_oversized_request() {
    assert_eq!(
        read_kernel_memory(Some(0x1000), Some(MAX_QUEUE_SIZE + 1), &good_reads(1), 64),
        (PROBE_ERR_SIZE, 0)
    );
}

#[test]
fn probe_aborts_on_first_failed_read() {
    let mut reads = good_reads(4);
    reads[2] = None;
    assert_eq!(
        read_kernel_memory(Some(0x1000), Some(1024), &reads, 64),
        (PROBE_ERR_READ, 2)
    );
}

#[test]
fn probe_aborts_when_the_queue_fills() {
    let reads = good_reads(4);
    assert_eq!(
        read_kernel_memory(Some(0x1000), Some(1024), &reads, 2),
        (PROBE_ERR_PUSH, 2)
    );
}

#[test]
fn probe_pushes_every_chunk_on_success() {
    let reads = good_reads(4);
    assert_eq!(
        read_kernel_memory(Some(0x1000), Some(1024), &reads, QUEUE_SIZE as usize),
        (PROBE_OK, 4)
    );
}

#[test]
fn probe_reads_advance_by_one_chunk() {
    assert_eq!(
        probe_read_plan(0x1000, 260),
        vec![(0x1000, 256), (0x1100, 4)]
    );
    assert_eq!(probe_read_plan(0xffff888000000000, 8), vec![(0xffff888000000000, 8)]);
}

#[test]
fn probe_full_queue_call_succeeds_exactly() {
    let reads = good_reads(QUEUE_SIZE as usize);
    assert_eq!(
        read_kernel_memory(Some(0x1000), Some(MAX_QUEUE_SIZE), &reads, QUEUE_SIZE as usize),
        (PROBE_OK, QUEUE_SIZE as usize)
    );
}
