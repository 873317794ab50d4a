use emd::chunking::{calc_queue_elements, chunk_sizes};
use emd::{BUFFER_SIZE, MAX_QUEUE_SIZE, QUEUE_SIZE};

#[test]
fn queue_constants_multiply_out() {
    assert_eq!(BUFFER_SIZE * QUEUE_SIZE as usize, 16384);
    assert_eq!(MAX_QUEUE_SIZE, 16384);
}

#[test]
fn queue_elements_of_full_queue() {
    assert_eq!(calc_queue_elements(16384), 64);
}

#[test]
fn queue_elements_of_one_byte() {
    assert_eq!(calc_queue_elements(1), 1);
}

#[test]
fn queue_elements_of_one_chunk_and_a_byte() {
    assert_eq!(calc_queue_elements(257), 2);
}

#[test]
fn queue_elements_never_exceed_queue_size() {
    for s in 1..=MAX_QUEUE_SIZE {
        assert!(calc_queue_elements(s) <= QUEUE_SIZE as usize);
    }
}

#[test]
fn chunk_sizes_of_260_bytes() {
    assert_eq!(chunk_sizes(260), vec![256, 4]);
}

#[test]
fn chunk_sizes_sum_to_call_size() {
    for s in [1usize, 255, 256, 257, 512, 1000, 16383, 16384] {
        let sizes = chunk_sizes(s);
        assert_eq!(sizes.iter().sum::<usize>(), s);
        for (i, sz) in sizes.iter().enumerate() {
            if i + 1 < sizes.len() {
                assert_eq!(*sz, BUFFER_SIZE);
            } else {
                assert!(*sz >= 1 && *sz <= BUFFER_SIZE);
            }
        }
    }
}
