use emd::iomem::PhysRange;
use emd::lime::{Header, LimeHeader};
use emd::memory_dump::{assemble_call, dump_physical_memory, plan_calls, CallDescriptor, Gap};
use emd::{BUFFER_SIZE, MAX_QUEUE_SIZE};

fn chunk(fill: u8) -> Vec<u8> {
    vec![fill; BUFFER_SIZE]
}

fn full_chunks(fills: &[u8]) -> Vec<Option<Vec<u8>>> {
    fills.iter().map(|f| Some(chunk(*f))).collect()
}

#[test]
fn plan_of_one_small_range() {
    let ranges = vec![PhysRange { start: 0x1000, end: 0x1800 }];
    assert_eq!(
        plan_calls(&ranges),
        vec![CallDescriptor { offset: 0x1000, dump_size: 0x800 }]
    );
}

#[test]
fn plan_strides_by_queue_capacity() {
    let end = 0x1000 + 2 * MAX_QUEUE_SIZE as u64 + 4;
    let ranges = vec![PhysRange { start: 0x1000, end }];
    assert_eq!(
        plan_calls(&ranges),
        vec![
            CallDescriptor { offset: 0x1000, dump_size: MAX_QUEUE_SIZE },
            CallDescriptor { offset: 0x1000 + MAX_QUEUE_SIZE as u64, dump_size: MAX_QUEUE_SIZE },
            CallDescriptor { offset: 0x1000 + 2 * MAX_QUEUE_SIZE as u64, dump_size: 4 },
        ]
    );
}

#[test]
fn plan_covers_ranges_in_order() {
    let ranges = vec![
        PhysRange { start: 0x1000, end: 0x1800 },
        PhysRange { start: 0x2000, end: 0x2400 },
    ];
    assert_eq!(
        plan_calls(&ranges),
        vec![
            CallDescriptor { offset: 0x1000, dump_size: 0x800 },
            CallDescriptor { offset: 0x2000, dump_size: 0x400 },
        ]
    );
}

#[test]
fn assemble_raw_concatenates_chunks() {
    let chunks = full_chunks(&[0xaa, 0xbb]);
    let (out, gaps) = assemble_call(&Header::Raw, 0x1000, 512, &chunks);
    assert_eq!(out.len(), 512);
    assert!(out[..256].iter().all(|b| *b == 0xaa));
    assert!(out[256..].iter().all(|b| *b == 0xbb));
    assert_eq!(gaps, vec![]);
}

#[test]
fn assemble_truncates_the_final_chunk() {
    let chunks = full_chunks(&[0xaa, 0xbb]);
    let (out, gaps) = assemble_call(&Header::Raw, 0x1000, 260, &chunks);
    assert_eq!(out.len(), 260);
    assert!(out[..256].iter().all(|b| *b == 0xaa));
    assert!(out[256..].iter().all(|b| *b == 0xbb));
    assert_eq!(gaps, vec![]);
}

#[test]
fn assemble_lime_prepends_one_header_per_segment() {
    let chunks = full_chunks(&[0x11]);
    let template = LimeHeader::default();
    let (out, gaps) = assemble_call(&Header::Lime(template), 0x2000, 256, &chunks);
    assert_eq!(out.len(), 32 + 256);
    let expected = LimeHeader::new(0x2000, 0x2100).as_bytes();
    assert_eq!(&out[..32], &expected);
    assert!(out[32..].iter().all(|b| *b == 0x11));
    assert_eq!(gaps, vec![]);
}

#[test]
fn gap_is_zero_filled_and_named() {
    let healthy = full_chunks(&[0xaa, 0xbb, 0xcc]);
    let mut faulted = full_chunks(&[0xaa, 0xbb, 0xcc]);
    faulted[1] = None;
    let (good, good_gaps) = assemble_call(&Header::Raw, 0x1000, 768, &healthy);
    let (out, gaps) = assemble_call(&Header::Raw, 0x1000, 768, &faulted);
    assert_eq!(good_gaps, vec![]);
    assert_eq!(out.len(), good.len());
    assert!(out[256..512].iter().all(|b| *b == 0));
    assert_eq!(out[..256], good[..256]);
    assert_eq!(out[512..], good[512..]);
    assert_eq!(gaps, vec![Gap { start: 0x1100, end: 0x1200 }]);
}

#[test]
fn gap_in_final_partial_chunk() {
    let mut chunks = full_chunks(&[0xaa, 0xbb]);
    chunks[1] = None;
    let (out, gaps) = assemble_call(&Header::Raw, 0x1000, 260, &chunks);
    assert_eq!(out.len(), 260);
    assert!(out[256..].iter().all(|b| *b == 0));
    assert_eq!(gaps, vec![Gap { start: 0x1100, end: 0x1104 }]);
}

#[test]
fn dump_concatenates_ranges_in_order() {
    let ranges = vec![
        PhysRange { start: 0x1000, end: 0x1800 },
        PhysRange { start: 0x2000, end: 0x2400 },
    ];
    let first: Vec<Option<Vec<u8>>> = (0..8).map(|i| Some(chunk(i as u8))).collect();
    let second: Vec<Option<Vec<u8>>> = (8..12).map(|i| Some(chunk(i as u8))).collect();
    let responses = vec![first, second];
    let (out, gaps) = dump_physical_memory(&ranges, &Header::Raw, &responses);
    assert_eq!(out.len(), 3072);
    assert_eq!(gaps, vec![]);
    for i in 0..12 {
        assert!(
            out[i * 256..(i + 1) * 256].iter().all(|b| *b == i as u8),
            "chunk {i} out of order"
        );
    }
}

#[test]
fn dump_with_lime_frames_each_segment() {
    let ranges = vec![
        PhysRange { start: 0x1000, end: 0x1100 },
        PhysRange { start: 0x2000, end: 0x2100 },
    ];
    let responses = vec![full_chunks(&[0xaa]), full_chunks(&[0xbb])];
    let (out, gaps) = dump_physical_memory(&ranges, &Header::Lime(LimeHeader::default()), &responses);
    assert_eq!(out.len(), 2 * (32 + 256));
    assert_eq!(gaps, vec![]);
    assert_eq!(&out[..32], &LimeHeader::new(0x1000, 0x1100).as_bytes());
    assert_eq!(&out[288..320], &LimeHeader::new(0x2000, 0x2100).as_bytes());
    assert!(out[32..288].iter().all(|b| *b == 0xaa));
    assert!(out[320..].iter().all(|b| *b == 0xbb));
}
