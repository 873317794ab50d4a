//! The acquisition driver's verified core: the plan of probe calls covering
//! the physical ranges, and the reassembly of dequeued chunks into the
//! output stream, with zero substitution and gap accounting for chunks the
//! probe failed to deliver.

use vstd::prelude::*;
use crate::{BUFFER_SIZE, MAX_QUEUE_SIZE};
use crate::chunking::{
    spec_queue_elements, spec_chunk_size, spec_chunk_prefix_sum, calc_queue_elements,
    lemma_chunk_prefix_sum_full, lemma_chunk_prefix_sum_le, lemma_chunk_sizes_sum,
};
use crate::iomem::{PhysRange, spec_ranges_wf, spec_total_size};
use crate::lime::{Header, LimeHeader, spec_segment_header_bytes};

verus! {

/// One probe call of the acquisition plan: dump `dump_size` bytes starting
/// at physical offset `offset`.
#[derive(Clone, Copy, Debug, PartialEq, Eq, Structural)]
pub struct CallDescriptor {
    pub offset: u64,
    pub dump_size: usize,
}

/// A byte range `[start, end)` the probe failed to deliver; the driver
/// wrote zeros in its place.
#[derive(Clone, Copy, Debug, PartialEq, Eq, Structural)]
pub struct Gap {
    pub start: u64,
    pub end: u64,
}

/// A call is well formed when it is nonempty, fits the queue, and stays
/// inside the address space.
pub open spec fn spec_call_wf(c: CallDescriptor) -> bool {
    &&& 0 < c.dump_size <= MAX_QUEUE_SIZE
    &&& c.offset + c.dump_size <= u64::MAX
}

/// The calls covering `[start, end)`: strides of `MAX_QUEUE_SIZE` bytes,
/// the last call carrying whatever remains.
pub open spec fn spec_plan_range(start: int, end: int) -> Seq<CallDescriptor>
    decreases end - start,
{
    if start >= end {
        Seq::empty()
    } else {
        let size = if end - start < MAX_QUEUE_SIZE {
            end - start
        } else {
            MAX_QUEUE_SIZE as int
        };
        seq![CallDescriptor { offset: start as u64, dump_size: size as usize }]
            + spec_plan_range(start + size, end)
    }
}

/// The calls covering a sequence of ranges, in order.
pub open spec fn spec_plan(rs: Seq<PhysRange>) -> Seq<CallDescriptor>
    decreases rs.len(),
{
    if rs.len() == 0 {
        Seq::empty()
    } else {
        spec_plan(rs.drop_last()) + spec_plan_range(
            rs.last().start as int,
            rs.last().end as int,
        )
    }
}

/// Sum of the call sizes of a plan.
pub open spec fn spec_plan_size(p: Seq<CallDescriptor>) -> int
    decreases p.len(),
{
    if p.len() == 0 {
        0
    } else {
        spec_plan_size(p.drop_last()) + p.last().dump_size
    }
}

/// Computes the acquisition plan for the given ranges: each range is walked
/// front to back in strides of `MAX_QUEUE_SIZE` bytes.
pub fn plan_calls(ranges: &Vec<PhysRange>) -> (plan: Vec<CallDescriptor>)
    ensures
        plan@ == spec_plan(ranges@),
{
    let mut plan: Vec<CallDescriptor> = Vec::new();
    let n: usize = ranges.len();
    let mut ri: usize = 0;
    while ri < n
        invariant
            0 <= ri <= n,
            n == ranges@.len(),
            plan@ == spec_plan(ranges@.take(ri as int)),
        decreases n - ri,
    {
        let r = ranges[ri];
        let rend: u64 = r.end;
        let mut offset: u64 = r.start;
        while offset < rend
            invariant
                plan@ + spec_plan_range(offset as int, rend as int) == spec_plan(
                    ranges@.take(ri as int),
                ) + spec_plan_range(r.start as int, rend as int),
            decreases rend - offset,
        {
            let remaining: u64 = rend - offset;
            let size: u64 = if remaining < MAX_QUEUE_SIZE as u64 {
                remaining
            } else {
                MAX_QUEUE_SIZE as u64
            };
            proof {
                assert(spec_plan_range(offset as int, rend as int) == seq![
                    CallDescriptor { offset: offset, dump_size: size as usize },
                ] + spec_plan_range(offset + size, rend as int));
            }
            plan.push(CallDescriptor { offset, dump_size: size as usize });
            offset = offset + size;
            proof {
                assert(plan@ + spec_plan_range(offset as int, rend as int) =~= spec_plan(
                    ranges@.take(ri as int),
                ) + spec_plan_range(r.start as int, rend as int));
            }
        }
        ri = ri + 1;
        proof {
            assert(ranges@.take(ri as int).drop_last() =~= ranges@.take(ri - 1));
            assert(ranges@.take(ri as int).last() == r);
            assert(plan@ =~= spec_plan(ranges@.take(ri as int)));
        }
    }
    proof {
        assert(ranges@.take(n as int) =~= ranges@);
    }
    plan
}

/// Every call of a range's plan is well formed.
pub proof fn lemma_plan_range_wf(start: int, end: int)
    requires
        0 <= start,
        end <= u64::MAX,
    ensures
        forall|i: int|
            0 <= i < spec_plan_range(start, end).len() ==> spec_call_wf(
                #[trigger] spec_plan_range(start, end)[i],
            ),
    decreases end - start,
{
    if start < end {
        let size = if end - start < MAX_QUEUE_SIZE {
            end - start
        } else {
            MAX_QUEUE_SIZE as int
        };
        lemma_plan_range_wf(start + size, end);
        assert forall|i: int|
            0 <= i < spec_plan_range(start, end).len() implies spec_call_wf(
            #[trigger] spec_plan_range(start, end)[i],
        ) by {
            if i > 0 {
                assert(spec_plan_range(start, end)[i] == spec_plan_range(start + size, end)[i
                    - 1]);
            }
        }
    }
}

/// Every call of a well-formed plan is well formed.
pub proof fn lemma_plan_wf(rs: Seq<PhysRange>)
    requires
        spec_ranges_wf(rs),
    ensures
        forall|i: int|
            0 <= i < spec_plan(rs).len() ==> spec_call_wf(#[trigger] spec_plan(rs)[i]),
    decreases rs.len(),
{
    if rs.len() > 0 {
        assert(spec_ranges_wf(rs.drop_last())) by {
            assert(forall|i: int|
                0 <= i < rs.len() - 1 ==> #[trigger] rs.drop_last()[i] == rs[i]);
        }
        lemma_plan_wf(rs.drop_last());
        lemma_plan_range_wf(rs.last().start as int, rs.last().end as int);
        let head = spec_plan(rs.drop_last());
        let tail = spec_plan_range(rs.last().start as int, rs.last().end as int);
        assert forall|i: int| 0 <= i < spec_plan(rs).len() implies spec_call_wf(
            #[trigger] spec_plan(rs)[i],
        ) by {
            if i < head.len() {
                assert(spec_plan(rs)[i] == head[i]);
            } else {
                assert(spec_plan(rs)[i] == tail[i - head.len()]);
            }
        }
    }
}

proof fn lemma_plan_size_concat(a: Seq<CallDescriptor>, b: Seq<CallDescriptor>)
    ensures
        spec_plan_size(a + b) == spec_plan_size(a) + spec_plan_size(b),
    decreases b.len(),
{
    if b.len() == 0 {
        assert(a + b =~= a);
    } else {
        lemma_plan_size_concat(a, b.drop_last());
        assert((a + b).drop_last() =~= a + b.drop_last());
        assert((a + b).last() == b.last());
    }
}

/// The plan of a range covers exactly its bytes.
pub proof fn lemma_plan_range_size(start: int, end: int)
    requires
        0 <= start <= end <= u64::MAX,
    ensures
        spec_plan_size(spec_plan_range(start, end)) == end - start,
    decreases end - start,
{
    if start < end {
        let size = if end - start < MAX_QUEUE_SIZE {
            end - start
        } else {
            MAX_QUEUE_SIZE as int
        };
        lemma_plan_range_size(start + size, end);
        let c = CallDescriptor { offset: start as u64, dump_size: size as usize };
        lemma_plan_size_concat(seq![c], spec_plan_range(start + size, end));
        assert(spec_plan_size(seq![c]) == size) by {
            assert(0 < size <= MAX_QUEUE_SIZE);
            assert(c.dump_size == size);
            assert(seq![c].last() == c);
            assert(seq![c].drop_last() =~= Seq::<CallDescriptor>::empty());
            assert(spec_plan_size(Seq::<CallDescriptor>::empty()) == 0);
        }
    }
}

/// The plan of a well-formed sequence of ranges covers exactly their total
/// size.
pub proof fn lemma_plan_size(rs: Seq<PhysRange>)
    requires
        forall|i: int| 0 <= i < rs.len() ==> (#[trigger] rs[i]).start <= rs[i].end,
    ensures
        spec_plan_size(spec_plan(rs)) == spec_total_size(rs),
    decreases rs.len(),
{
    if rs.len() > 0 {
        assert(forall|i: int|
            0 <= i < rs.len() - 1 ==> (#[trigger] rs.drop_last()[i]) == rs[i]);
        lemma_plan_size(rs.drop_last());
        lemma_plan_range_size(rs.last().start as int, rs.last().end as int);
        lemma_plan_size_concat(
            spec_plan(rs.drop_last()),
            spec_plan_range(rs.last().start as int, rs.last().end as int),
        );
    }
}

/// The chunk views of one call's queue responses: `Some` with the chunk's
/// bytes where a pop succeeded, `None` where the queue was empty.
pub open spec fn spec_chunk_views(chunks: Seq<Option<Vec<u8>>>) -> Seq<Option<Seq<u8>>> {
    chunks.map_values(
        |c: Option<Vec<u8>>|
            match c {
                Option::Some(v) => Option::Some(v@),
                Option::None => Option::<Seq<u8>>::None,
            },
    )
}

/// The responses of one call are well formed when there is one entry per
/// chunk and every delivered chunk is a full queue element.
pub open spec fn spec_chunks_wf(dump_size: int, cv: Seq<Option<Seq<u8>>>) -> bool {
    &&& cv.len() == spec_queue_elements(dump_size)
    &&& forall|i: int|
        0 <= i < cv.len() && (#[trigger] cv[i]) is Some ==> cv[i]->0.len() == BUFFER_SIZE
}

/// The bytes the `i`-th chunk contributes to a segment: the first
/// `spec_chunk_size` bytes of the delivered chunk, or that many zeros when
/// the probe failed to deliver it.
pub open spec fn spec_chunk_bytes(dump_size: int, chunk: Option<Seq<u8>>, i: int) -> Seq<u8> {
    match chunk {
        Option::Some(b) => b.take(spec_chunk_size(dump_size, i)),
        Option::None => Seq::new(spec_chunk_size(dump_size, i) as nat, |j: int| 0u8),
    }
}

/// The segment bytes contributed by chunks `i..` of one call.
pub open spec fn spec_body_from(dump_size: int, cv: Seq<Option<Seq<u8>>>, i: int) -> Seq<u8>
    decreases cv.len() - i,
{
    if i < 0 || i >= cv.len() {
        Seq::empty()
    } else {
        spec_chunk_bytes(dump_size, cv[i], i) + spec_body_from(dump_size, cv, i + 1)
    }
}

/// The data bytes of one call's segment: each chunk's contribution, in
/// queue order.
pub open spec fn spec_segment_body(dump_size: int, cv: Seq<Option<Seq<u8>>>) -> Seq<u8> {
    spec_body_from(dump_size, cv, 0)
}

/// The full output of one call's segment: the framing header, then the
/// data bytes.
pub open spec fn spec_segment_output(
    framing: Header,
    offset: u64,
    dump_size: int,
    cv: Seq<Option<Seq<u8>>>,
) -> Seq<u8> {
    spec_segment_header_bytes(framing, offset, (offset + dump_size) as u64) + spec_segment_body(
        dump_size,
        cv,
    )
}

/// The gaps among chunks `i..` of one call: one entry per missing chunk,
/// naming the byte range that was zero-filled.
pub open spec fn spec_gaps_from(
    offset: u64,
    dump_size: int,
    cv: Seq<Option<Seq<u8>>>,
    i: int,
) -> Seq<Gap>
    decreases cv.len() - i,
{
    if i < 0 || i >= cv.len() {
        Seq::empty()
    } else {
        (match cv[i] {
            Option::Some(_) => Seq::<Gap>::empty(),
            Option::None => seq![
                Gap {
                    start: (offset + i * (BUFFER_SIZE as int)) as u64,
                    end: (offset + i * (BUFFER_SIZE as int) + spec_chunk_size(
                        dump_size,
                        i,
                    )) as u64,
                },
            ],
        }) + spec_gaps_from(offset, dump_size, cv, i + 1)
    }
}

/// The gaps of one call's segment.
pub open spec fn spec_gaps(offset: u64, dump_size: int, cv: Seq<Option<Seq<u8>>>) -> Seq<Gap> {
    spec_gaps_from(offset, dump_size, cv, 0)
}

/// Reassembles one call's segment from the chunks popped off the queue.
/// Emits the framing header, then each chunk's bytes in queue order,
/// substituting zeros for chunks the probe failed to deliver and recording
/// each such gap.
pub fn assemble_call(
    framing: &Header,
    offset: u64,
    dump_size: usize,
    chunks: &Vec<Option<Vec<u8>>>,
) -> (r: (Vec<u8>, Vec<Gap>))
    requires
        0 < dump_size <= MAX_QUEUE_SIZE,
        offset + dump_size <= u64::MAX,
        spec_chunks_wf(dump_size as int, spec_chunk_views(chunks@)),
    ensures
        r.0@ == spec_segment_output(*framing, offset, dump_size as int, spec_chunk_views(chunks@)),
        r.1@ == spec_gaps(offset, dump_size as int, spec_chunk_views(chunks@)),
{
    let ghost cv = spec_chunk_views(chunks@);
    let ghost ds = dump_size as int;
    let mut out: Vec<u8> = Vec::new();
    let mut gaps: Vec<Gap> = Vec::new();
    match framing {
        Header::Raw => {},
        Header::Lime(t) => {
            let h = LimeHeader {
                magic_bytes: t.magic_bytes,
                header_version: t.header_version,
                start_address: offset,
                end_address: offset + dump_size as u64,
                reserved_space: t.reserved_space,
            };
            let hb: [u8; 32] = h.as_bytes();
            let mut j: usize = 0;
            while j < 32
                invariant
                    0 <= j <= 32,
                    out@ == hb@.take(j as int),
                decreases 32 - j,
            {
                out.push(hb[j]);
                proof {
                    assert(hb@.take(j + 1) =~= hb@.take(j as int).push(hb@[j as int]));
                }
                j = j + 1;
            }
            proof {
                assert(hb@.take(32) =~= hb@);
            }
        },
    }
    let ghost header = spec_segment_header_bytes(*framing, offset, (offset + ds) as u64);
    assert(out@ == header);
    let n: usize = calc_queue_elements(dump_size);
    let mut i: usize = 0;
    while i < n
        invariant
            0 <= i <= n,
            n == spec_queue_elements(ds),
            ds == dump_size as int,
            0 < dump_size <= MAX_QUEUE_SIZE,
            offset + dump_size <= u64::MAX,
            cv == spec_chunk_views(chunks@),
            spec_chunks_wf(ds, cv),
            out@ + spec_body_from(ds, cv, i as int) == header + spec_segment_body(ds, cv),
            gaps@ + spec_gaps_from(offset, ds, cv, i as int) == spec_gaps(offset, ds, cv),
        decreases n - i,
    {
        let csz: usize = if i == n - 1 && dump_size % BUFFER_SIZE != 0 {
            dump_size % BUFFER_SIZE
        } else {
            BUFFER_SIZE
        };
        assert(csz == spec_chunk_size(ds, i as int));
        proof {
            lemma_chunk_prefix_sum_full(ds, i as int);
            lemma_chunk_prefix_sum_le(ds, i + 1, n as int);
            lemma_chunk_sizes_sum(ds);
            assert(spec_chunk_prefix_sum(ds, i + 1) == i * (BUFFER_SIZE as int) + csz);
            assert(i * (BUFFER_SIZE as int) + csz <= ds);
        }
        let ghost out0 = out@;
        match &chunks[i] {
            Option::Some(b) => {
                assert(cv[i as int] == Option::Some(b@));
                assert(b@.len() == BUFFER_SIZE);
                let mut j: usize = 0;
                while j < csz
                    invariant
                        0 <= j <= csz,
                        csz <= BUFFER_SIZE,
                        b@.len() == BUFFER_SIZE,
                        out@ == out0 + b@.take(j as int),
                    decreases csz - j,
                {
                    out.push(b[j]);
                    proof {
                        assert(b@.take(j + 1) =~= b@.take(j as int).push(b@[j as int]));
                    }
                    j = j + 1;
                }
                assert(out@ == out0 + spec_chunk_bytes(ds, cv[i as int], i as int));
            },
            Option::None => {
                assert(cv[i as int] is None);
                let base: u64 = offset + (i as u64) * (BUFFER_SIZE as u64);
                gaps.push(Gap { start: base, end: base + csz as u64 });
                let mut j: usize = 0;
                while j < csz
                    invariant
                        0 <= j <= csz,
                        out@ == out0 + Seq::new(j as nat, |k: int| 0u8),
                    decreases csz - j,
                {
                    out.push(0u8);
                    proof {
                        assert(Seq::new((j + 1) as nat, |k: int| 0u8) =~= Seq::new(
                            j as nat,
                            |k: int| 0u8,
                        ).push(0u8));
                    }
                    j = j + 1;
                }
                assert(out@ == out0 + spec_chunk_bytes(ds, cv[i as int], i as int)) by {
                    assert(Seq::new(csz as nat, |k: int| 0u8) =~= spec_chunk_bytes(
                        ds,
                        cv[i as int],
                        i as int,
                    ));
                }
            },
        }
        i = i + 1;
        proof {
            assert(out@ + spec_body_from(ds, cv, i as int) =~= header + spec_segment_body(
                ds,
                cv,
            ));
            assert(gaps@ + spec_gaps_from(offset, ds, cv, i as int) =~= spec_gaps(
                offset,
                ds,
                cv,
            ));
        }
    }
    proof {
        assert(out@ + spec_body_from(ds, cv, n as int) =~= out@);
        assert(gaps@ + spec_gaps_from(offset, ds, cv, n as int) =~= gaps@);
    }
    (out, gaps)
}

/// The chunk views of every call's responses.
pub open spec fn spec_response_views(responses: Seq<Vec<Option<Vec<u8>>>>) -> Seq<
    Seq<Option<Seq<u8>>>,
> {
    responses.map_values(|r: Vec<Option<Vec<u8>>>| spec_chunk_views(r@))
}

/// The responses are well formed for a plan: one entry per call, each well
/// formed for its call's size.
pub open spec fn spec_responses_wf(
    plan: Seq<CallDescriptor>,
    rv: Seq<Seq<Option<Seq<u8>>>>,
) -> bool {
    &&& rv.len() == plan.len()
    &&& forall|i: int|
        0 <= i < plan.len() ==> spec_chunks_wf(plan[i].dump_size as int, #[trigger] rv[i])
}

/// The output bytes contributed by calls `i..` of a plan.
pub open spec fn spec_dump_from(
    framing: Header,
    plan: Seq<CallDescriptor>,
    rv: Seq<Seq<Option<Seq<u8>>>>,
    i: int,
) -> Seq<u8>
    decreases plan.len() - i,
{
    if i < 0 || i >= plan.len() {
        Seq::empty()
    } else {
        spec_segment_output(framing, plan[i].offset, plan[i].dump_size as int, rv[i])
            + spec_dump_from(framing, plan, rv, i + 1)
    }
}

/// The whole dump's output bytes: every call's segment, in plan order.
pub open spec fn spec_dump_output(
    framing: Header,
    rs: Seq<PhysRange>,
    rv: Seq<Seq<Option<Seq<u8>>>>,
) -> Seq<u8> {
    spec_dump_from(framing, spec_plan(rs), rv, 0)
}

/// The gaps recorded by calls `i..` of a plan.
pub open spec fn spec_dump_gaps_from(
    plan: Seq<CallDescriptor>,
    rv: Seq<Seq<Option<Seq<u8>>>>,
    i: int,
) -> Seq<Gap>
    decreases plan.len() - i,
{
    if i < 0 || i >= plan.len() {
        Seq::empty()
    } else {
        spec_gaps(plan[i].offset, plan[i].dump_size as int, rv[i]) + spec_dump_gaps_from(
            plan,
            rv,
            i + 1,
        )
    }
}

/// The whole dump's gaps, in plan order.
pub open spec fn spec_dump_gaps(rs: Seq<PhysRange>, rv: Seq<Seq<Option<Seq<u8>>>>) -> Seq<Gap> {
    spec_dump_gaps_from(spec_plan(rs), rv, 0)
}

/// Assembles the whole dump from the ranges and the chunks each planned
/// call popped off the queue.  The output is every call's segment in plan
/// order — header (under LiME framing), then data, zeros where a chunk was
/// not delivered — together with the recorded gaps.
pub fn dump_physical_memory(
    ranges: &Vec<PhysRange>,
    framing: &Header,
    responses: &Vec<Vec<Option<Vec<u8>>>>,
) -> (r: (Vec<u8>, Vec<Gap>))
    requires
        spec_ranges_wf(ranges@),
        spec_responses_wf(spec_plan(ranges@), spec_response_views(responses@)),
    ensures
        r.0@ == spec_dump_output(*framing, ranges@, spec_response_views(responses@)),
        r.1@ == spec_dump_gaps(ranges@, spec_response_views(responses@)),
{
    let ghost rv = spec_response_views(responses@);
    let plan: Vec<CallDescriptor> = plan_calls(ranges);
    proof {
        lemma_plan_wf(ranges@);
    }
    let mut out: Vec<u8> = Vec::new();
    let mut gaps: Vec<Gap> = Vec::new();
    let n: usize = plan.len();
    let mut i: usize = 0;
    while i < n
        invariant
            0 <= i <= n,
            n == plan@.len(),
            plan@ == spec_plan(ranges@),
            rv == spec_response_views(responses@),
            responses@.len() == n,
            spec_responses_wf(plan@, rv),
            forall|j: int| 0 <= j < n ==> spec_call_wf(#[trigger] plan@[j]),
            out@ + spec_dump_from(*framing, plan@, rv, i as int) == spec_dump_from(
                *framing,
                plan@,
                rv,
                0,
            ),
            gaps@ + spec_dump_gaps_from(plan@, rv, i as int) == spec_dump_gaps_from(
                plan@,
                rv,
                0,
            ),
        decreases n - i,
    {
        let c = plan[i];
        let (mut seg, mut g) = assemble_call(framing, c.offset, c.dump_size, &responses[i]);
        out.append(&mut seg);
        gaps.append(&mut g);
        i = i + 1;
        proof {
            assert(out@ + spec_dump_from(*framing, plan@, rv, i as int) =~= spec_dump_from(
                *framing,
                plan@,
                rv,
                0,
            ));
            assert(gaps@ + spec_dump_gaps_from(plan@, rv, i as int) =~= spec_dump_gaps_from(
                plan@,
                rv,
                0,
            ));
        }
    }
    proof {
        assert(out@ + spec_dump_from(*framing, plan@, rv, n as int) =~= out@);
        assert(gaps@ + spec_dump_gaps_from(plan@, rv, n as int) =~= gaps@);
    }
    (out, gaps)
}

proof fn lemma_chunk_bytes_len(ds: int, cv: Seq<Option<Seq<u8>>>, i: int)
    requires
        0 < ds,
        spec_chunks_wf(ds, cv),
        0 <= i < cv.len(),
    ensures
        spec_chunk_bytes(ds, cv[i], i).len() == spec_chunk_size(ds, i),
        0 < spec_chunk_size(ds, i) <= BUFFER_SIZE,
{
    vstd::arithmetic::div_mod::lemma_mod_bound(ds, BUFFER_SIZE as int);
}

proof fn lemma_body_from_len(ds: int, cv: Seq<Option<Seq<u8>>>, i: int)
    requires
        0 < ds,
        spec_chunks_wf(ds, cv),
        0 <= i <= cv.len(),
    ensures
        spec_body_from(ds, cv, i).len() == spec_chunk_prefix_sum(ds, cv.len() as int)
            - spec_chunk_prefix_sum(ds, i),
    decreases cv.len() - i,
{
    if i < cv.len() {
        lemma_body_from_len(ds, cv, i + 1);
        lemma_chunk_bytes_len(ds, cv, i);
    }
}

/// The data bytes of one call's segment are exactly `dump_size` long.
pub proof fn lemma_segment_body_len(ds: int, cv: Seq<Option<Seq<u8>>>)
    requires
        0 < ds,
        spec_chunks_wf(ds, cv),
    ensures
        spec_segment_body(ds, cv).len() == ds,
{
    lemma_body_from_len(ds, cv, 0);
    lemma_chunk_sizes_sum(ds);
}

proof fn lemma_body_from_index(ds: int, cv: Seq<Option<Seq<u8>>>, j: int, i: int, p: int)
    requires
        0 < ds,
        spec_chunks_wf(ds, cv),
        0 <= j <= i < cv.len(),
        0 <= p < spec_chunk_size(ds, i),
    ensures
        spec_body_from(ds, cv, j)[spec_chunk_prefix_sum(ds, i) - spec_chunk_prefix_sum(ds, j)
            + p] == match cv[i] {
            Option::Some(b) => b[p],
            Option::None => 0u8,
        },
    decreases i - j,
{
    lemma_chunk_bytes_len(ds, cv, j);
    let a = spec_chunk_bytes(ds, cv[j], j);
    let rest = spec_body_from(ds, cv, j + 1);
    assert(spec_body_from(ds, cv, j) == a + rest);
    if j == i {
        assert(spec_chunk_bytes(ds, cv[i], i)[p] == match cv[i] {
            Option::Some(b) => b[p],
            Option::None => 0u8,
        });
        assert((a + rest)[p] == a[p]);
    } else {
        lemma_body_from_index(ds, cv, j + 1, i, p);
        lemma_chunk_prefix_sum_le(ds, j + 1, i);
        lemma_chunk_prefix_sum_le(ds, i + 1, cv.len() as int);
        lemma_body_from_len(ds, cv, j + 1);
        lemma_chunk_bytes_len(ds, cv, i);
        let idx = spec_chunk_prefix_sum(ds, i) - spec_chunk_prefix_sum(ds, j) + p;
        assert(idx >= a.len());
        assert(idx - a.len() < rest.len());
        assert((a + rest)[idx] == rest[idx - a.len()]);
        assert(idx - a.len() == spec_chunk_prefix_sum(ds, i) - spec_chunk_prefix_sum(ds, j + 1)
            + p);
    }
}

/// Positional form of a segment's data: the byte `p` positions into the
/// `i`-th chunk's slot is the chunk's own byte when it was delivered, and
/// zero when it was not.
pub proof fn lemma_segment_body_index(ds: int, cv: Seq<Option<Seq<u8>>>, i: int, p: int)
    requires
        0 < ds,
        spec_chunks_wf(ds, cv),
        0 <= i < cv.len(),
        0 <= p < spec_chunk_size(ds, i),
    ensures
        spec_segment_body(ds, cv)[i * (BUFFER_SIZE as int) + p] == match cv[i] {
            Option::Some(b) => b[p],
            Option::None => 0u8,
        },
{
    lemma_body_from_index(ds, cv, 0, i, p);
    lemma_chunk_prefix_sum_full(ds, i);
}

proof fn lemma_gaps_from_single(offset: u64, ds: int, cv: Seq<Option<Seq<u8>>>, k: int, i: int)
    requires
        0 <= i <= cv.len(),
        forall|j: int| i <= j < cv.len() && j != k ==> (#[trigger] cv[j]) is Some,
    ensures
        spec_gaps_from(offset, ds, cv, i) == if i <= k < cv.len() && cv[k] is None {
            seq![
                Gap {
                    start: (offset + k * (BUFFER_SIZE as int)) as u64,
                    end: (offset + k * (BUFFER_SIZE as int) + spec_chunk_size(ds, k)) as u64,
                },
            ]
        } else {
            Seq::<Gap>::empty()
        },
    decreases cv.len() - i,
{
    if i < cv.len() {
        lemma_gaps_from_single(offset, ds, cv, k, i + 1);
        if i == k && cv[k] is None {
            assert(spec_gaps_from(offset, ds, cv, i) =~= seq![
                Gap {
                    start: (offset + k * (BUFFER_SIZE as int)) as u64,
                    end: (offset + k * (BUFFER_SIZE as int) + spec_chunk_size(ds, k)) as u64,
                },
            ]);
        } else {
            assert(cv[i] is Some);
            assert(spec_gaps_from(offset, ds, cv, i) =~= spec_gaps_from(offset, ds, cv, i + 1));
        }
    }
}

/// With every chunk delivered, a segment records no gaps.
pub proof fn lemma_gaps_none(offset: u64, ds: int, cv: Seq<Option<Seq<u8>>>)
    requires
        forall|j: int| 0 <= j < cv.len() ==> (#[trigger] cv[j]) is Some,
    ensures
        spec_gaps(offset, ds, cv) == Seq::<Gap>::empty(),
{
    lemma_gaps_from_single(offset, ds, cv, cv.len() as int, 0);
}

/// Gap tolerance: compared with the fully delivered run, losing exactly the
/// `k`-th chunk of a call leaves the segment's length unchanged, zeroes
/// exactly that chunk's slot, keeps every other chunk's bytes identical,
/// and records one gap naming the affected byte range.
pub proof fn lemma_gap_tolerance(offset: u64, ds: int, cv: Seq<Option<Seq<u8>>>, k: int)
    requires
        0 < ds <= MAX_QUEUE_SIZE,
        offset + ds <= u64::MAX,
        spec_chunks_wf(ds, cv),
        0 <= k < cv.len(),
        forall|j: int| 0 <= j < cv.len() ==> (#[trigger] cv[j]) is Some,
    ensures
        spec_segment_body(ds, cv.update(k, Option::None)).len() == ds,
        spec_segment_body(ds, cv).len() == ds,
        forall|p: int|
            0 <= p < spec_chunk_size(ds, k) ==> #[trigger] spec_segment_body(
                ds,
                cv.update(k, Option::None),
            )[k * (BUFFER_SIZE as int) + p] == 0u8,
        forall|i: int, p: int|
            0 <= i < cv.len() && i != k && 0 <= p < spec_chunk_size(ds, i)
                ==> #[trigger] spec_segment_body(ds, cv.update(k, Option::None))[i * (
            BUFFER_SIZE as int) + p] == spec_segment_body(ds, cv)[i * (BUFFER_SIZE as int) + p],
        spec_gaps(offset, ds, cv.update(k, Option::None)) == seq![
            Gap {
                start: (offset + k * (BUFFER_SIZE as int)) as u64,
                end: (offset + k * (BUFFER_SIZE as int) + spec_chunk_size(ds, k)) as u64,
            },
        ],
        spec_gaps(offset, ds, cv) == Seq::<Gap>::empty(),
{
    let cv2 = cv.update(k, Option::<Seq<u8>>::None);
    assert(spec_chunks_wf(ds, cv2));
    lemma_segment_body_len(ds, cv);
    lemma_segment_body_len(ds, cv2);
    assert forall|p: int| 0 <= p < spec_chunk_size(ds, k) implies #[trigger] spec_segment_body(
        ds,
        cv2,
    )[k * (BUFFER_SIZE as int) + p] == 0u8 by {
        lemma_segment_body_index(ds, cv2, k, p);
    }
    assert forall|i: int, p: int|
        0 <= i < cv.len() && i != k && 0 <= p < spec_chunk_size(ds, i)
        implies #[trigger] spec_segment_body(ds, cv2)[i * (BUFFER_SIZE as int) + p]
        == spec_segment_body(ds, cv)[i * (BUFFER_SIZE as int) + p] by {
        lemma_segment_body_index(ds, cv2, i, p);
        lemma_segment_body_index(ds, cv, i, p);
    }
    lemma_gaps_from_single(offset, ds, cv2, k, 0);
    lemma_gaps_none(offset, ds, cv);
}

/// Position of call `i`'s data in a raw-framed dump: the sum of the sizes
/// of the calls before it.
pub open spec fn spec_plan_pos(plan: Seq<CallDescriptor>, i: int) -> int
    decreases i,
{
    if i <= 0 {
        0
    } else {
        spec_plan_pos(plan, i - 1) + plan[i - 1].dump_size
    }
}

proof fn lemma_plan_pos_agree(plan: Seq<CallDescriptor>, k: int)
    requires
        plan.len() > 0,
        0 <= k <= plan.len() - 1,
    ensures
        spec_plan_pos(plan, k) == spec_plan_pos(plan.drop_last(), k),
    decreases k,
{
    if k > 0 {
        lemma_plan_pos_agree(plan, k - 1);
    }
}

proof fn lemma_plan_pos_eq_size(plan: Seq<CallDescriptor>)
    ensures
        spec_plan_pos(plan, plan.len() as int) == spec_plan_size(plan),
    decreases plan.len(),
{
    if plan.len() > 0 {
        lemma_plan_pos_eq_size(plan.drop_last());
        lemma_plan_pos_agree(plan, plan.len() - 1);
    }
}

proof fn lemma_plan_pos_le(plan: Seq<CallDescriptor>, a: int, b: int)
    requires
        0 <= a <= b,
    ensures
        spec_plan_pos(plan, a) <= spec_plan_pos(plan, b),
    decreases b - a,
{
    if a < b {
        lemma_plan_pos_le(plan, a, b - 1);
    }
}

proof fn lemma_dump_from_len(plan: Seq<CallDescriptor>, rv: Seq<Seq<Option<Seq<u8>>>>, j: int)
    requires
        spec_responses_wf(plan, rv),
        forall|i: int| 0 <= i < plan.len() ==> spec_call_wf(#[trigger] plan[i]),
        0 <= j <= plan.len(),
    ensures
        spec_dump_from(Header::Raw, plan, rv, j).len() == spec_plan_pos(plan, plan.len() as int)
            - spec_plan_pos(plan, j),
    decreases plan.len() - j,
{
    if j < plan.len() {
        lemma_dump_from_len(plan, rv, j + 1);
        lemma_segment_body_len(plan[j].dump_size as int, rv[j]);
        lemma_plan_pos_le(plan, j + 1, plan.len() as int);
    }
}

proof fn lemma_dump_from_slice(
    plan: Seq<CallDescriptor>,
    rv: Seq<Seq<Option<Seq<u8>>>>,
    j: int,
    i: int,
)
    requires
        spec_responses_wf(plan, rv),
        forall|t: int| 0 <= t < plan.len() ==> spec_call_wf(#[trigger] plan[t]),
        0 <= j <= i < plan.len(),
    ensures
        spec_dump_from(Header::Raw, plan, rv, j).subrange(
            spec_plan_pos(plan, i) - spec_plan_pos(plan, j),
            spec_plan_pos(plan, i) - spec_plan_pos(plan, j) + plan[i].dump_size,
        ) == spec_segment_body(plan[i].dump_size as int, rv[i]),
    decreases i - j,
{
    let seg = spec_segment_output(Header::Raw, plan[j].offset, plan[j].dump_size as int, rv[j]);
    lemma_segment_body_len(plan[j].dump_size as int, rv[j]);
    assert(seg =~= spec_segment_body(plan[j].dump_size as int, rv[j]));
    if j == i {
        lemma_dump_from_len(plan, rv, j + 1);
        lemma_plan_pos_le(plan, j + 1, plan.len() as int);
        assert(spec_dump_from(Header::Raw, plan, rv, j).subrange(
            0,
            plan[i].dump_size as int,
        ) =~= spec_segment_body(plan[i].dump_size as int, rv[i]));
    } else {
        lemma_dump_from_slice(plan, rv, j + 1, i);
        lemma_plan_pos_le(plan, j + 1, i);
        lemma_plan_pos_le(plan, i + 1, plan.len() as int);
        lemma_dump_from_len(plan, rv, j);
        lemma_dump_from_len(plan, rv, j + 1);
        let lo = spec_plan_pos(plan, i) - spec_plan_pos(plan, j);
        let hi = lo + plan[i].dump_size;
        assert(hi <= spec_dump_from(Header::Raw, plan, rv, j).len());
        assert(spec_dump_from(Header::Raw, plan, rv, j).subrange(lo, hi)
            =~= spec_dump_from(Header::Raw, plan, rv, j + 1).subrange(
            spec_plan_pos(plan, i) - spec_plan_pos(plan, j + 1),
            spec_plan_pos(plan, i) - spec_plan_pos(plan, j + 1) + plan[i].dump_size,
        ));
    }
}

/// Every call of a range's plan stays inside the range.
pub proof fn lemma_plan_range_bounds(start: int, end: int)
    requires
        0 <= start,
        end <= u64::MAX,
    ensures
        forall|i: int|
            0 <= i < spec_plan_range(start, end).len() ==> start <= (
            #[trigger] spec_plan_range(start, end)[i]).offset && spec_plan_range(start, end)[
                i
            ].offset + spec_plan_range(start, end)[i].dump_size <= end,
    decreases end - start,
{
    if start < end {
        let size = if end - start < MAX_QUEUE_SIZE {
            end - start
        } else {
            MAX_QUEUE_SIZE as int
        };
        lemma_plan_range_bounds(start + size, end);
        let r = spec_plan_range(start, end);
        let rest = spec_plan_range(start + size, end);
        assert forall|i: int|
            0 <= i < r.len() implies start <= (#[trigger] r[i]).offset && r[i].offset
            + r[i].dump_size <= end by {
            if i > 0 {
                assert(r[i] == rest[i - 1]);
            }
        }
    }
}

proof fn lemma_plan_pos_cons(c: CallDescriptor, rest: Seq<CallDescriptor>, i: int)
    requires
        0 <= i <= rest.len(),
    ensures
        spec_plan_pos(seq![c] + rest, i + 1) == c.dump_size + spec_plan_pos(rest, i),
    decreases i,
{
    let r = seq![c] + rest;
    if i == 0 {
        assert(r[0] == c);
        assert(spec_plan_pos(r, 1) == spec_plan_pos(r, 0) + r[0].dump_size);
        assert(spec_plan_pos(rest, 0) == 0);
    } else {
        lemma_plan_pos_cons(c, rest, i - 1);
        assert(r[i] == rest[i - 1]);
        assert(spec_plan_pos(r, i + 1) == spec_plan_pos(r, i) + r[i].dump_size);
        assert(spec_plan_pos(rest, i) == spec_plan_pos(rest, i - 1) + rest[i - 1].dump_size);
    }
}

/// Within one range's plan the calls are contiguous: call `i` begins where
/// the sizes of the calls before it end, counted from the range's start.
pub proof fn lemma_plan_range_offsets(start: int, end: int, i: int)
    requires
        0 <= start,
        end <= u64::MAX,
        0 <= i < spec_plan_range(start, end).len(),
    ensures
        spec_plan_range(start, end)[i].offset == start + spec_plan_pos(
            spec_plan_range(start, end),
            i,
        ),
    decreases end - start,
{
    let r = spec_plan_range(start, end);
    let size = if end - start < MAX_QUEUE_SIZE {
        end - start
    } else {
        MAX_QUEUE_SIZE as int
    };
    let c = CallDescriptor { offset: start as u64, dump_size: size as usize };
    let rest = spec_plan_range(start + size, end);
    if i == 0 {
        assert(r[0] == c);
    } else {
        lemma_plan_range_offsets(start + size, end, i - 1);
        lemma_plan_pos_cons(c, rest, i - 1);
        assert(r[i] == rest[i - 1]);
    }
}

/// Every call of a well-formed plan ends at or before the last range does.
proof fn lemma_plan_upper(rs: Seq<PhysRange>)
    requires
        spec_ranges_wf(rs),
        rs.len() > 0,
    ensures
        forall|i: int|
            0 <= i < spec_plan(rs).len() ==> (#[trigger] spec_plan(rs)[i]).offset + spec_plan(
                rs,
            )[i].dump_size <= rs.last().end,
    decreases rs.len(),
{
    let head = spec_plan(rs.drop_last());
    let tail = spec_plan_range(rs.last().start as int, rs.last().end as int);
    lemma_plan_range_bounds(rs.last().start as int, rs.last().end as int);
    assert(spec_ranges_wf(rs.drop_last())) by {
        assert(forall|i: int|
            0 <= i < rs.len() - 1 ==> #[trigger] rs.drop_last()[i] == rs[i]);
    }
    assert forall|i: int|
        0 <= i < spec_plan(rs).len() implies (#[trigger] spec_plan(rs)[i]).offset + spec_plan(
        rs,
    )[i].dump_size <= rs.last().end by {
        if i < head.len() {
            assert(rs.len() >= 2);
            lemma_plan_upper(rs.drop_last());
            assert(spec_plan(rs)[i] == head[i]);
            assert(rs.drop_last().last() == rs[rs.len() - 2]);
            assert(rs[rs.len() - 2].end <= rs[rs.len() - 1].start);
            assert(rs.last().start < rs.last().end);
        } else {
            assert(spec_plan(rs)[i] == tail[i - head.len()]);
        }
    }
}

/// The calls of a well-formed plan walk the address space in ascending
/// order: each call ends at or before the next one begins, so the dump
/// writes strictly ascending physical addresses.
pub proof fn lemma_plan_ascending(rs: Seq<PhysRange>)
    requires
        spec_ranges_wf(rs),
    ensures
        forall|i: int|
            0 <= i < spec_plan(rs).len() - 1 ==> (#[trigger] spec_plan(rs)[i]).offset
                + spec_plan(rs)[i].dump_size <= spec_plan(rs)[i + 1].offset,
    decreases rs.len(),
{
    if rs.len() > 0 {
        let head = spec_plan(rs.drop_last());
        let tail = spec_plan_range(rs.last().start as int, rs.last().end as int);
        assert(spec_ranges_wf(rs.drop_last())) by {
            assert(forall|i: int|
                0 <= i < rs.len() - 1 ==> #[trigger] rs.drop_last()[i] == rs[i]);
        }
        lemma_plan_ascending(rs.drop_last());
        lemma_plan_range_bounds(rs.last().start as int, rs.last().end as int);
        assert forall|i: int|
            0 <= i < spec_plan(rs).len() - 1 implies (#[trigger] spec_plan(rs)[i]).offset
            + spec_plan(rs)[i].dump_size <= spec_plan(rs)[i + 1].offset by {
            if i + 1 < head.len() {
                assert(spec_plan(rs)[i] == head[i]);
                assert(spec_plan(rs)[i + 1] == head[i + 1]);
            } else if i + 1 == head.len() {
                // the boundary pair: the last call of the earlier ranges,
                // then the first call of the last range
                assert(rs.len() >= 2);
                lemma_plan_upper(rs.drop_last());
                assert(spec_plan(rs)[i] == head[i]);
                assert(spec_plan(rs)[i + 1] == tail[0]);
                assert(rs.drop_last().last() == rs[rs.len() - 2]);
                assert(rs[rs.len() - 2].end <= rs[rs.len() - 1].start);
                assert(tail[0].offset == rs.last().start);
            } else {
                let j = i - head.len();
                assert(spec_plan(rs)[i] == tail[j]);
                assert(spec_plan(rs)[i + 1] == tail[j + 1]);
                lemma_plan_range_offsets(rs.last().start as int, rs.last().end as int, j);
                lemma_plan_range_offsets(rs.last().start as int, rs.last().end as int, j + 1);
            }
        }
    }
}

/// End-to-end ordering: with raw framing, the dump output is the calls'
/// data in plan order — its length is the ranges' total size, and the bytes
/// of call `i` stand exactly at the positions the sizes of the calls before
/// it dictate.
pub proof fn lemma_dump_ordering(rs: Seq<PhysRange>, rv: Seq<Seq<Option<Seq<u8>>>>)
    requires
        spec_ranges_wf(rs),
        spec_responses_wf(spec_plan(rs), rv),
    ensures
        spec_dump_output(Header::Raw, rs, rv).len() == spec_total_size(rs),
        forall|i: int|
            0 <= i < spec_plan(rs).len() ==> spec_dump_output(Header::Raw, rs, rv).subrange(
                spec_plan_pos(spec_plan(rs), i),
                spec_plan_pos(spec_plan(rs), i) + spec_plan(rs)[i].dump_size,
            ) == spec_segment_body(spec_plan(rs)[i].dump_size as int, rv[i]),
{
    let plan = spec_plan(rs);
    lemma_plan_wf(rs);
    lemma_dump_from_len(plan, rv, 0);
    lemma_plan_pos_eq_size(plan);
    lemma_plan_size(rs);
    assert forall|i: int| 0 <= i < plan.len() implies spec_dump_output(
        Header::Raw,
        rs,
        rv,
    ).subrange(
        spec_plan_pos(plan, i),
        spec_plan_pos(plan, i) + plan[i].dump_size,
    ) == spec_segment_body(plan[i].dump_size as int, rv[i]) by {
        lemma_dump_from_slice(plan, rv, 0, i);
    }
}

} // verus!
