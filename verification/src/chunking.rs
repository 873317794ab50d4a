//! Sizing of a probe call: how many chunks a call of a given size needs and
//! how large each chunk is.

use vstd::prelude::*;
use crate::{BUFFER_SIZE, MAX_QUEUE_SIZE, QUEUE_SIZE};

verus! {

/// Number of chunks a call of `dump_size` bytes occupies:
/// `ceil(dump_size / BUFFER_SIZE)`.
pub open spec fn spec_queue_elements(dump_size: int) -> int {
    if dump_size % (BUFFER_SIZE as int) == 0 {
        dump_size / (BUFFER_SIZE as int)
    } else {
        dump_size / (BUFFER_SIZE as int) + 1
    }
}

/// Number of queue elements (chunks) needed for a call of `dump_size` bytes.
pub fn calc_queue_elements(dump_size: usize) -> (n: usize)
    ensures
        n == spec_queue_elements(dump_size as int),
        dump_size > 0 ==> n >= 1,
        dump_size <= MAX_QUEUE_SIZE ==> n <= QUEUE_SIZE as usize,
{
    if dump_size % BUFFER_SIZE == 0 {
        dump_size / BUFFER_SIZE
    } else {
        dump_size / BUFFER_SIZE + 1
    }
}

/// Queue-sizing law: every admissible call size fits the queue, that is,
/// a call of at most `MAX_QUEUE_SIZE` bytes needs at most `QUEUE_SIZE` chunks.
pub proof fn lemma_queue_sizing(dump_size: int)
    requires
        0 < dump_size <= MAX_QUEUE_SIZE,
    ensures
        spec_queue_elements(dump_size) <= QUEUE_SIZE,
{
}

/// Size of the `i`-th chunk of a call of `dump_size` bytes: a full
/// `BUFFER_SIZE`, except the final chunk, which carries the remainder when
/// `dump_size` is not a multiple of `BUFFER_SIZE`.
pub open spec fn spec_chunk_size(dump_size: int, i: int) -> int {
    if i == spec_queue_elements(dump_size) - 1 && dump_size % (BUFFER_SIZE as int) != 0 {
        dump_size % (BUFFER_SIZE as int)
    } else {
        BUFFER_SIZE as int
    }
}

/// The per-iteration chunk sizes of a call of `dump_size` bytes.
pub fn chunk_sizes(dump_size: usize) -> (r: Vec<usize>)
    requires
        dump_size > 0,
    ensures
        r@.len() == spec_queue_elements(dump_size as int),
        forall|i: int| 0 <= i < r@.len() ==> r@[i] == spec_chunk_size(dump_size as int, i),
{
    let n: usize = calc_queue_elements(dump_size);
    let mut r: Vec<usize> = Vec::new();
    let mut i: usize = 0;
    while i < n
        invariant
            0 <= i <= n,
            n == spec_queue_elements(dump_size as int),
            r@.len() == i,
            forall|j: int| 0 <= j < i ==> r@[j] == spec_chunk_size(dump_size as int, j),
        decreases n - i,
    {
        let sz: usize = if i == n - 1 && dump_size % BUFFER_SIZE != 0 {
            dump_size % BUFFER_SIZE
        } else {
            BUFFER_SIZE
        };
        r.push(sz);
        i = i + 1;
    }
    r
}

/// Sum of the first `k` chunk sizes of a call of `dump_size` bytes.
pub open spec fn spec_chunk_prefix_sum(dump_size: int, k: int) -> int
    decreases k,
{
    if k <= 0 {
        0
    } else {
        spec_chunk_prefix_sum(dump_size, k - 1) + spec_chunk_size(dump_size, k - 1)
    }
}

/// Every chunk before the last is full, so the `k`-th chunk starts
/// `k * BUFFER_SIZE` bytes into the call.
pub proof fn lemma_chunk_prefix_sum_full(dump_size: int, k: int)
    requires
        0 < dump_size,
        0 <= k < spec_queue_elements(dump_size),
    ensures
        spec_chunk_prefix_sum(dump_size, k) == k * (BUFFER_SIZE as int),
    decreases k,
{
    if k > 0 {
        lemma_chunk_prefix_sum_full(dump_size, k - 1);
        assert(spec_chunk_size(dump_size, k - 1) == BUFFER_SIZE);
    }
}

/// Prefix sums of chunk sizes grow with the prefix.
pub proof fn lemma_chunk_prefix_sum_le(dump_size: int, a: int, b: int)
    requires
        0 < dump_size,
        0 <= a <= b,
    ensures
        spec_chunk_prefix_sum(dump_size, a) <= spec_chunk_prefix_sum(dump_size, b),
    decreases b - a,
{
    if a < b {
        lemma_chunk_prefix_sum_le(dump_size, a, b - 1);
        vstd::arithmetic::div_mod::lemma_mod_bound(dump_size, BUFFER_SIZE as int);
        assert(spec_chunk_size(dump_size, b - 1) >= 0);
    }
}

/// Chunk-size law: the per-iteration chunk sizes of a call of `dump_size`
/// bytes sum to exactly `dump_size`; every chunk but the last is a full
/// `BUFFER_SIZE`, and the last is between 1 and `BUFFER_SIZE` bytes.
pub proof fn lemma_chunk_sizes_sum(dump_size: int)
    requires
        0 < dump_size,
    ensures
        spec_chunk_prefix_sum(dump_size, spec_queue_elements(dump_size)) == dump_size,
        forall|i: int|
            0 <= i < spec_queue_elements(dump_size) - 1 ==> spec_chunk_size(dump_size, i)
                == BUFFER_SIZE,
        0 < spec_chunk_size(dump_size, spec_queue_elements(dump_size) - 1) <= BUFFER_SIZE,
{
    let n = spec_queue_elements(dump_size);
    vstd::arithmetic::div_mod::lemma_fundamental_div_mod(dump_size, BUFFER_SIZE as int);
    vstd::arithmetic::div_mod::lemma_mod_bound(dump_size, BUFFER_SIZE as int);
    assert(n >= 1);
    lemma_chunk_prefix_sum_full(dump_size, n - 1);
    assert(spec_chunk_prefix_sum(dump_size, n) == (n - 1) * (BUFFER_SIZE as int)
        + spec_chunk_size(dump_size, n - 1));
    if dump_size % (BUFFER_SIZE as int) == 0 {
        assert((n - 1) * (BUFFER_SIZE as int) == n * (BUFFER_SIZE as int) - BUFFER_SIZE) by {
            vstd::arithmetic::mul::lemma_mul_is_distributive_sub_other_way(
                BUFFER_SIZE as int,
                n,
                1,
            );
        }
        assert(n * (BUFFER_SIZE as int) == (BUFFER_SIZE as int) * n) by {
            vstd::arithmetic::mul::lemma_mul_is_commutative(n, BUFFER_SIZE as int);
        }
    } else {
        assert((n - 1) * (BUFFER_SIZE as int) == (BUFFER_SIZE as int) * (n - 1)) by {
            vstd::arithmetic::mul::lemma_mul_is_commutative(n - 1, BUFFER_SIZE as int);
        }
    }
}

} // verus!
