//! The boundary evaluator: where the chunk that starts a window of bytes ends.
//!
//! A rolling gear hash runs over the window from the minimum size on. The chunk
//! ends at the first offset where the hash, under the mask that is active at
//! that offset, has no bit set; at the maximum size at the latest.

use crate::params::{params_of, ParameterSet, Params};
use vstd::prelude::*;

verus! {

/// One step of the gear hash: shift the pattern left by one bit and add the
/// weight of the next byte, modulo 2^64.
pub open spec fn roll(pattern: u64, weight: u64) -> u64 {
    (pattern << 1).wrapping_add(weight)
}

/// The rolling pattern once the bytes at offsets `start ..= i` have been
/// taken in; zero before the first of them.
pub open spec fn rolling_pattern(gear: Seq<u64>, data: Seq<u8>, start: int, i: int) -> u64
    decreases i - start + 1,
{
    if i < start {
        0
    } else {
        roll(rolling_pattern(gear, data, start, i - 1), gear[data[i] as int])
    }
}

/// Offset `i` ends a chunk: the pattern there has no bit of the active mask.
pub open spec fn matches_at(gear: Seq<u64>, data: Seq<u8>, p: Params, i: int) -> bool {
    rolling_pattern(gear, data, p.min_size as int, i) & p.mask_at(i) == 0
}

/// The first matching offset in `i .. limit`, or `limit` where there is none.
pub open spec fn first_match(gear: Seq<u64>, data: Seq<u8>, p: Params, i: int, limit: int) -> int
    decreases limit - i,
{
    if i >= limit {
        limit
    } else if matches_at(gear, data, p, i) {
        i
    } else {
        first_match(gear, data, p, i + 1, limit)
    }
}

/// The offset up to which offsets of a window are tested: its length, and the
/// maximum size at most.
pub open spec fn cutoff(data: Seq<u8>, p: Params) -> int {
    if p.max_size < data.len() {
        p.max_size as int
    } else {
        data.len() as int
    }
}

/// The length of the chunk that starts the window `data`.
///
/// A window no longer than the minimum size is one chunk. A longer one ends at
/// its first matching offset from the minimum size on, or at the cutoff.
pub open spec fn boundary(gear: Seq<u64>, data: Seq<u8>, p: Params) -> int {
    if data.len() <= p.min_size {
        data.len() as int
    } else {
        first_match(gear, data, p, p.min_size as int, cutoff(data, p))
    }
}

/// The first match lies between the start of the search and its limit.
pub proof fn lemma_first_match_range(gear: Seq<u64>, data: Seq<u8>, p: Params, i: int, limit: int)
    requires
        i <= limit,
    ensures
        i <= first_match(gear, data, p, i, limit) <= limit,
    decreases limit - i,
{
    if i < limit && !matches_at(gear, data, p, i) {
        lemma_first_match_range(gear, data, p, i + 1, limit);
    }
}

/// No offset before the first match matches, and the first match itself does
/// unless it is the limit.
pub proof fn lemma_first_match_is_first(
    gear: Seq<u64>,
    data: Seq<u8>,
    p: Params,
    i: int,
    limit: int,
)
    requires
        i <= limit,
    ensures
        forall|k: int|
            i <= k < first_match(gear, data, p, i, limit) ==> !matches_at(gear, data, p, k),
        first_match(gear, data, p, i, limit) < limit ==> matches_at(
            gear,
            data,
            p,
            first_match(gear, data, p, i, limit),
        ),
    decreases limit - i,
{
    if i < limit && !matches_at(gear, data, p, i) {
        lemma_first_match_is_first(gear, data, p, i + 1, limit);
    }
}

/// An offset with no match before it, which matches or is the limit, is the
/// first match.
pub proof fn lemma_first_match_unique(
    gear: Seq<u64>,
    data: Seq<u8>,
    p: Params,
    i: int,
    limit: int,
    b: int,
)
    requires
        i <= b <= limit,
        forall|k: int| i <= k < b ==> !matches_at(gear, data, p, k),
        b < limit ==> matches_at(gear, data, p, b),
    ensures
        first_match(gear, data, p, i, limit) == b,
    decreases limit - i,
{
    if i < b {
        lemma_first_match_unique(gear, data, p, i + 1, limit, b);
    }
}

/// A window no longer than the minimum size is one chunk.
pub proof fn lemma_boundary_short_window(gear: Seq<u64>, data: Seq<u8>, p: Params)
    requires
        data.len() <= p.min_size,
    ensures
        boundary(gear, data, p) == data.len(),
{
}

/// A chunk never exceeds its window nor the maximum size; it reaches the
/// minimum size unless it is the whole window; and it is empty only where the
/// window is empty or the minimum size is zero.
pub proof fn lemma_boundary_bounds(gear: Seq<u64>, data: Seq<u8>, p: Params)
    requires
        p.valid(),
    ensures
        0 <= boundary(gear, data, p) <= data.len(),
        boundary(gear, data, p) <= p.max_size,
        boundary(gear, data, p) >= p.min_size || boundary(gear, data, p) == data.len(),
        data.len() > 0 && p.min_size > 0 ==> boundary(gear, data, p) > 0,
{
    if data.len() > p.min_size {
        lemma_first_match_range(gear, data, p, p.min_size as int, cutoff(data, p));
    }
}

/// In a window longer than the minimum size the chunk ends at the first
/// matching offset from the minimum size on, or at the cutoff.
pub proof fn lemma_boundary_is_first_match(gear: Seq<u64>, data: Seq<u8>, p: Params)
    requires
        p.valid(),
        data.len() > p.min_size,
    ensures
        p.min_size <= boundary(gear, data, p) <= cutoff(data, p),
        forall|k: int|
            p.min_size <= k < boundary(gear, data, p) ==> !matches_at(gear, data, p, k),
        boundary(gear, data, p) < cutoff(data, p) ==> matches_at(
            gear,
            data,
            p,
            boundary(gear, data, p),
        ),
{
    lemma_first_match_range(gear, data, p, p.min_size as int, cutoff(data, p));
    lemma_first_match_is_first(gear, data, p, p.min_size as int, cutoff(data, p));
}

/// An offset below the cutoff that matches, with no match between the minimum
/// size and it, is the chunk's end.
pub proof fn lemma_boundary_at_first_match(gear: Seq<u64>, data: Seq<u8>, p: Params, k: int)
    requires
        p.valid(),
        p.min_size <= k < cutoff(data, p),
        matches_at(gear, data, p, k),
        forall|j: int| p.min_size <= j < k ==> !matches_at(gear, data, p, j),
    ensures
        boundary(gear, data, p) == k,
{
    lemma_first_match_unique(gear, data, p, p.min_size as int, cutoff(data, p), k);
}

/// Where no offset between the minimum size and the cutoff matches, the chunk
/// is cut at the cutoff: at the maximum size, or at the end of a shorter window.
pub proof fn lemma_boundary_without_match(gear: Seq<u64>, data: Seq<u8>, p: Params)
    requires
        p.valid(),
        data.len() > p.min_size,
        forall|k: int| p.min_size <= k < cutoff(data, p) ==> !matches_at(gear, data, p, k),
    ensures
        boundary(gear, data, p) == cutoff(data, p),
{
    lemma_first_match_unique(
        gear,
        data,
        p,
        p.min_size as int,
        cutoff(data, p),
        cutoff(data, p),
    );
}

/// The rolling pattern at an offset depends on the bytes from the start of the
/// scan up to that offset alone.
pub proof fn lemma_pattern_local(gear: Seq<u64>, a: Seq<u8>, b: Seq<u8>, start: int, i: int)
    requires
        forall|j: int| start <= j <= i ==> a[j] == b[j],
    ensures
        rolling_pattern(gear, a, start, i) == rolling_pattern(gear, b, start, i),
    decreases i - start + 1,
{
    if i >= start {
        lemma_pattern_local(gear, a, b, start, i - 1);
    }
}

/// Two searches over windows that agree below the limit find the same offset.
proof fn lemma_first_match_local(
    gear: Seq<u64>,
    a: Seq<u8>,
    b: Seq<u8>,
    p: Params,
    i: int,
    limit: int,
)
    requires
        p.min_size <= i,
        forall|j: int| p.min_size <= j < limit ==> a[j] == b[j],
    ensures
        first_match(gear, a, p, i, limit) == first_match(gear, b, p, i, limit),
    decreases limit - i,
{
    if i < limit {
        lemma_pattern_local(gear, a, b, p.min_size as int, i);
        lemma_first_match_local(gear, a, b, p, i + 1, limit);
    }
}

/// Two windows that agree on their first `k` bytes, with `k` no less than the
/// maximum size, start with chunks of the same length: the search never looks
/// past the maximum size.
pub proof fn lemma_boundary_local(gear: Seq<u64>, a: Seq<u8>, b: Seq<u8>, p: Params, k: int)
    requires
        p.valid(),
        p.max_size <= k <= a.len(),
        k <= b.len(),
        a.take(k) == b.take(k),
    ensures
        boundary(gear, a, p) == boundary(gear, b, p),
{
    assert forall|j: int| 0 <= j < k implies a[j] == b[j] by {
        assert(a[j] == a.take(k)[j]);
        assert(b[j] == b.take(k)[j]);
    }
    let limit = p.max_size as int;
    lemma_first_match_local(gear, a, b, p, p.min_size as int, limit);
    lemma_first_match_range(gear, a, p, p.min_size as int, limit);
}

/// A window that holds the first bytes of what is left of a stream, at least
/// as many as the maximum size, starts with the same chunk as the rest of the
/// stream itself.
pub proof fn lemma_window_suffices(gear: Seq<u64>, window: Seq<u8>, rest: Seq<u8>, p: Params)
    requires
        p.valid(),
        p.max_size <= window.len() <= rest.len(),
        rest.take(window.len() as int) == window,
    ensures
        boundary(gear, window, p) == boundary(gear, rest, p),
        rest.take(boundary(gear, rest, p)) == window.take(boundary(gear, window, p)),
{
    let k = window.len() as int;
    assert(window.take(k) == window);
    lemma_boundary_local(gear, window, rest, p, k);
    lemma_boundary_bounds(gear, window, p);
}


/// Scans the offsets `*i .. barrier` under one mask. Returns `true` with `*i` at
/// the first match, or `false` with `*i` at the barrier.
fn scan(
    data: &[u8],
    gear: &[u64; 256],
    i: &mut usize,
    pattern: &mut u64,
    barrier: usize,
    mask: u64,
    Ghost(p): Ghost<Params>,
) -> (found: bool)
    requires
        p.min_size <= *old(i),
        barrier <= cutoff(data@, p),
        *old(pattern) == rolling_pattern(gear@, data@, p.min_size as int, *old(i) - 1),
        forall|k: int| *old(i) <= k < barrier ==> p.mask_at(k) == mask,
    ensures
        *old(i) <= *final(i),
        !found ==> *final(pattern) == rolling_pattern(
            gear@,
            data@,
            p.min_size as int,
            *final(i) - 1,
        ),
        found ==> *final(i) < barrier && first_match(
            gear@,
            data@,
            p,
            *old(i) as int,
            cutoff(data@, p),
        ) == *final(i),
        !found ==> *final(i) == (if *old(i) < barrier {
            barrier
        } else {
            *old(i)
        }) && first_match(gear@, data@, p, *old(i) as int, cutoff(data@, p)) == first_match(
            gear@,
            data@,
            p,
            *final(i) as int,
            cutoff(data@, p),
        ),
{
    while *i < barrier
        invariant
            p.min_size <= *old(i) <= *i,
            *old(i) < barrier ==> *i <= barrier,
            *old(i) >= barrier ==> *i == *old(i),
            barrier <= cutoff(data@, p),
            *pattern == rolling_pattern(gear@, data@, p.min_size as int, *i - 1),
            forall|k: int| *old(i) <= k < barrier ==> p.mask_at(k) == mask,
            first_match(gear@, data@, p, *old(i) as int, cutoff(data@, p)) == first_match(
                gear@,
                data@,
                p,
                *i as int,
                cutoff(data@, p),
            ),
        decreases barrier - *i,
    {
        let weight = gear[data[*i] as usize];
        *pattern = (*pattern << 1).wrapping_add(weight);
        if (*pattern & mask) == 0 {
            return true;
        }
        *i += 1;
    }
    false
}

/// Finds the end of the chunk that starts the window `data`.
///
/// `gear` holds one weight for each byte value. The sizes must be ordered as
/// in a valid parameter set.
pub fn chunk_length(
    data: &[u8],
    gear: &[u64; 256],
    norm_size: usize,
    min_size: usize,
    max_size: usize,
    mask_1: u64,
    mask_2: u64,
) -> (b: usize)
    requires
        min_size <= norm_size <= max_size,
    ensures
        b == boundary(gear@, data@, params_of(norm_size, min_size, max_size, mask_1, mask_2)),
        data@.len() <= min_size ==> b == data@.len(),
        data@.len() > min_size ==> min_size <= b,
        b <= data@.len(),
        b <= max_size,
{
    let ghost p = params_of(norm_size, min_size, max_size, mask_1, mask_2);
    proof {
        lemma_boundary_bounds(gear@, data@, p);
    }
    let data_length = data.len();
    if data_length <= min_size {
        return data_length;
    }
    let mut i: usize = min_size;
    let mut pattern: u64 = 0;
    let barrier_1 = if norm_size < data_length {
        norm_size
    } else {
        data_length
    };
    let barrier_2 = if max_size < data_length {
        max_size
    } else {
        data_length
    };
    if scan(data, gear, &mut i, &mut pattern, barrier_1, mask_1, Ghost(p)) {
        return i;
    }
    if scan(data, gear, &mut i, &mut pattern, barrier_2, mask_2, Ghost(p)) {
        return i;
    }
    i
}

/// Finds the end of the chunk that starts the window `data`, under a
/// parameter set.
pub fn chunk_end(data: &[u8], gear: &[u64; 256], p: &ParameterSet) -> (b: usize)
    ensures
        b == boundary(gear@, data@, p@),
        b <= data@.len(),
        b <= p@.max_size,
{
    chunk_length(data, gear, p.norm_size(), p.min_size(), p.max_size(), p.mask_1(), p.mask_2())
}

} // verus!
