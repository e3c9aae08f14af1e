//! Chunking a whole byte sequence at once, and what holds of every chunking.

use crate::boundary::{
    boundary, lemma_boundary_bounds, lemma_boundary_local, lemma_window_suffices,
};
use crate::chunker::{phase_at, Chunker, Pull, Session, PHASE_SWITCH};
use crate::params::{coarse_phase, fine_phase};
use vstd::prelude::*;
use vstd::slice::{slice_subrange, slice_to_vec};

verus! {

/// The chunks of the stream `data`, where `index` chunks were cut before it:
/// the chunk that starts the stream, then the chunks of what follows it.
pub open spec fn stream_chunks(gear: Seq<u64>, data: Seq<u8>, index: nat) -> Seq<Seq<u8>>
    decreases data.len(),
    via stream_chunks_terminates
{
    if data.len() == 0 {
        Seq::empty()
    } else {
        let b = boundary(gear, data, phase_at(index));
        seq![data.take(b)] + stream_chunks(gear, data.skip(b), index + 1)
    }
}

#[via_fn]
proof fn stream_chunks_terminates(gear: Seq<u64>, data: Seq<u8>, index: nat) {
    if data.len() != 0 {
        lemma_boundary_bounds(gear, data, phase_at(index));
    }
}

/// Every chunk is non-empty and within the maximum size of the phase in which
/// it was cut, and every chunk but the last reaches that phase's minimum size.
/// The chunk at position `j` is cut in the phase of index `index + j`.
pub open spec fn respects_bounds(chunks: Seq<Seq<u8>>, index: nat) -> bool {
    forall|j: int|
        0 <= j < chunks.len() ==> {
            &&& 0 < (#[trigger] chunks[j]).len() <= phase_at((index + j) as nat).max_size
            &&& j + 1 < chunks.len() ==> phase_at((index + j) as nat).min_size <= chunks[j].len()
        }
}

/// The chunks of a stream, put together in order, are the stream.
pub proof fn lemma_stream_chunks_cover(gear: Seq<u64>, data: Seq<u8>, index: nat)
    ensures
        stream_chunks(gear, data, index).flatten() == data,
    decreases data.len(),
{
    if data.len() != 0 {
        let b = boundary(gear, data, phase_at(index));
        lemma_boundary_bounds(gear, data, phase_at(index));
        let rest = stream_chunks(gear, data.skip(b), index + 1);
        lemma_stream_chunks_cover(gear, data.skip(b), index + 1);
        assert((seq![data.take(b)] + rest).drop_first() =~= rest);
    }
}

/// The chunks of a stream respect the bounds of their phases.
pub proof fn lemma_stream_chunks_bounded(gear: Seq<u64>, data: Seq<u8>, index: nat)
    ensures
        respects_bounds(stream_chunks(gear, data, index), index),
    decreases data.len(),
{
    if data.len() != 0 {
        let p = phase_at(index);
        let b = boundary(gear, data, p);
        lemma_boundary_bounds(gear, data, p);
        let rest = stream_chunks(gear, data.skip(b), index + 1);
        lemma_stream_chunks_bounded(gear, data.skip(b), index + 1);
        let all = seq![data.take(b)] + rest;
        assert forall|j: int| 0 <= j < all.len() implies {
            &&& 0 < (#[trigger] all[j]).len() <= phase_at((index + j) as nat).max_size
            &&& j + 1 < all.len() ==> phase_at((index + j) as nat).min_size <= all[j].len()
        } by {
            if j > 0 {
                assert(all[j] == rest[j - 1]);
            }
        }
    }
}

/// The first hundred chunks of a stream keep to the sizes of the fine phase,
/// the later ones to those of the coarse phase; only the last chunk of the
/// stream may fall short of the minimum size.
pub proof fn lemma_phase_switch(gear: Seq<u64>, data: Seq<u8>, j: int)
    requires
        0 <= j < stream_chunks(gear, data, 0).len(),
    ensures
        j < PHASE_SWITCH ==> 0 < stream_chunks(gear, data, 0)[j].len() <= fine_phase().max_size,
        j >= PHASE_SWITCH ==> 0 < stream_chunks(gear, data, 0)[j].len()
            <= coarse_phase().max_size,
        j < PHASE_SWITCH && j + 1 < stream_chunks(gear, data, 0).len() ==> fine_phase().min_size
            <= stream_chunks(gear, data, 0)[j].len(),
        j >= PHASE_SWITCH && j + 1 < stream_chunks(gear, data, 0).len()
            ==> coarse_phase().min_size <= stream_chunks(gear, data, 0)[j].len(),
{
    lemma_stream_chunks_bounded(gear, data, 0);
}

/// The number of bytes that stand before the chunk at position `j`.
pub open spec fn start_of(chunks: Seq<Seq<u8>>, j: int) -> int {
    chunks.take(j).flatten().len() as int
}

/// Behind a first chunk, every later chunk starts that chunk's length later
/// than it does among the chunks that follow the first.
proof fn lemma_start_of_step(first: Seq<u8>, rest: Seq<Seq<u8>>, j: int)
    requires
        1 <= j <= rest.len() + 1,
    ensures
        start_of(seq![first] + rest, j) == first.len() + start_of(rest, j - 1),
{
    let all = seq![first] + rest;
    assert(all.take(j) =~= seq![first] + rest.take(j - 1));
    vstd::seq_lib::lemma_flatten_concat(seq![first], rest.take(j - 1));
    seq![first].lemma_flatten_one_element();
}

/// From any chunk on, the chunks of a stream are the chunks of the bytes that
/// are left at that chunk's start, cut with the count of chunks before it.
pub proof fn lemma_stream_chunks_suffix(gear: Seq<u64>, data: Seq<u8>, index: nat, j: int)
    requires
        0 <= j <= stream_chunks(gear, data, index).len(),
    ensures
        0 <= start_of(stream_chunks(gear, data, index), j) <= data.len(),
        stream_chunks(gear, data, index).skip(j) == stream_chunks(
            gear,
            data.skip(start_of(stream_chunks(gear, data, index), j)),
            (index + j) as nat,
        ),
    decreases j,
{
    if j == 0 {
        assert(data.skip(0) =~= data);
    } else {
        let b = boundary(gear, data, phase_at(index));
        lemma_boundary_bounds(gear, data, phase_at(index));
        let rest = stream_chunks(gear, data.skip(b), index + 1);
        lemma_stream_chunks_suffix(gear, data.skip(b), index + 1, j - 1);
        lemma_start_of_step(data.take(b), rest, j);
        assert(data.skip(b).skip(start_of(rest, j - 1)) =~= data.skip(b + start_of(rest, j - 1)));
    }
}

/// Once the coarse phase has begun, the count of chunks cut so far no longer
/// bears on how a stream is cut.
pub proof fn lemma_coarse_chunks_alike(gear: Seq<u64>, data: Seq<u8>, i: nat, j: nat)
    requires
        i >= PHASE_SWITCH,
        j >= PHASE_SWITCH,
    ensures
        stream_chunks(gear, data, i) == stream_chunks(gear, data, j),
    decreases data.len(),
{
    if data.len() != 0 {
        let b = boundary(gear, data, phase_at(i));
        lemma_boundary_bounds(gear, data, phase_at(i));
        lemma_coarse_chunks_alike(gear, data.skip(b), i + 1, j + 1);
    }
}

/// Chunks before an edit stay as they are. Where two streams agree on their
/// first `k` bytes, they share every chunk up to position `j`, provided that
/// the window of chunk `j`, from its start to the maximum size of its phase,
/// lies within those `k` bytes.
pub proof fn lemma_chunks_before_edit(
    gear: Seq<u64>,
    a: Seq<u8>,
    b: Seq<u8>,
    index: nat,
    k: int,
    j: int,
)
    requires
        0 <= k <= a.len(),
        k <= b.len(),
        a.take(k) == b.take(k),
        0 <= j < stream_chunks(gear, a, index).len(),
        start_of(stream_chunks(gear, a, index), j) + phase_at((index + j) as nat).max_size <= k,
    ensures
        j < stream_chunks(gear, b, index).len(),
        stream_chunks(gear, b, index).take(j + 1) == stream_chunks(gear, a, index).take(j + 1),
    decreases j,
{
    let p = phase_at(index);
    let cut = boundary(gear, a, p);
    let rest_a = stream_chunks(gear, a.skip(cut), index + 1);
    let rest_b = stream_chunks(gear, b.skip(cut), index + 1);
    lemma_boundary_bounds(gear, a, p);
    lemma_boundary_local(gear, a, b, p, k);
    assert(a.take(cut) =~= a.take(k).take(cut));
    assert(b.take(cut) =~= b.take(k).take(cut));
    if j > 0 {
        lemma_start_of_step(a.take(cut), rest_a, j);
        assert(a.skip(cut).take(k - cut) =~= a.take(k).skip(cut));
        assert(b.skip(cut).take(k - cut) =~= b.take(k).skip(cut));
        lemma_chunks_before_edit(gear, a.skip(cut), b.skip(cut), index + 1, k - cut, j - 1);
        assert(stream_chunks(gear, b, index).take(j + 1) =~= seq![b.take(cut)] + rest_b.take(j));
    }
}

/// Chunks after an edit come back. Where two chunkings each reach a chunk
/// start with the same bytes left, in the same phase schedule, they agree on
/// every chunk from there on.
pub proof fn lemma_chunks_after_resync(gear: Seq<u64>, a: Seq<u8>, b: Seq<u8>, i: int, j: int)
    requires
        0 <= i <= stream_chunks(gear, a, 0).len(),
        0 <= j <= stream_chunks(gear, b, 0).len(),
        a.skip(start_of(stream_chunks(gear, a, 0), i)) == b.skip(
            start_of(stream_chunks(gear, b, 0), j),
        ),
        i == j || (i >= PHASE_SWITCH && j >= PHASE_SWITCH),
    ensures
        stream_chunks(gear, a, 0).skip(i) == stream_chunks(gear, b, 0).skip(j),
{
    lemma_stream_chunks_suffix(gear, a, 0, i);
    lemma_stream_chunks_suffix(gear, b, 0, j);
    if i != j {
        lemma_coarse_chunks_alike(
            gear,
            a.skip(start_of(stream_chunks(gear, a, 0), i)),
            i as nat,
            j as nat,
        );
    }
}

/// A step of the engine cuts the chunk that starts the rest of the stream,
/// provided that its window holds the first bytes of that rest: all of them,
/// or at least as many as the maximum size of the phase.
pub proof fn lemma_adequate_step(s: Session, bytes: Seq<u8>, rest: Seq<u8>)
    requires
        0 < s.window(bytes).len() <= rest.len(),
        rest.take(s.window(bytes).len() as int) == s.window(bytes),
        s.window(bytes).len() >= s.phase().max_size || s.window(bytes).len() == rest.len(),
    ensures
        s.emits(bytes) == Some(stream_chunks(s.gear, rest, s.counter()).first()),
        stream_chunks(s.gear, rest, s.counter()).drop_first() == stream_chunks(
            s.gear,
            s.after(bytes).buffer + rest.skip(s.window(bytes).len() as int),
            s.counter() + 1,
        ),
{
    let window = s.window(bytes);
    let p = s.phase();
    if window.len() >= p.max_size {
        lemma_window_suffices(s.gear, window, rest, p);
    } else {
        assert(rest.take(rest.len() as int) =~= rest);
    }
    let cut = boundary(s.gear, rest, p);
    lemma_boundary_bounds(s.gear, window, p);
    assert(window.skip(cut) + rest.skip(window.len() as int) =~= rest.skip(cut));
}

/// Once the source is exhausted and the buffer empty, the stream has ended for
/// good: a further step with an empty read emits nothing and changes nothing.
pub proof fn lemma_end_is_final(s: Session)
    requires
        s.buffer.len() == 0,
    ensures
        s.emits(Seq::empty()) == None::<Seq<u8>>,
        s.after(Seq::empty()) == s,
{
}

/// A step depends on the gear table, the buffer, the count of chunks and the
/// bytes read, and on nothing else: not on what the chunks held, nor on how
/// far into the stream the engine is.
pub proof fn lemma_step_deterministic(s: Session, t: Session, bytes: Seq<u8>)
    requires
        s.gear == t.gear,
        s.buffer == t.buffer,
        s.counter() == t.counter(),
    ensures
        s.emits(bytes) == t.emits(bytes),
        s.after(bytes).buffer == t.after(bytes).buffer,
        s.after(bytes).counter() == t.after(bytes).counter(),
{
}

/// Splits a whole byte sequence into its chunks.
///
/// An engine is stepped over the bytes and fed what it asks for, as over any
/// other source. The first hundred chunks are cut in the fine phase, the
/// others in the coarse phase. The result is a function of the gear table and
/// the bytes alone; put together, the chunks are the bytes; and each respects
/// the bounds of its phase.
pub fn data_chunks(gear: &[u64; 256], data: &[u8]) -> (chunks: Vec<Vec<u8>>)
    ensures
        chunks.deep_view() == stream_chunks(gear@, data@, 0),
        chunks.deep_view().flatten() == data@,
        respects_bounds(chunks.deep_view(), 0),
{
    let mut engine = Chunker::new(gear);
    let mut chunks: Vec<Vec<u8>> = Vec::new();
    let mut at: usize = 0;
    proof {
        assert(engine@.buffer + data@.skip(0) =~= data@);
    }
    loop
        invariant
            at <= data.len(),
            !engine@.failed,
            engine@.gear == gear@,
            engine@.chunks == chunks.deep_view(),
            chunks.deep_view() + stream_chunks(
                gear@,
                engine@.buffer + data@.skip(at as int),
                chunks.len() as nat,
            ) == stream_chunks(gear@, data@, 0),
        ensures
            chunks.deep_view() == stream_chunks(gear@, data@, 0),
        decreases data.len() - at + engine@.buffer.len(),
    {
        let ghost before = engine@;
        let ghost rest = before.buffer + data@.skip(at as int);
        let left = data.len() - at;
        let ahead = engine.read_ahead();
        let want = if ahead < left {
            ahead
        } else {
            left
        };
        let bytes = slice_to_vec(slice_subrange(data, at, at + want));
        let ghost read = bytes@;
        proof {
            assert(rest.take(before.window(read).len() as int) =~= before.window(read));
            assert(rest.skip(before.window(read).len() as int) =~= data@.skip(at + want));
            if before.window(read).len() > 0 {
                lemma_adequate_step(before, read, rest);
            }
        }
        at += want;
        match engine.next(Pull::Read(bytes)) {
            Ok(Some(chunk)) => {
                let ghost emitted = chunks.deep_view();
                chunks.push(chunk);
                proof {
                    let all = stream_chunks(gear@, rest, emitted.len());
                    lemma_boundary_bounds(gear@, before.window(read), before.phase());
                    assert(chunk.deep_view() =~= all.first());
                }
            },
            Ok(None) => {
                break ;
            },
            Err(_) => {
                proof {
                    assert(false);
                }
                break ;
            },
        }
    }
    proof {
        lemma_stream_chunks_cover(gear@, data@, 0);
        lemma_stream_chunks_bounded(gear@, data@, 0);
    }
    chunks
}

} // verus!
