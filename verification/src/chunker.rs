//! The chunking engine: a stream splitter driven from outside.
//!
//! The engine owns the bytes that were read and not yet emitted, and counts the
//! chunks it has emitted. Its caller owns the byte source: before each step it
//! asks the engine how much to read, reads, and hands over what the source
//! gave. The engine answers with the next chunk, or with the end of the stream.

use crate::boundary::{boundary, chunk_end, lemma_boundary_bounds};
use crate::params::{coarse_phase, fine_phase, ParameterSet, Params};
use vstd::prelude::*;

verus! {

/// The number of chunks that are cut in the fine phase before the coarse phase begins.
pub const PHASE_SWITCH: usize = 100;

/// The number of bytes that the engine asks for when its buffer runs low.
pub const READ_AHEAD: usize = 65536;

/// The phase in which the chunk with the given index is cut.
pub open spec fn phase_at(index: nat) -> Params {
    if index < PHASE_SWITCH {
        fine_phase()
    } else {
        coarse_phase()
    }
}

/// The phase after `counter` chunks, where the count stops at `usize::MAX`.
pub fn phase_for(counter: usize) -> (p: ParameterSet)
    ensures
        p@ == phase_at(counter as nat),
        p@.valid(),
        0 < p@.min_size,
        p@.max_size <= READ_AHEAD,
{
    if counter < PHASE_SWITCH {
        ParameterSet::fine()
    } else {
        ParameterSet::coarse()
    }
}

/// What the byte source answered to one read.
pub enum Pull {
    /// The bytes that were read; none at the end of the stream, or where no read was due.
    Read(Vec<u8>),
    /// The read failed.
    Failed,
}

/// The byte source failed to deliver bytes.
#[derive(Clone, Copy, Debug, PartialEq, Eq, Structural)]
pub struct SourceReadError;

/// The state of a chunking session, with its history.
pub struct Session {
    /// The weight of each byte value.
    pub gear: Seq<u64>,
    /// The bytes read and not yet emitted.
    pub buffer: Seq<u8>,
    /// The chunks emitted so far, in stream order.
    pub chunks: Seq<Seq<u8>>,
    /// All bytes read so far.
    pub source: Seq<u8>,
    /// A read has failed: the session is over.
    pub failed: bool,
}

impl Session {
    /// The number of chunks emitted so far.
    pub open spec fn counter(self) -> nat {
        self.chunks.len()
    }

    /// The phase in which the next chunk is cut.
    pub open spec fn phase(self) -> Params {
        phase_at(self.counter())
    }

    /// The window in which the next chunk is sought once `bytes` were read.
    pub open spec fn window(self, bytes: Seq<u8>) -> Seq<u8> {
        self.buffer + bytes
    }

    /// The length of the next chunk once `bytes` were read.
    pub open spec fn cut(self, bytes: Seq<u8>) -> int {
        boundary(self.gear, self.window(bytes), self.phase())
    }

    /// The chunk that a step emits once `bytes` were read: none where the
    /// window is empty.
    pub open spec fn emits(self, bytes: Seq<u8>) -> Option<Seq<u8>> {
        if self.window(bytes).len() == 0 {
            None
        } else {
            Some(self.window(bytes).take(self.cut(bytes)))
        }
    }

    /// The session after a step in which `bytes` were read.
    pub open spec fn after(self, bytes: Seq<u8>) -> Session {
        if self.window(bytes).len() == 0 {
            Session { source: self.source + bytes, ..self }
        } else {
            Session {
                buffer: self.window(bytes).skip(self.cut(bytes)),
                chunks: self.chunks.push(self.window(bytes).take(self.cut(bytes))),
                source: self.source + bytes,
                ..self
            }
        }
    }

    /// The session after a read has failed: over, with nothing else changed.
    pub open spec fn broken(self) -> Session {
        Session { failed: true, ..self }
    }

    /// The chunks emitted so far, followed by the buffer, are the bytes read so
    /// far: nothing is lost, repeated or reordered.
    pub open spec fn covered(self) -> bool {
        self.chunks.flatten() + self.buffer == self.source
    }

    /// No emitted chunk is empty, and none exceeds the maximum size of the
    /// phase in which it was cut.
    pub open spec fn bounded(self) -> bool {
        forall|j: int|
            0 <= j < self.chunks.len() ==> 0 < (#[trigger] self.chunks[j]).len() <= phase_at(
                j as nat,
            ).max_size
    }
}

/// The chunking engine.
pub struct Chunker<'a> {
    gear: &'a [u64; 256],
    section: Vec<u8>,
    counter: usize,
    failed: bool,
    chunks: Ghost<Seq<Seq<u8>>>,
    source: Ghost<Seq<u8>>,
}

impl<'a> View for Chunker<'a> {
    type V = Session;

    closed spec fn view(&self) -> Session {
        Session {
            gear: self.gear@,
            buffer: self.section@,
            chunks: self.chunks@,
            source: self.source@,
            failed: self.failed,
        }
    }
}

impl<'a> Chunker<'a> {
    #[verifier::type_invariant]
    spec fn inv(self) -> bool {
        &&& self.counter == if self.chunks@.len() < usize::MAX {
            self.chunks@.len() as int
        } else {
            usize::MAX as int
        }
        &&& self@.covered()
        &&& self@.bounded()
    }

    /// Starts a session over the given gear table: nothing read, nothing emitted.
    pub fn new(gear: &'a [u64; 256]) -> (engine: Chunker<'a>)
        ensures
            engine@ == (Session {
                gear: gear@,
                buffer: Seq::empty(),
                chunks: Seq::empty(),
                source: Seq::empty(),
                failed: false,
            }),
            engine@.covered(),
            engine@.bounded(),
    {
        Chunker {
            gear,
            section: Vec::new(),
            counter: 0,
            failed: false,
            chunks: Ghost(Seq::empty()),
            source: Ghost(Seq::empty()),
        }
    }

    /// Whether a read has failed, which ends the session.
    pub fn failed(&self) -> (b: bool)
        ensures
            b == self@.failed,
    {
        self.failed
    }

    /// The number of chunks emitted so far; `usize::MAX` stands for that many
    /// and more.
    pub fn counter(&self) -> (n: usize)
        ensures
            n == if self@.counter() < usize::MAX {
                self@.counter() as int
            } else {
                usize::MAX as int
            },
    {
        proof {
            use_type_invariant(self);
        }
        self.counter
    }

    /// The number of bytes read and not yet emitted.
    pub fn buffered(&self) -> (n: usize)
        ensures
            n == self@.buffer.len(),
    {
        self.section.len()
    }

    /// The phase in which the next chunk is cut.
    pub fn phase(&self) -> (p: ParameterSet)
        ensures
            p@ == self@.phase(),
    {
        proof {
            use_type_invariant(self);
        }
        phase_for(self.counter)
    }

    /// The number of bytes to ask of the source before the next step: none
    /// while the buffer holds a whole window of the phase, else `READ_AHEAD`,
    /// which is a whole window of either phase.
    pub fn read_ahead(&self) -> (n: usize)
        ensures
            n == if self@.buffer.len() < self@.phase().max_size {
                READ_AHEAD
            } else {
                0
            },
            n == 0 || n >= self@.phase().max_size,
    {
        let phase = self.phase();
        if self.section.len() < phase.max_size() {
            READ_AHEAD
        } else {
            0
        }
    }

    /// One step: takes what the source answered and emits the next chunk.
    ///
    /// A failed read is reported and ends the session: every later step
    /// reports the failure again, and nothing else changes. Bytes that were
    /// read join the buffer; the chunk that starts the buffer is cut in the
    /// phase of the count of chunks, leaves the buffer and is returned. An
    /// empty buffer after an empty read ends the stream: then the chunks
    /// emitted are all that was read. The chunk and the new state depend on the
    /// old state and the bytes alone.
    pub fn next(&mut self, pull: Pull) -> (r: Result<Option<Vec<u8>>, SourceReadError>)
        ensures
            old(self)@.failed || pull is Failed ==> r is Err && final(self)@ == old(self)@.broken(),
            pull matches Pull::Read(bytes) ==> old(self)@.failed || {
                &&& final(self)@ == old(self)@.after(bytes@)
                &&& match old(self)@.emits(bytes@) {
                    None => r == Ok::<Option<Vec<u8>>, SourceReadError>(None),
                    Some(c) => r is Ok && r->Ok_0 is Some && r->Ok_0->Some_0@ == c,
                }
            },
            final(self)@.covered(),
            final(self)@.bounded(),
            r matches Ok(None) ==> final(self)@.chunks.flatten() == final(self)@.source,
            r matches Ok(Some(c)) ==> {
                &&& 0 < c@.len() <= old(self)@.phase().max_size
                &&& old(self)@.phase().min_size <= c@.len() || final(self)@.buffer.len() == 0
            },
    {
        proof {
            use_type_invariant(&*self);
        }
        if self.failed {
            return Err(SourceReadError);
        }
        match pull {
            Pull::Failed => {
                self.failed = true;
                Err(SourceReadError)
            },
            Pull::Read(bytes) => {
                let mut state = Chunker::new(self.gear);
                core::mem::swap(self, &mut state);
                let Chunker { gear, section, counter, failed, chunks, source } = state;
                let mut window = section;
                let mut bytes = bytes;
                let ghost source = source@ + bytes@;
                window.append(&mut bytes);
                if window.len() == 0 {
                    *self = Chunker {
                        gear,
                        section: window,
                        counter,
                        failed,
                        chunks,
                        source: Ghost(source),
                    };
                    return Ok(None);
                }
                let phase = phase_for(counter);
                let b = chunk_end(window.as_slice(), gear, &phase);
                proof {
                    lemma_boundary_bounds(gear@, window@, phase@);
                }
                let rest = window.split_off(b);
                let emitted = if counter < usize::MAX {
                    counter + 1
                } else {
                    counter
                };
                proof {
                    assert(chunks@.push(window@).flatten() + rest@ =~= source) by {
                        chunks@.lemma_flatten_push(window@);
                    }
                }
                *self = Chunker {
                    gear,
                    section: rest,
                    counter: emitted,
                    failed,
                    chunks: Ghost(chunks@.push(window@)),
                    source: Ghost(source),
                };
                Ok(Some(window))
            },
        }
    }
}

} // verus!
