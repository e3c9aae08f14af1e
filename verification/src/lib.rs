//! Content-defined chunking for similarity-preserving data identifiers.
//!
//! A byte stream is split into variable-length chunks whose ends depend on the
//! bytes themselves, so that a local edit disturbs only the chunks around it.
//! The chunks feed a pipeline that hashes each of them, reduces the hashes to a
//! fixed-size sketch and packs the sketch into a short digest.
//!
//! * [`params`]: the parameter sets (phases) that steer the search for a chunk end.
//! * [`boundary`]: the rolling gear hash and the search for one chunk end.
//! * [`chunker`]: the engine that splits a stream step by step, fed by its caller.
//! * [`stream`]: the chunks of a whole byte sequence, and the laws of chunking.
//! * [`digest`]: the digest that a sketch of chunk hashes is packed into.
//!
//! The gear table, one 64-bit weight for each byte value, is the caller's:
//! identifiers compare only between parties that use the same table.

pub mod boundary;
pub mod chunker;
pub mod digest;
pub mod params;
pub mod stream;
