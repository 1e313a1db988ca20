//! Graph embeddings by hash-seeded initialization and power iteration.
//!
//! A graph comes as a row-normalized sparse weight matrix over entities. Each
//! entity gets a vector of `dimension` single-precision coordinates: seeded
//! from its stable hash, normalized, then propagated through the matrix and
//! normalized again for a fixed number of rounds.
//!
//! - `model` states the computation as mathematics over bit patterns;
//!   `single` and `hashing` hold the arithmetic and the hash it rests on.
//! - `embedding`, with `columns`, is the in-memory strategy; `mapped`, with
//!   `chunks` and `layout`, is the strategy over memory-mapped regions.
//! - `rotation` orders the steps of a disk-backed run, `lifecycle` models
//!   what they do to the generation files, and `mapped_run` carries a run
//!   out step by step, leaving the file system work to its caller.
//! - `output` is what a run emits; `laws` states what holds of every run.

pub mod chunks;
pub mod columns;
pub mod embedding;
pub mod hashing;
pub mod laws;
pub mod layout;
pub mod lifecycle;
pub mod mapped;
pub mod mapped_run;
pub mod model;
pub mod output;
pub mod parallel;
pub mod rotation;
pub mod single;
pub mod sparse;
