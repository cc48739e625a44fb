//! A streaming line-deduplication library built on probabilistic membership
//! filters.
//!
//! The crate offers two filter variants over a shared byte-packed bit array:
//! a classical k-hash Bloom filter and a compact single-hash slotted filter.
//! Filters live inside containers that track construction metadata and write
//! counts, can be serialized to a versioned binary format, and are consumed
//! by a streaming pipeline that emits only lines not seen before.

#![verifier::loop_isolation(false)]

pub mod bits;
pub mod bloom;
pub mod codec;
pub mod config;
pub mod container;
pub mod hashing;
pub mod pipeline;
pub mod reader_writer;
pub mod xxh;
