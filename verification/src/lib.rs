//! A durable record store for job postings and their applicants.
//!
//! All state lives in one flat persistent memory region. A region manager
//! partitions it into independently growable regions; an identifier counter
//! lives in one region and a key-ordered map of serialized job records in
//! another. Every record is encoded to a bounded byte representation on each
//! write and decoded on each read, through a codec whose round trip is proved.

pub mod backing;
pub mod board;
pub mod codec;
pub mod counter;
pub mod job;
pub mod store;
