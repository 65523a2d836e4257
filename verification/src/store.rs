//! The ordered record map: a durable, key-ordered associative store from u64
//! to job record, serializing through the codec on every write and
//! deserializing on every read.

use vstd::prelude::*;
use crate::backing::{ByteMap, Region, byte_map_entries};
use crate::codec::{MAX_JOB_BYTES, spec_decode_job, spec_encode_job};
use crate::job::{Job, JobError, JobView};

verus! {

/// Durable map from identifier to job record. Values are detached copies:
/// a caller mutates its copy and re-inserts it to persist a change. Every
/// insert and remove is fully persisted before the call returns.
pub struct JobStore {
    map: ByteMap,
}

impl JobStore {
    /// The stored entries: the byte encoding durably held under each key.
    pub closed spec fn entries(&self) -> Map<u64, Seq<u8>> {
        byte_map_entries(self.map)
    }

    /// The record stored under a key, when the key is present and its bytes
    /// decode.
    pub open spec fn spec_get(&self, key: u64) -> Option<JobView> {
        if self.entries().contains_key(key) {
            spec_decode_job(self.entries()[key])
        } else {
            Option::None
        }
    }

    /// First attachment to a region, reconstructing the key-ordered index
    /// from the entries serialized there; an empty region yields an empty
    /// map. What a given region holds is environment-dependent, so the
    /// contract is silent on the initial entries; the stated guarantee that
    /// entries survive a restart is `reattach`.
    pub fn init(region: Region) -> (r: JobStore) {
        JobStore { map: ByteMap::init(region) }
    }

    /// Re-attachment after a restart: drops the in-memory index and
    /// re-initializes over the same region. The stored entries survive
    /// unchanged, because every insert and remove was persisted before
    /// returning.
    pub fn reattach(self) -> (r: JobStore)
        ensures
            r.entries() == self.entries(),
    {
        JobStore { map: self.map.reattach() }
    }

    /// Looks up a record without mutating anything. Absence is a normal
    /// negative result; only stored bytes that fail to decode are an error.
    pub fn get(&self, key: u64) -> (r: Result<Option<Job>, JobError>)
        ensures
            match r {
                Result::Ok(Option::Some(j)) => self.spec_get(key) == Option::Some(j@),
                Result::Ok(Option::None) => !self.entries().contains_key(key),
                Result::Err(e) => e == JobError::CorruptionDetected && self.entries().contains_key(
                    key,
                ) && spec_decode_job(self.entries()[key]) is None,
            },
    {
        match self.map.get(key) {
            Option::None => Result::Ok(Option::None),
            Option::Some(bytes) => match Job::from_bytes(&bytes) {
                Result::Ok(j) => Result::Ok(Option::Some(j)),
                Result::Err(_) => Result::Err(JobError::CorruptionDetected),
            },
        }
    }

    /// Stores the record under the key, replacing and returning the prior
    /// record if one was there. Rejects, without touching stored state, a
    /// record whose encoding exceeds the codec's bound; halts, without
    /// touching stored state, when the prior entry does not decode.
    pub fn insert(&mut self, key: u64, job: &Job) -> (r: Result<Option<Job>, JobError>)
        ensures
            match r {
                Result::Ok(prev) => spec_encode_job(job@).len() <= MAX_JOB_BYTES && final(self).entries() == old(self).entries().insert(key, spec_encode_job(job@)) && match prev {
                    Option::Some(p) => old(self).spec_get(key) == Option::Some(p@),
                    Option::None => !old(self).entries().contains_key(key),
                },
                Result::Err(e) => final(self).entries() == old(self).entries() && ((e
                    == JobError::CapacityExceeded && spec_encode_job(job@).len() > MAX_JOB_BYTES)
                    || (e == JobError::CorruptionDetected && spec_encode_job(job@).len()
                    <= MAX_JOB_BYTES && old(self).entries().contains_key(key) && spec_decode_job(old(self).entries()[key]) is None)),
            },
    {
        match job.to_bytes() {
            Result::Err(e) => Result::Err(e),
            Result::Ok(encoded) => match self.map.get(key) {
                Option::Some(prev_bytes) => match Job::from_bytes(&prev_bytes) {
                    Result::Err(_) => Result::Err(JobError::CorruptionDetected),
                    Result::Ok(prev) => {
                        let _ = self.map.insert(key, encoded);
                        Result::Ok(Option::Some(prev))
                    },
                },
                Option::None => {
                    let _ = self.map.insert(key, encoded);
                    Result::Ok(Option::None)
                },
            },
        }
    }

    /// Deletes the entry under the key, returning the removed record; absence
    /// is reported as not found without an error. Halts, without touching
    /// stored state, when the stored entry does not decode.
    pub fn remove(&mut self, key: u64) -> (r: Result<Option<Job>, JobError>)
        ensures
            match r {
                Result::Ok(Option::Some(p)) => old(self).spec_get(key) == Option::Some(p@) && final(self).entries() == old(self).entries().remove(key),
                Result::Ok(Option::None) => !old(self).entries().contains_key(key) && final(self).entries() == old(self).entries(),
                Result::Err(e) => e == JobError::CorruptionDetected && old(self).entries().contains_key(key) && spec_decode_job(old(self).entries()[key]) is None
                    && final(self).entries() == old(self).entries(),
            },
    {
        match self.map.get(key) {
            Option::None => Result::Ok(Option::None),
            Option::Some(bytes) => match Job::from_bytes(&bytes) {
                Result::Err(_) => Result::Err(JobError::CorruptionDetected),
                Result::Ok(prev) => {
                    let _ = self.map.remove(key);
                    Result::Ok(Option::Some(prev))
                },
            },
        }
    }

    /// The stored keys in ascending order, each exactly once.
    pub fn keys_in_order(&self) -> (r: Vec<u64>)
        ensures
            forall|a: int, b: int| 0 <= a < b < r@.len() ==> r@[a] < r@[b],
            forall|k: u64| #[trigger] self.entries().contains_key(k) <==> r@.contains(k),
    {
        self.map.keys_in_order()
    }
}

/// The observed value under a key is the one from the most recent insert of
/// that key not followed by a remove of that key: an insert of a key
/// overwrites exactly that key, a remove erases exactly that key, and
/// operations on any other key leave the key's entry untouched.
pub proof fn lemma_last_insert_wins(
    entries: Map<u64, Seq<u8>>,
    k: u64,
    other: u64,
    v: Seq<u8>,
    w: Seq<u8>,
)
    ensures
        entries.insert(k, v)[k] == v,
        entries.insert(k, v).contains_key(k),
        !entries.remove(k).contains_key(k),
        entries.remove(k).insert(k, v)[k] == v,
        other != k ==> entries.insert(other, w).contains_key(k) == entries.contains_key(k),
        other != k && entries.contains_key(k) ==> entries.insert(other, w)[k] == entries[k],
        other != k ==> entries.remove(other).contains_key(k) == entries.contains_key(k),
        other != k && entries.contains_key(k) ==> entries.remove(other)[k] == entries[k],
{
}


/// What an insert stores under a key is exactly what a later lookup of that
/// key observes: an admissible record's stored encoding decodes back to the
/// record itself.
pub proof fn lemma_insert_then_get(entries: Map<u64, Seq<u8>>, k: u64, j: JobView)
    requires
        spec_encode_job(j).len() <= MAX_JOB_BYTES,
    ensures
        spec_decode_job(entries.insert(k, spec_encode_job(j))[k]) == Option::Some(j),
{
    crate::codec::lemma_job_codec_roundtrip(j);
}

} // verus!
