//! The job board: the process-wide persistent state and the operations on it.
//!
//! One `JobBoard` owns the fixed set of singletons — the identifier counter
//! and the job store, each attached to its own region of one persistent
//! memory — and is passed by reference into every operation. Re-initializing
//! over the same memory after a restart re-attaches to the same regions
//! without losing data.
//!
//! Every mutation is a read-modify-write of a whole record: fetch a detached
//! copy, change the copy, re-insert it under the same id. No partial write is
//! possible: a record is encoded first and stored as one value.

use vstd::prelude::*;
use crate::backing::{RawMemory, RegionManager};
use crate::codec::{MAX_JOB_BYTES, spec_decode_job, spec_encode_job};
use crate::counter::IdCounter;
use crate::job::{CreateJob, Job, JobError, JobView};
use crate::store::JobStore;

verus! {

/// The region tag under which the identifier counter lives.
pub const COUNTER_REGION: u8 = 0;

/// The region tag under which the job store lives.
pub const JOBS_REGION: u8 = 1;

/// A newly created record: the assigned id, the caller's text fields, the
/// creation timestamp, no applicants, no accepted applicant.
pub open spec fn spec_new_job(
    id: u64,
    title: Seq<char>,
    description: Seq<char>,
    created_at: u64,
) -> JobView {
    JobView {
        id,
        title,
        description,
        created_at,
        applicant_name: Seq::empty(),
        accepted_applicants: Option::None,
    }
}

/// A record after an application: the name appended to the applicants.
pub open spec fn spec_apply(j: JobView, name: Seq<char>) -> JobView {
    JobView {
        id: j.id,
        title: j.title,
        description: j.description,
        created_at: j.created_at,
        applicant_name: j.applicant_name.push(name),
        accepted_applicants: j.accepted_applicants,
    }
}

/// The applicant list with every entry equal to `name` removed, order of the
/// rest preserved.
pub open spec fn spec_without_name(names: Seq<Seq<char>>, name: Seq<char>) -> Seq<Seq<char>>
    decreases names.len(),
{
    if names.len() == 0 {
        Seq::empty()
    } else {
        let rest = spec_without_name(names.drop_last(), name);
        if names.last() == name {
            rest
        } else {
            rest.push(names.last())
        }
    }
}

/// A record after a withdrawal: every matching applicant entry removed.
pub open spec fn spec_withdraw(j: JobView, name: Seq<char>) -> JobView {
    JobView {
        id: j.id,
        title: j.title,
        description: j.description,
        created_at: j.created_at,
        applicant_name: spec_without_name(j.applicant_name, name),
        accepted_applicants: j.accepted_applicants,
    }
}

/// A record after an acceptance: the name recorded as accepted.
pub open spec fn spec_accept(j: JobView, name: Seq<char>) -> JobView {
    JobView {
        id: j.id,
        title: j.title,
        description: j.description,
        created_at: j.created_at,
        applicant_name: j.applicant_name,
        accepted_applicants: Option::Some(name),
    }
}

/// A copy of `names` with every entry equal to `name` dropped.
fn retain_non_matching(names: &Vec<String>, name: &String) -> (r: Vec<String>)
    ensures
        r.deep_view() == spec_without_name(names.deep_view(), name@),
{
    let ghost all = names.deep_view();
    let mut kept: Vec<String> = Vec::new();
    proof {
        assert(all.take(0) =~= Seq::<Seq<char>>::empty());
        assert(kept.deep_view() =~= Seq::<Seq<char>>::empty());
    }
    let mut i: usize = 0;
    while i < names.len()
        invariant
            i <= names.len(),
            all == names.deep_view(),
            all.len() == names@.len(),
            kept.deep_view() == spec_without_name(all.take(i as int), name@),
        decreases names.len() - i,
    {
        let ghost pre = kept.deep_view();
        proof {
            assert(all.take(i + 1).drop_last() =~= all.take(i as int));
            assert(all.take(i + 1).last() == all[i as int]);
            assert(names@[i as int]@ == all[i as int]);
        }
        if !names[i].eq(name) {
            let s = names[i].clone();
            kept.push(s);
            proof {
                assert(kept.deep_view() =~= pre.push(all[i as int]));
            }
        }
        i = i + 1;
    }
    proof {
        assert(all.take(names@.len() as int) =~= all);
    }
    kept
}

/// Whether `names` holds an entry equal to `name`.
fn contains_name(names: &Vec<String>, name: &String) -> (r: bool)
    ensures
        r == names.deep_view().contains(name@),
{
    let mut i: usize = 0;
    while i < names.len()
        invariant
            i <= names.len(),
            forall|t: int| 0 <= t < i ==> names.deep_view()[t] != name@,
        decreases names.len() - i,
    {
        if names[i].eq(name) {
            proof {
                assert(names.deep_view()[i as int] == name@);
            }
            return true;
        }
        i = i + 1;
    }
    false
}

/// The process-wide persistent state: the identifier counter in one region,
/// the job store in another.
pub struct JobBoard {
    counter: IdCounter,
    jobs: JobStore,
}

impl JobBoard {
    /// The identifier counter's current value.
    pub closed spec fn counter_value(&self) -> u64 {
        self.counter.current()
    }

    /// The byte encodings durably stored per id.
    pub closed spec fn jobs_entries(&self) -> Map<u64, Seq<u8>> {
        self.jobs.entries()
    }

    /// The record stored under an id, when present and decodable: the decode
    /// of the durably stored entry.
    pub open spec fn spec_job(&self, id: u64) -> Option<JobView> {
        if self.jobs_entries().contains_key(id) {
            spec_decode_job(self.jobs_entries()[id])
        } else {
            Option::None
        }
    }

    /// The counter's in-memory value agrees with its durable cell.
    pub closed spec fn wf(&self) -> bool {
        self.counter.wf()
    }

    /// First attachment to the persistent memory: the counter under its
    /// region tag, the store under its own. Over a memory written under an
    /// earlier process lifetime this restores the counter and the records;
    /// over a fresh memory it yields a zero counter and an empty store. What
    /// a given memory holds is environment-dependent, so the contract states
    /// well-formedness only; the stated guarantee that the whole state
    /// survives a restart is `restart`.
    pub fn init(memory: RawMemory) -> (r: JobBoard)
        ensures
            r.wf(),
    {
        let manager = RegionManager::init(memory);
        let counter = IdCounter::init(manager.region(COUNTER_REGION));
        let jobs = JobStore::init(manager.region(JOBS_REGION));
        JobBoard { counter, jobs }
    }

    /// Restart: drops the whole in-memory state and re-attaches to the same
    /// underlying regions, as a new process lifetime does. The counter value
    /// and every stored record survive unchanged, because every mutation was
    /// persisted before its operation returned. Consuming the board means no
    /// stale in-memory state survives the restart.
    pub fn restart(self) -> (r: JobBoard)
        requires
            self.wf(),
        ensures
            r.wf(),
            r.counter_value() == self.counter_value(),
            r.jobs_entries() == self.jobs_entries(),
    {
        let counter = self.counter.reattach();
        let jobs = self.jobs.reattach();
        JobBoard { counter, jobs }
    }

    /// Creates a job posting: allocates the next id, builds the record with
    /// the caller's fields and timestamp, empty applicants and no accepted
    /// applicant, and stores it. The id is consumed even when storing fails.
    pub fn create_job(&mut self, job: CreateJob, created_at: u64) -> (r: Result<Job, JobError>)
        requires
            old(self).wf(),
            old(self).counter_value() < u64::MAX,
        ensures
            final(self).wf(),
            final(self).counter_value() == old(self).counter_value() + 1,
            match r {
                Result::Ok(j) => {
                    &&& j.id == old(self).counter_value() + 1
                    &&& j@ == spec_new_job(j.id, job.title@, job.description@, created_at)
                    &&& spec_encode_job(j@).len() <= MAX_JOB_BYTES
                    &&& final(self).jobs_entries() == old(self).jobs_entries().insert(
                        j.id,
                        spec_encode_job(j@),
                    )
                },
                Result::Err(e) => {
                    let id = (old(self).counter_value() + 1) as u64;
                    let nj = spec_new_job(id, job.title@, job.description@, created_at);
                    &&& final(self).jobs_entries() == old(self).jobs_entries()
                    &&& ((e == JobError::CapacityExceeded && spec_encode_job(nj).len()
                        > MAX_JOB_BYTES) || (e == JobError::CorruptionDetected && old(
                        self,
                    ).jobs_entries().contains_key(id) && spec_decode_job(
                        old(self).jobs_entries()[id],
                    ) is None))
                },
            },
    {
        let id = self.counter.allocate_next_id();
        let new_job = Job {
            id,
            title: job.title,
            description: job.description,
            created_at,
            applicant_name: Vec::new(),
            accepted_applicants: Option::None,
        };
        proof {
            assert(new_job@.applicant_name =~= Seq::<Seq<char>>::empty());
        }
        match self.jobs.insert(id, &new_job) {
            Result::Ok(_) => Result::Ok(new_job),
            Result::Err(e) => Result::Err(e),
        }
    }

    /// Appends an applicant to a job's applicant list.
    pub fn apply_to_job(&mut self, job_id: u64, applicant_name: String) -> (r: Result<
        (),
        JobError,
    >)
        requires
            old(self).wf(),
        ensures
            final(self).wf(),
            final(self).counter_value() == old(self).counter_value(),
            match r {
                Result::Ok(()) => old(self).spec_job(job_id) matches Option::Some(oj)
                    && spec_encode_job(spec_apply(oj, applicant_name@)).len() <= MAX_JOB_BYTES
                    && final(self).jobs_entries() == old(self).jobs_entries().insert(
                    job_id,
                    spec_encode_job(spec_apply(oj, applicant_name@)),
                ),
                Result::Err(e) => final(self).jobs_entries() == old(self).jobs_entries() && ((e
                    == JobError::NotFound && !old(self).jobs_entries().contains_key(job_id)) || (e
                    == JobError::CorruptionDetected && old(self).jobs_entries().contains_key(job_id)
                    && spec_decode_job(old(self).jobs_entries()[job_id]) is None) || (e
                    == JobError::CapacityExceeded && (old(self).spec_job(job_id)
                    matches Option::Some(oj) && spec_encode_job(spec_apply(oj, applicant_name@)).len()
                    > MAX_JOB_BYTES))),
            },
    {
        match self.jobs.get(job_id) {
            Result::Err(_) => Result::Err(JobError::CorruptionDetected),
            Result::Ok(Option::None) => Result::Err(JobError::NotFound),
            Result::Ok(Option::Some(job)) => {
                let ghost oj = job@;
                let mut job = job;
                let ghost pre = job.applicant_name.deep_view();
                job.applicant_name.push(applicant_name);
                proof {
                    assert(job.applicant_name.deep_view() =~= pre.push(applicant_name@));
                }
                match self.jobs.insert(job_id, &job) {
                    Result::Ok(_) => Result::Ok(()),
                    Result::Err(e) => Result::Err(e),
                }
            },
        }
    }

    /// Removes every applicant entry matching the name from a job's list.
    /// Succeeds also when no entry matches: the record is re-stored
    /// unchanged.
    pub fn withdraw_application(&mut self, job_id: u64, applicant_name: String) -> (r: Result<
        (),
        JobError,
    >)
        requires
            old(self).wf(),
        ensures
            final(self).wf(),
            final(self).counter_value() == old(self).counter_value(),
            match r {
                Result::Ok(()) => old(self).spec_job(job_id) matches Option::Some(oj)
                    && spec_encode_job(spec_withdraw(oj, applicant_name@)).len() <= MAX_JOB_BYTES
                    && final(self).jobs_entries() == old(self).jobs_entries().insert(
                    job_id,
                    spec_encode_job(spec_withdraw(oj, applicant_name@)),
                ),
                Result::Err(e) => final(self).jobs_entries() == old(self).jobs_entries() && ((e
                    == JobError::NotFound && !old(self).jobs_entries().contains_key(job_id)) || (e
                    == JobError::CorruptionDetected && old(self).jobs_entries().contains_key(job_id)
                    && spec_decode_job(old(self).jobs_entries()[job_id]) is None) || (e
                    == JobError::CapacityExceeded && (old(self).spec_job(job_id)
                    matches Option::Some(oj) && spec_encode_job(
                    spec_withdraw(oj, applicant_name@),
                ).len() > MAX_JOB_BYTES))),
            },
    {
        match self.jobs.get(job_id) {
            Result::Err(_) => Result::Err(JobError::CorruptionDetected),
            Result::Ok(Option::None) => Result::Err(JobError::NotFound),
            Result::Ok(Option::Some(job)) => {
                let mut job = job;
                let kept = retain_non_matching(&job.applicant_name, &applicant_name);
                job.applicant_name = kept;
                match self.jobs.insert(job_id, &job) {
                    Result::Ok(_) => Result::Ok(()),
                    Result::Err(e) => Result::Err(e),
                }
            },
        }
    }

    /// Marks an applicant as accepted. The name must be among the job's
    /// applicants. Accepting again with another valid applicant replaces the
    /// accepted applicant: re-acceptance is allowed, matching the store's
    /// whole-record replacement model.
    pub fn accept_job(&mut self, job_id: u64, applicant_name: String) -> (r: Result<(), JobError>)
        requires
            old(self).wf(),
        ensures
            final(self).wf(),
            final(self).counter_value() == old(self).counter_value(),
            match r {
                Result::Ok(()) => old(self).spec_job(job_id) matches Option::Some(oj)
                    && oj.applicant_name.contains(applicant_name@) && spec_encode_job(
                    spec_accept(oj, applicant_name@),
                ).len() <= MAX_JOB_BYTES && final(self).jobs_entries() == old(
                    self,
                ).jobs_entries().insert(job_id, spec_encode_job(spec_accept(oj, applicant_name@))),
                Result::Err(e) => final(self).jobs_entries() == old(self).jobs_entries() && ((e
                    == JobError::NotFound && !old(self).jobs_entries().contains_key(job_id)) || (e
                    == JobError::CorruptionDetected && old(self).jobs_entries().contains_key(job_id)
                    && spec_decode_job(old(self).jobs_entries()[job_id]) is None) || (e
                    == JobError::ApplicantNotFound && (old(self).spec_job(job_id)
                    matches Option::Some(oj) && !oj.applicant_name.contains(applicant_name@))) || (e
                    == JobError::CapacityExceeded && (old(self).spec_job(job_id)
                    matches Option::Some(oj) && oj.applicant_name.contains(applicant_name@)
                    && spec_encode_job(spec_accept(oj, applicant_name@)).len() > MAX_JOB_BYTES))),
            },
    {
        match self.jobs.get(job_id) {
            Result::Err(_) => Result::Err(JobError::CorruptionDetected),
            Result::Ok(Option::None) => Result::Err(JobError::NotFound),
            Result::Ok(Option::Some(job)) => {
                if !contains_name(&job.applicant_name, &applicant_name) {
                    return Result::Err(JobError::ApplicantNotFound);
                }
                let mut job = job;
                job.accepted_applicants = Option::Some(applicant_name);
                match self.jobs.insert(job_id, &job) {
                    Result::Ok(_) => Result::Ok(()),
                    Result::Err(e) => Result::Err(e),
                }
            },
        }
    }

    /// Removes a job posting entirely. Absence is reported as not found.
    pub fn cancel_job(&mut self, job_id: u64) -> (r: Result<(), JobError>)
        requires
            old(self).wf(),
        ensures
            final(self).wf(),
            final(self).counter_value() == old(self).counter_value(),
            match r {
                Result::Ok(()) => old(self).spec_job(job_id) is Some && final(self).jobs_entries()
                    == old(self).jobs_entries().remove(job_id),
                Result::Err(e) => final(self).jobs_entries() == old(self).jobs_entries() && ((e
                    == JobError::NotFound && !old(self).jobs_entries().contains_key(job_id)) || (e
                    == JobError::CorruptionDetected && old(self).jobs_entries().contains_key(job_id)
                    && spec_decode_job(old(self).jobs_entries()[job_id]) is None)),
            },
    {
        match self.jobs.remove(job_id) {
            Result::Err(_) => Result::Err(JobError::CorruptionDetected),
            Result::Ok(Option::None) => Result::Err(JobError::NotFound),
            Result::Ok(Option::Some(_)) => Result::Ok(()),
        }
    }

    /// Returns a detached copy of a job posting. Absence is reported as not
    /// found; nothing is mutated.
    pub fn fetch_job(&self, job_id: u64) -> (r: Result<Job, JobError>)
        ensures
            match r {
                Result::Ok(j) => self.spec_job(job_id) == Option::Some(j@),
                Result::Err(e) => (e == JobError::NotFound && !self.jobs_entries().contains_key(
                    job_id,
                )) || (e == JobError::CorruptionDetected && self.jobs_entries().contains_key(job_id)
                    && spec_decode_job(self.jobs_entries()[job_id]) is None),
            },
    {
        match self.jobs.get(job_id) {
            Result::Err(_) => Result::Err(JobError::CorruptionDetected),
            Result::Ok(Option::None) => Result::Err(JobError::NotFound),
            Result::Ok(Option::Some(j)) => Result::Ok(j),
        }
    }

    /// The identifier counter's current value: the most recently allocated
    /// id, or zero when none has been allocated over this memory.
    pub fn current_counter(&self) -> (r: u64)
        ensures
            r == self.counter_value(),
    {
        self.counter.get()
    }

    /// The stored ids in ascending order.
    pub fn job_ids_in_order(&self) -> (r: Vec<u64>)
        ensures
            forall|a: int, b: int| 0 <= a < b < r@.len() ==> r@[a] < r@[b],
            forall|k: u64| #[trigger] self.jobs_entries().contains_key(k) <==> r@.contains(k),
    {
        self.jobs.keys_in_order()
    }
}



} // verus!
