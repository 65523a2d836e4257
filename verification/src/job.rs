//! The job record: one posting together with its applicant and acceptance
//! state, and the errors the store can report about it.

use vstd::prelude::*;

verus! {

/// One job posting. Mutations go through whole-record replacement: callers
/// fetch a copy, change the copy, and re-insert it under the same id.
pub struct Job {
    /// Unique key, assigned by the identifier counter, immutable afterwards.
    pub id: u64,
    /// Job title.
    pub title: String,
    /// Job description.
    pub description: String,
    /// Timestamp set once at creation.
    pub created_at: u64,
    /// Applicants in application order.
    pub applicant_name: Vec<String>,
    /// The accepted applicant, if one has been accepted; always a value that
    /// was present in `applicant_name` when it was set.
    pub accepted_applicants: Option<String>,
}

/// The mathematical value of a job record: every field as a plain value or a
/// sequence.
pub ghost struct JobView {
    pub id: u64,
    pub title: Seq<char>,
    pub description: Seq<char>,
    pub created_at: u64,
    pub applicant_name: Seq<Seq<char>>,
    pub accepted_applicants: Option<Seq<char>>,
}

impl View for Job {
    type V = JobView;

    open spec fn view(&self) -> JobView {
        JobView {
            id: self.id,
            title: self.title@,
            description: self.description@,
            created_at: self.created_at,
            applicant_name: self.applicant_name.deep_view(),
            accepted_applicants: match self.accepted_applicants {
                Option::None => Option::None,
                Option::Some(s) => Option::Some(s@),
            },
        }
    }
}

/// What a job operation can report besides success.
///
/// A failed persist of the backing memory does not surface here: the backing
/// store treats it as fatal and aborts inside the write, so no operation can
/// return with the durable and in-memory views diverged.
#[derive(Clone, Copy, PartialEq, Eq, Debug, Structural)]
pub enum JobError {
    /// No record is stored under the requested id. Recoverable.
    NotFound,
    /// The named applicant is not among the record's applicants. Recoverable.
    ApplicantNotFound,
    /// The record's encoding would exceed the codec's maximum size; the write
    /// was rejected and stored state is unchanged.
    CapacityExceeded,
    /// Stored bytes do not decode as a record: data corruption. The affected
    /// operation halts without guessing a substitute value.
    CorruptionDetected,
}

/// The caller-supplied part of a new job posting.
pub struct CreateJob {
    pub title: String,
    pub description: String,
}

} // verus!
