use crypto_hire_backend::backing::RawMemory;
use crypto_hire_backend::board::JobBoard;
use crypto_hire_backend::job::{CreateJob, JobError};

fn request(title: &str, description: &str) -> CreateJob {
    CreateJob { title: String::from(title), description: String::from(description) }
}

#[test]
fn full_application_lifecycle() {
    let mut board = JobBoard::init(RawMemory::new());

    let job = board.create_job(request("Engineer", "Builds things"), 100).unwrap();
    assert_eq!(job.id, 1);
    assert_eq!(job.title, "Engineer");
    assert!(job.applicant_name.is_empty());
    assert_eq!(job.accepted_applicants, None);

    board.apply_to_job(1, String::from("Alice")).unwrap();
    assert_eq!(board.fetch_job(1).unwrap().applicant_name, vec!["Alice"]);

    board.apply_to_job(1, String::from("Bob")).unwrap();
    assert_eq!(board.fetch_job(1).unwrap().applicant_name, vec!["Alice", "Bob"]);

    board.withdraw_application(1, String::from("Alice")).unwrap();
    assert_eq!(board.fetch_job(1).unwrap().applicant_name, vec!["Bob"]);

    board.accept_job(1, String::from("Bob")).unwrap();
    let accepted = board.fetch_job(1).unwrap();
    assert_eq!(accepted.accepted_applicants, Some(String::from("Bob")));

    assert_eq!(
        board.accept_job(1, String::from("Carol")),
        Err(JobError::ApplicantNotFound),
    );
    // The failed acceptance changed nothing.
    let after = board.fetch_job(1).unwrap();
    assert_eq!(after.accepted_applicants, Some(String::from("Bob")));
    assert_eq!(after.applicant_name, vec!["Bob"]);
}

#[test]
fn lookup_on_empty_board_is_absent_not_fatal() {
    let board = JobBoard::init(RawMemory::new());
    assert_eq!(board.fetch_job(999).map(|j| j.id), Err(JobError::NotFound));
}

#[test]
fn restart_preserves_records_and_counter() {
    let memory = RawMemory::new();
    let survivor = memory.another_handle();

    let mut board = JobBoard::init(memory);
    let job = board.create_job(request("Engineer", "First posting"), 11).unwrap();
    board.apply_to_job(job.id, String::from("Alice")).unwrap();
    drop(board);

    // Re-run initialization against the same underlying memory.
    let mut board = JobBoard::init(survivor);
    let restored = board.fetch_job(1).unwrap();
    assert_eq!(restored.title, "Engineer");
    assert_eq!(restored.description, "First posting");
    assert_eq!(restored.created_at, 11);
    assert_eq!(restored.applicant_name, vec!["Alice"]);

    // The counter survived too: the next id continues the sequence.
    let second = board.create_job(request("Analyst", "Second posting"), 12).unwrap();
    assert_eq!(second.id, 2);
}

#[test]
fn restart_operation_preserves_records_and_counter() {
    let mut board = JobBoard::init(RawMemory::new());
    let job = board.create_job(request("Engineer", "Durable posting"), 21).unwrap();
    board.apply_to_job(job.id, String::from("Alice")).unwrap();
    board.accept_job(job.id, String::from("Alice")).unwrap();

    // Drop the whole in-memory state and re-attach to the same regions.
    let mut board = board.restart();
    let restored = board.fetch_job(1).unwrap();
    assert_eq!(restored.title, "Engineer");
    assert_eq!(restored.applicant_name, vec!["Alice"]);
    assert_eq!(restored.accepted_applicants, Some(String::from("Alice")));
    let second = board.create_job(request("Analyst", ""), 22).unwrap();
    assert_eq!(second.id, 2);
}

#[test]
fn identifiers_increase_by_exactly_one() {
    let mut board = JobBoard::init(RawMemory::new());
    let first = board.create_job(request("One", ""), 1).unwrap();
    // Intervening reads and removals do not disturb the counter.
    let _ = board.fetch_job(first.id);
    board.cancel_job(first.id).unwrap();
    let second = board.create_job(request("Two", ""), 2).unwrap();
    let third = board.create_job(request("Three", ""), 3).unwrap();
    assert_eq!(first.id, 1);
    assert_eq!(second.id, first.id + 1);
    assert_eq!(third.id, second.id + 1);
}

#[test]
fn oversized_record_rejected_without_mutating_stored_state() {
    let mut board = JobBoard::init(RawMemory::new());
    let job = board.create_job(request("Engineer", "Short"), 1).unwrap();

    let huge = "x".repeat(1100);
    assert_eq!(board.apply_to_job(job.id, huge), Err(JobError::CapacityExceeded));

    // The stored record is unchanged.
    let stored = board.fetch_job(job.id).unwrap();
    assert!(stored.applicant_name.is_empty());
    assert_eq!(stored.title, "Engineer");

    // An oversized creation is rejected too, and consumes the id.
    let r = board.create_job(request(&"y".repeat(1100), ""), 2);
    assert_eq!(r.map(|j| j.id), Err(JobError::CapacityExceeded));
    let next = board.create_job(request("Fits", ""), 3).unwrap();
    assert_eq!(next.id, 3);
}

#[test]
fn cancel_removes_and_reports_absence() {
    let mut board = JobBoard::init(RawMemory::new());
    let job = board.create_job(request("Gone soon", ""), 1).unwrap();
    board.cancel_job(job.id).unwrap();
    assert_eq!(board.fetch_job(job.id).map(|j| j.id), Err(JobError::NotFound));
    assert_eq!(board.cancel_job(job.id), Err(JobError::NotFound));
}

#[test]
fn apply_and_withdraw_on_missing_job_report_not_found() {
    let mut board = JobBoard::init(RawMemory::new());
    assert_eq!(board.apply_to_job(5, String::from("Alice")), Err(JobError::NotFound));
    assert_eq!(board.withdraw_application(5, String::from("Alice")), Err(JobError::NotFound));
    assert_eq!(board.accept_job(5, String::from("Alice")), Err(JobError::NotFound));
}

#[test]
fn withdraw_removes_every_matching_entry() {
    let mut board = JobBoard::init(RawMemory::new());
    let job = board.create_job(request("Engineer", ""), 1).unwrap();
    board.apply_to_job(job.id, String::from("Alice")).unwrap();
    board.apply_to_job(job.id, String::from("Bob")).unwrap();
    board.apply_to_job(job.id, String::from("Alice")).unwrap();
    board.withdraw_application(job.id, String::from("Alice")).unwrap();
    assert_eq!(board.fetch_job(job.id).unwrap().applicant_name, vec!["Bob"]);
    // Withdrawing a name that never applied succeeds and changes nothing.
    board.withdraw_application(job.id, String::from("Carol")).unwrap();
    assert_eq!(board.fetch_job(job.id).unwrap().applicant_name, vec!["Bob"]);
}

#[test]
fn ids_iterate_in_ascending_order() {
    let mut board = JobBoard::init(RawMemory::new());
    for k in 0..5 {
        let j = board.create_job(request(&format!("Job {k}"), ""), k).unwrap();
        assert_eq!(j.id, k + 1);
    }
    board.cancel_job(3).unwrap();
    assert_eq!(board.job_ids_in_order(), vec![1, 2, 4, 5]);
}
