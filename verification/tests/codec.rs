use crypto_hire_backend::job::{Job, JobError};

fn sample_job() -> Job {
    Job {
        id: 7,
        title: String::from("Engineer"),
        description: String::from("Builds and maintains systems"),
        created_at: 1_700_000_000,
        applicant_name: vec![String::from("Alice"), String::from("Bob")],
        accepted_applicants: Some(String::from("Bob")),
    }
}

fn assert_jobs_equal(a: &Job, b: &Job) {
    assert_eq!(a.id, b.id);
    assert_eq!(a.title, b.title);
    assert_eq!(a.description, b.description);
    assert_eq!(a.created_at, b.created_at);
    assert_eq!(a.applicant_name, b.applicant_name);
    assert_eq!(a.accepted_applicants, b.accepted_applicants);
}

#[test]
fn round_trip_restores_every_field() {
    let job = sample_job();
    let bytes = job.to_bytes().expect("encoding must fit");
    let back = Job::from_bytes(&bytes).expect("decoding an encoding must succeed");
    assert_jobs_equal(&job, &back);
}

#[test]
fn round_trip_with_non_ascii_text() {
    let job = Job {
        id: 1,
        title: String::from("Grüße 東京 🚀"),
        description: String::from("héllo wörld"),
        created_at: 5,
        applicant_name: vec![String::from("Łukasz"), String::from("José")],
        accepted_applicants: None,
    };
    let bytes = job.to_bytes().expect("encoding must fit");
    let back = Job::from_bytes(&bytes).expect("decoding an encoding must succeed");
    assert_jobs_equal(&job, &back);
}

#[test]
fn encoding_is_deterministic() {
    let a = sample_job();
    let b = sample_job();
    assert_eq!(a.to_bytes().unwrap(), b.to_bytes().unwrap());
}

#[test]
fn minimal_record_exact_bytes() {
    let job = Job {
        id: 1,
        title: String::new(),
        description: String::new(),
        created_at: 2,
        applicant_name: vec![],
        accepted_applicants: None,
    };
    let bytes = job.to_bytes().unwrap();
    let mut expected: Vec<u8> = Vec::new();
    expected.extend_from_slice(&1u64.to_le_bytes());
    expected.extend_from_slice(&2u64.to_le_bytes());
    expected.extend_from_slice(&0u32.to_le_bytes()); // title length
    expected.extend_from_slice(&0u32.to_le_bytes()); // description length
    expected.extend_from_slice(&0u32.to_le_bytes()); // applicant count
    expected.push(0); // no accepted applicant
    assert_eq!(bytes, expected);
}

#[test]
fn one_field_record_exact_bytes() {
    let job = Job {
        id: 3,
        title: String::from("A"),
        description: String::new(),
        created_at: 4,
        applicant_name: vec![],
        accepted_applicants: Some(String::from("B")),
    };
    let bytes = job.to_bytes().unwrap();
    let mut expected: Vec<u8> = Vec::new();
    expected.extend_from_slice(&3u64.to_le_bytes());
    expected.extend_from_slice(&4u64.to_le_bytes());
    expected.extend_from_slice(&1u32.to_le_bytes());
    expected.push(b'A');
    expected.extend_from_slice(&0u32.to_le_bytes());
    expected.extend_from_slice(&0u32.to_le_bytes());
    expected.push(1); // accepted applicant present
    expected.extend_from_slice(&1u32.to_le_bytes());
    expected.push(b'B');
    assert_eq!(bytes, expected);
}

#[test]
fn oversized_record_is_rejected_by_encode() {
    let job = Job {
        id: 1,
        title: "x".repeat(1025),
        description: String::new(),
        created_at: 0,
        applicant_name: vec![],
        accepted_applicants: None,
    };
    assert_eq!(job.to_bytes(), Err(JobError::CapacityExceeded));
}

#[test]
fn record_just_under_the_bound_encodes() {
    // 16 fixed + (4 + 990) title + 4 desc + 4 count + 1 tag = 1019 bytes.
    let job = Job {
        id: 1,
        title: "x".repeat(990),
        description: String::new(),
        created_at: 0,
        applicant_name: vec![],
        accepted_applicants: None,
    };
    let bytes = job.to_bytes().expect("must fit under the bound");
    assert_eq!(bytes.len(), 1019);
    let back = Job::from_bytes(&bytes).unwrap();
    assert_eq!(back.title.len(), 990);
}

#[test]
fn garbage_bytes_are_corruption() {
    let garbage = vec![1u8, 2, 3];
    assert!(matches!(Job::from_bytes(&garbage), Err(JobError::CorruptionDetected)));
}

#[test]
fn truncated_encoding_is_corruption() {
    let job = sample_job();
    let mut bytes = job.to_bytes().unwrap();
    bytes.pop();
    assert!(matches!(Job::from_bytes(&bytes), Err(JobError::CorruptionDetected)));
}

#[test]
fn trailing_bytes_are_corruption() {
    let job = sample_job();
    let mut bytes = job.to_bytes().unwrap();
    bytes.push(0);
    assert!(matches!(Job::from_bytes(&bytes), Err(JobError::CorruptionDetected)));
}

#[test]
fn invalid_utf8_in_text_is_corruption() {
    let job = Job {
        id: 1,
        title: String::from("ab"),
        description: String::new(),
        created_at: 0,
        applicant_name: vec![],
        accepted_applicants: None,
    };
    let mut bytes = job.to_bytes().unwrap();
    // The title bytes sit right after the two u64 fields and the length.
    bytes[20] = 0xff;
    assert!(matches!(Job::from_bytes(&bytes), Err(JobError::CorruptionDetected)));
}
