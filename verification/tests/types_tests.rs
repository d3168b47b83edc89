use eywa::types::{default_limit, DocStatus, JobStatus};

#[test]
fn test_doc_status_roundtrip() {
    for status in [DocStatus::Pending, DocStatus::Processing, DocStatus::Done, DocStatus::Failed] {
        let s = status.as_str();
        let parsed: DocStatus = s.parse().unwrap();
        assert_eq!(status, parsed);
    }
}

#[test]
fn test_job_status_roundtrip() {
    for status in [JobStatus::Pending, JobStatus::Processing, JobStatus::Done, JobStatus::Failed] {
        let s = status.as_str();
        let parsed: JobStatus = s.parse().unwrap();
        assert_eq!(status, parsed);
    }
}

#[test]
fn test_invalid_status_parse() {
    assert!("invalid".parse::<DocStatus>().is_err());
    assert!("invalid".parse::<JobStatus>().is_err());
}

#[test]
fn search_requests_default_to_five_results() {
    assert_eq!(default_limit(), 5);
}
