use scan_scheduler::dispatch::{
    examine, examine_body, judge, scan_url, JobOutcome, Judgement, Submission, SUCCESS_STATUS,
};
use scan_scheduler::job::ScanJob;
use scan_scheduler::summary::Aggregator;

fn job(n: usize) -> ScanJob {
    ScanJob { registry: "r/artifactory/api/docker/k".to_string(), image_name: "img".to_string(), tag: format!("t{}", n) }
}

fn answered(body: &str) -> Submission {
    Submission::Answered { body: body.to_string() }
}

#[test]
fn status_200_is_success() {
    assert_eq!(SUCCESS_STATUS, 200);
    assert_eq!(examine_body(r#"{"status_code": 200, "ok": true}"#), None);
    assert_eq!(
        judge(&job(1), &answered(r#"{"status_code": 200}"#)),
        Judgement::Settled(JobOutcome { job: job(1), success: true, error: None })
    );
}

#[test]
fn any_other_status_is_a_failure_with_the_answer_as_detail() {
    assert_eq!(
        judge(&job(2), &answered(r#"{"status_code": 500, "message": "boom"}"#)),
        Judgement::Settled(JobOutcome {
            job: job(2),
            success: false,
            error: Some(r#"{"message":"boom","status_code":500}"#.to_string()),
        })
    );
    assert!(examine_body(r#"{"status_code": 201}"#).is_some());
    assert!(examine_body(r#"{"status_code": 404}"#).is_some());
}

#[test]
fn answer_without_a_usable_status_is_a_failure() {
    assert_eq!(examine_body(r#"{"ok": true}"#), Some(r#"{"ok":true}"#.to_string()));
    assert_eq!(examine_body(r#"{"status_code": "200"}"#), Some(r#"{"status_code":"200"}"#.to_string()));
    assert_eq!(examine_body(r#"{"status_code": -200}"#), Some(r#"{"status_code":-200}"#.to_string()));
    assert_eq!(examine_body("[200]"), Some("[200]".to_string()));
    let doc: serde_json::Value = serde_json::from_str(r#"{"status_code": 200}"#).unwrap();
    assert_eq!(examine(&doc), None);
}

#[test]
fn answer_that_is_not_json_is_a_failure_with_the_parser_message() {
    assert_eq!(examine_body("Bad Gateway"), Some("expected value at line 1 column 1".to_string()));
    match judge(&job(3), &answered("")) {
        Judgement::Settled(outcome) => {
            assert!(!outcome.success);
            assert_eq!(outcome.error, Some("EOF while parsing a value at line 1 column 0".to_string()));
        }
        other => panic!("{:?}", other),
    }
}

#[test]
fn failed_exchange_settles_the_job_as_a_failure() {
    assert_eq!(
        judge(&job(4), &Submission::Failed { detail: "timed out".to_string() }),
        Judgement::Settled(JobOutcome { job: job(4), success: false, error: Some("timed out".to_string()) })
    );
}

#[test]
fn unreachable_endpoint_is_fatal() {
    assert_eq!(
        judge(&job(5), &Submission::Unreachable { detail: "connection refused".to_string() }),
        Judgement::Fatal { job: job(5), detail: "connection refused".to_string() }
    );
}

#[test]
fn scan_address_is_under_the_base_address() {
    assert_eq!(scan_url("http://192.168.1.41:9080"), "http://192.168.1.41:9080/v1/scan");
}

#[test]
fn account_counts_all_outcomes_and_keeps_the_failures() {
    let mut account = Aggregator::new();
    assert_eq!(account.count(), 0);
    assert!(account.has_room());
    account.record(JobOutcome { job: job(1), success: true, error: None });
    account.record(JobOutcome { job: job(2), success: false, error: Some("e2".to_string()) });
    account.record(JobOutcome { job: job(3), success: true, error: None });
    account.record(JobOutcome { job: job(4), success: false, error: Some("e4".to_string()) });
    assert_eq!(account.count(), 4);
    let summary = account.finalize();
    assert_eq!(summary.total, 4);
    assert_eq!(summary.succeeded, 2);
    assert_eq!(
        summary.failures,
        vec![
            JobOutcome { job: job(2), success: false, error: Some("e2".to_string()) },
            JobOutcome { job: job(4), success: false, error: Some("e4".to_string()) },
        ]
    );
}

#[test]
fn empty_account_reports_nothing() {
    let summary = Aggregator::new().finalize();
    assert_eq!((summary.total, summary.succeeded, summary.failures.len()), (0, 0, 0));
}
