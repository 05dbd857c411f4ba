use scan_scheduler::dispatch::{JobOutcome, Submission};
use scan_scheduler::job::ScanJob;
use scan_scheduler::pacer::{Action, Event, Pacer, Phase};
use scan_scheduler::scheduler::Scheduler;

fn jobs(n: usize) -> Vec<ScanJob> {
    (1..=n)
        .map(|i| ScanJob { registry: "r".to_string(), image_name: "img".to_string(), tag: format!("t{}", i) })
        .collect()
}

fn ok() -> Submission {
    Submission::Answered { body: r#"{"status_code": 200}"#.to_string() }
}

#[test]
fn ten_jobs_under_quota_four_take_three_dispatches_and_two_waits() {
    let mut pacer = Pacer::new(10, 4);
    let mut trace = vec![pacer.next_action()];
    while pacer.phase != Phase::Done {
        let event = match pacer.next_action() {
            Action::Dispatch { .. } => Event::ChunkSettled { fatal: false },
            _ => Event::WaitElapsed,
        };
        trace.push(pacer.step(event));
    }
    assert_eq!(
        trace,
        vec![
            Action::Dispatch { start: 0, end: 4 },
            Action::Wait,
            Action::Dispatch { start: 4, end: 8 },
            Action::Wait,
            Action::Dispatch { start: 8, end: 10 },
            Action::Finish,
        ]
    );
    assert!(!pacer.aborted);
}

#[test]
fn quota_that_covers_the_list_needs_no_wait() {
    let mut pacer = Pacer::new(3, 1500);
    assert_eq!(pacer.next_action(), Action::Dispatch { start: 0, end: 3 });
    assert_eq!(pacer.step(Event::ChunkSettled { fatal: false }), Action::Finish);
    let mut exact = Pacer::new(4, 4);
    assert_eq!(exact.next_action(), Action::Dispatch { start: 0, end: 4 });
    assert_eq!(exact.step(Event::ChunkSettled { fatal: false }), Action::Finish);
}

#[test]
fn zero_quota_or_no_jobs_finish_at_once() {
    assert_eq!(Pacer::new(7, 0).next_action(), Action::Finish);
    assert_eq!(Pacer::new(0, 5).next_action(), Action::Finish);
    assert_eq!(Pacer::new(0, 0).phase, Phase::Done);
    let run = Scheduler::new(jobs(7), 0);
    assert_eq!(run.action(), Action::Finish);
    let summary = run.finish();
    assert_eq!((summary.total, summary.succeeded, summary.failures.len()), (0, 0, 0));
    let run = Scheduler::new(vec![], 3);
    assert_eq!(run.action(), Action::Finish);
    assert_eq!(run.finish().total, 0);
}

#[test]
fn events_that_are_not_awaited_change_nothing() {
    let mut pacer = Pacer::new(10, 4);
    let before = pacer;
    assert_eq!(pacer.step(Event::WaitElapsed), Action::Dispatch { start: 0, end: 4 });
    assert_eq!(pacer, before);
    pacer.step(Event::ChunkSettled { fatal: false });
    let waiting = pacer;
    assert_eq!(pacer.step(Event::ChunkSettled { fatal: false }), Action::Wait);
    assert_eq!(pacer, waiting);
    let mut done = Pacer::new(0, 4);
    assert_eq!(done.step(Event::WaitElapsed), Action::Finish);
    assert_eq!(done.step(Event::ChunkSettled { fatal: true }), Action::Finish);
    assert!(!done.aborted);
}

#[test]
fn one_failure_among_four_jobs_is_reported_alone() {
    let mut run = Scheduler::new(jobs(4), 4);
    assert_eq!(run.action(), Action::Dispatch { start: 0, end: 4 });
    assert_eq!(run.chunk(), &jobs(4)[..]);
    let submissions = vec![
        ok(),
        Submission::Answered { body: r#"{"status_code": 500, "error": "scanner busy"}"#.to_string() },
        ok(),
        ok(),
    ];
    assert_eq!(run.chunk_settled(&submissions), Some(Action::Finish));
    let summary = run.finish();
    assert_eq!(summary.total, 4);
    assert_eq!(summary.succeeded, 3);
    assert_eq!(
        summary.failures,
        vec![JobOutcome {
            job: jobs(4)[1].clone(),
            success: false,
            error: Some(r#"{"error":"scanner busy","status_code":500}"#.to_string()),
        }]
    );
}

#[test]
fn unreachable_endpoint_in_the_first_chunk_ends_the_run() {
    let mut run = Scheduler::new(jobs(6), 3);
    assert_eq!(run.action(), Action::Dispatch { start: 0, end: 3 });
    let submissions =
        vec![Submission::Unreachable { detail: "connection refused".to_string() }, ok(), ok()];
    assert_eq!(run.chunk_settled(&submissions), Some(Action::Finish));
    assert!(run.state().aborted);
    assert_eq!(run.state().phase, Phase::Done);
    assert_eq!(run.chunk(), &[][..]);
    assert_eq!(run.wait_elapsed(), Action::Finish);
    assert_eq!(run.chunk_settled(&vec![ok(), ok(), ok()]), None);
    let summary = run.finish();
    assert_eq!((summary.total, summary.succeeded, summary.failures.len()), (2, 2, 0));
}

#[test]
fn a_full_run_settles_every_job_once() {
    let mut run = Scheduler::new(jobs(10), 4);
    let mut dispatched: Vec<ScanJob> = vec![];
    let mut waits = 0;
    loop {
        match run.action() {
            Action::Dispatch { start, end } => {
                let chunk: Vec<ScanJob> = run.chunk().to_vec();
                assert_eq!(chunk.len(), end - start);
                dispatched.extend(chunk.iter().cloned());
                let submissions: Vec<Submission> = chunk.iter().map(|_| ok()).collect();
                assert!(run.chunk_settled(&submissions).is_some());
            }
            Action::Wait => {
                waits += 1;
                run.wait_elapsed();
            }
            Action::Finish => break,
        }
    }
    assert_eq!(dispatched, jobs(10));
    assert_eq!(waits, 2);
    let summary = run.finish();
    assert_eq!((summary.total, summary.succeeded), (10, 10));
}

#[test]
fn submissions_that_are_not_one_per_job_are_refused() {
    let mut run = Scheduler::new(jobs(5), 2);
    assert_eq!(run.chunk_settled(&vec![ok()]), None);
    assert_eq!(run.chunk_settled(&vec![ok(), ok(), ok()]), None);
    assert_eq!(run.action(), Action::Dispatch { start: 0, end: 2 });
    assert_eq!(run.chunk_settled(&vec![ok(), ok()]), Some(Action::Wait));
    assert_eq!(run.chunk_settled(&vec![ok(), ok()]), None);
    assert_eq!(run.wait_elapsed(), Action::Dispatch { start: 2, end: 4 });
}
