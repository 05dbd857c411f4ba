//! The dispatcher's judgement: what the answer to a submitted job means.
//! A job succeeds only where the scan endpoint was reached, answered with
//! well-formed JSON, and reported the status code of success.

use vstd::prelude::*;
use vstd::string::*;
use crate::job::{ScanJob, ScanJobView};
use crate::json::{
    as_u64, error_message, get, member, message_of, parse, parsed, render, rendered, unsigned_of,
};

verus! {

/// The one status code that means success.
pub const SUCCESS_STATUS: u64 = 200;

/// What became of one submission, as the transport saw it.
#[derive(Clone, Debug, PartialEq, Eq)]
pub enum Submission {
    /// The scan endpoint could not be reached at all.
    Unreachable { detail: String },
    /// The endpoint was reached, but this exchange failed or its answer
    /// could not be read.
    Failed { detail: String },
    /// The endpoint answered with this body.
    Answered { body: String },
}

/// The outcome of one job: whether it succeeded, and if not, why.
#[derive(Clone, Debug, PartialEq, Eq)]
pub struct JobOutcome {
    pub job: ScanJob,
    pub success: bool,
    pub error: Option<String>,
}

/// A job outcome as plain values.
pub struct JobOutcomeView {
    pub job: ScanJobView,
    pub success: bool,
    pub error: Option<Seq<char>>,
}

impl View for JobOutcome {
    type V = JobOutcomeView;

    open spec fn view(&self) -> JobOutcomeView {
        JobOutcomeView {
            job: self.job@,
            success: self.success,
            error: match self.error {
                Some(e) => Some(e@),
                None => None,
            },
        }
    }
}

/// What the dispatcher concludes from one submission.
#[derive(Clone, Debug, PartialEq, Eq)]
pub enum Judgement {
    /// The job is settled, as a success or as a failure of its own.
    Settled(JobOutcome),
    /// The endpoint is unreachable: the run must not go on.
    Fatal { job: ScanJob, detail: String },
}

/// Where scan jobs are submitted, under the scanner's base address.
pub open spec fn scan_address(base: Seq<char>) -> Seq<char> {
    base + "/v1/scan"@
}

/// The address at which scan jobs are submitted.
pub fn scan_url(base: &str) -> (url: String)
    ensures
        url@ == scan_address(base@),
{
    let mut url = base.to_owned();
    url.append("/v1/scan");
    url
}

/// The status code that an answer reports: the number under `status_code`.
pub open spec fn status_in(doc: serde_json::Value) -> Option<u64> {
    match member(doc, "status_code"@) {
        Some(code) => unsigned_of(code),
        None => None,
    }
}

/// Why an answer does not count as success: `None` where it reports the
/// status of success, otherwise the answer itself, as JSON text.
pub open spec fn objection_to(doc: serde_json::Value) -> Option<Seq<char>> {
    if status_in(doc) == Some(SUCCESS_STATUS) {
        None
    } else {
        Some(rendered(doc))
    }
}

/// Why an answer's body does not count as success: `None` where it is JSON
/// that reports the status of success; the parser's message where it is not
/// JSON; otherwise the answer itself.
pub open spec fn objection_to_body(body: Seq<char>) -> Option<Seq<char>> {
    match parsed(body) {
        Ok(doc) => objection_to(doc),
        Err(e) => Some(message_of(e)),
    }
}

/// The outcome that a submission settles a job with, if it settles it.
pub open spec fn outcome_of(job: ScanJobView, submission: Submission) -> Option<JobOutcomeView> {
    match submission {
        Submission::Unreachable { .. } => None,
        Submission::Failed { detail } => Some(
            JobOutcomeView { job, success: false, error: Some(detail@) },
        ),
        Submission::Answered { body } => Some(
            JobOutcomeView {
                job,
                success: objection_to_body(body@) is None,
                error: objection_to_body(body@),
            },
        ),
    }
}

/// Examines a well-formed answer: `None` for success, else the error detail.
pub fn examine(doc: &serde_json::Value) -> (objection: Option<String>)
    ensures
        match objection {
            Some(detail) => objection_to(*doc) == Some(detail@),
            None => objection_to(*doc) is None,
        },
{
    let code = match get(doc, "status_code") {
        Some(code) => as_u64(code),
        None => None,
    };
    match code {
        Some(c) => {
            if c == SUCCESS_STATUS {
                None
            } else {
                Some(render(doc))
            }
        },
        None => Some(render(doc)),
    }
}

/// Examines the body of an answer: `None` for success, else the error detail.
pub fn examine_body(body: &str) -> (objection: Option<String>)
    ensures
        match objection {
            Some(detail) => objection_to_body(body@) == Some(detail@),
            None => objection_to_body(body@) is None,
        },
{
    match parse(body) {
        Ok(doc) => examine(&doc),
        Err(e) => Some(error_message(&e)),
    }
}

/// Judges one submission of `job`. An unreachable endpoint is fatal; every
/// other submission settles the job, as a success where the answer reports
/// the status of success and as a failure with its error detail otherwise.
pub fn judge(job: &ScanJob, submission: &Submission) -> (judgement: Judgement)
    ensures
        match judgement {
            Judgement::Settled(outcome) => outcome_of(job@, *submission) == Some(outcome@),
            Judgement::Fatal { job: j, detail } => j@ == job@ && *submission
                == (Submission::Unreachable { detail }),
        },
{
    match submission {
        Submission::Unreachable { detail } => Judgement::Fatal {
            job: job.duplicate(),
            detail: detail.clone(),
        },
        Submission::Failed { detail } => Judgement::Settled(
            JobOutcome { job: job.duplicate(), success: false, error: Some(detail.clone()) },
        ),
        Submission::Answered { body } => {
            let objection = examine_body(body.as_str());
            let success = objection.is_none();
            Judgement::Settled(JobOutcome { job: job.duplicate(), success, error: objection })
        },
    }
}

/// The outcomes that the submissions of a chunk settle its jobs with, in the
/// order of the jobs; a job whose submission found the endpoint unreachable
/// has none.
pub open spec fn settled(jobs: Seq<ScanJobView>, submissions: Seq<Submission>) -> Seq<
    JobOutcomeView,
>
    decreases submissions.len(),
{
    if submissions.len() == 0 || jobs.len() == 0 {
        Seq::empty()
    } else {
        let before = settled(jobs.drop_last(), submissions.drop_last());
        match outcome_of(jobs.last(), submissions.last()) {
            Some(outcome) => before.push(outcome),
            None => before,
        }
    }
}

/// Whether any of the submissions found the endpoint unreachable.
pub open spec fn any_unreachable(submissions: Seq<Submission>) -> bool {
    exists|i: int| 0 <= i < submissions.len() && submissions[i] is Unreachable
}

} // verus!
