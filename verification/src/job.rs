//! Scan jobs: one image tag of one repository, to be submitted for scanning.

use vstd::prelude::*;

verus! {

/// One tag of one image under one registry reference.
#[derive(Clone, Debug, PartialEq, Eq)]
pub struct ScanJob {
    /// Endpoint host and repository-key path.
    pub registry: String,
    pub image_name: String,
    pub tag: String,
}

/// A scan job as plain text.
pub struct ScanJobView {
    pub registry: Seq<char>,
    pub image_name: Seq<char>,
    pub tag: Seq<char>,
}

impl View for ScanJob {
    type V = ScanJobView;

    open spec fn view(&self) -> ScanJobView {
        ScanJobView { registry: self.registry@, image_name: self.image_name@, tag: self.tag@ }
    }
}

/// The views of a sequence of jobs.
pub open spec fn job_views(jobs: Seq<ScanJob>) -> Seq<ScanJobView> {
    jobs.map_values(|j: ScanJob| j@)
}

impl ScanJob {
    /// A copy of the job.
    pub fn duplicate(&self) -> (copy: ScanJob)
        ensures
            copy@ == self@,
    {
        ScanJob {
            registry: self.registry.clone(),
            image_name: self.image_name.clone(),
            tag: self.tag.clone(),
        }
    }
}

} // verus!
