//! The ingest queue's message types and the status report the API
//! surface builds from the worker's progress slot. The queue itself is
//! an unbounded channel run by the caller; a single worker drains it
//! and calls the matching index operation per job.

use vstd::prelude::*;
use crate::DocId;

verus! {

/// A unit of work on the ingest queue.
#[derive(Debug, Clone)]
pub enum JobType {
    /// Import the file at `path`; `copy` says whether the source must
    /// be kept.
    ImportFile { path: String, copy: bool },
    /// Re-run extraction and classification on a stored document,
    /// forcing OCR when asked.
    ReprocessFile { id: DocId, force_ocr: bool },
}

/// What the job worker is doing right now.
#[derive(Debug, Clone)]
pub enum JobStatus {
    Idle,
    Busy { current: String, progress: i32, queue: usize },
}

/// Builds the published status from the worker's progress slot and the
/// queue length: a current job reports busy with its description and
/// progress, none reports idle.
pub fn job_status(current: Option<(String, i32)>, queue: usize) -> (r: JobStatus)
    ensures
        current matches Some(c) ==> (r matches JobStatus::Busy { current: s, progress, queue: q }
            && s@ == c.0@ && progress == c.1 && q == queue),
        current is None ==> r is Idle,
{
    match current {
        Some((job, progress)) => JobStatus::Busy { current: job, progress, queue },
        None => JobStatus::Idle,
    }
}

} // verus!
