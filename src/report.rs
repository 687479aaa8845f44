//! What a traversal reports, node by node and as a whole.
use vstd::prelude::*;
use std::time::Duration;

verus! {

/// What one visited node reports.
#[derive(Debug, PartialEq, Eq)]
pub enum Report {
    /// A collection, with the time its listing request took.
    Dir { url: String, elapsed: Duration },
    /// A file, with the time its `HEAD` request took and where it redirects.
    File { url: String, elapsed: Duration, target: Option<String> },
}

/// The summary of one traversal.
#[derive(Debug, PartialEq, Eq)]
pub struct TraversalReport {
    /// The bound on concurrently running tasks, at least one.
    pub workers: usize,
    pub directory_request_times: Vec<Duration>,
    pub file_request_times: Vec<Duration>,
    pub overall_time: Duration,
}

impl TraversalReport {
    /// How many requests the traversal made, saturating at `usize::MAX`.
    pub fn requests(&self) -> (r: usize)
        ensures
            r == if self.directory_request_times@.len() + self.file_request_times@.len()
                > usize::MAX {
                usize::MAX as int
            } else {
                (self.directory_request_times@.len() + self.file_request_times@.len()) as int
            },
    {
        self.directory_request_times.len().saturating_add(self.file_request_times.len())
    }
}

/// Files a node's request time under directories or files.
pub fn record_report(
    report: &Report,
    directory_request_times: &mut Vec<Duration>,
    file_request_times: &mut Vec<Duration>,
)
    ensures
        match report {
            Report::Dir { elapsed, .. } => final(directory_request_times)@ == old(
                directory_request_times,
            )@.push(*elapsed) && final(file_request_times)@ == old(file_request_times)@,
            Report::File { elapsed, .. } => final(file_request_times)@ == old(
                file_request_times,
            )@.push(*elapsed) && final(directory_request_times)@ == old(
                directory_request_times,
            )@,
        },
{
    match report {
        Report::Dir { elapsed, .. } => directory_request_times.push(*elapsed),
        Report::File { elapsed, .. } => file_request_times.push(*elapsed),
    }
}

} // verus!
