//! Tallies over a batch of images.

use crate::process::ProcessResult;
use vstd::prelude::*;

verus! {

/// How many images of a batch were repaired, skipped, or failed.
#[derive(Clone, Copy, Debug, PartialEq, Eq, Structural)]
pub struct ProcessingStats {
    pub completed: usize,
    pub skipped: usize,
    pub errors: usize,
}

/// One line of the summary of a batch.
#[derive(Clone, Copy, Debug, PartialEq, Eq, Structural)]
pub enum SummaryLine {
    /// Number of images that were repaired.
    Completed(usize),
    /// Number of images that were skipped.
    Skipped(usize),
    /// Number of images that failed.
    Errors(usize),
}

/// Number of the first `n` results that are equal to `result`. A failed
/// image is recorded as `None`.
pub open spec fn count_of(
    results: Seq<Option<ProcessResult>>,
    result: Option<ProcessResult>,
    n: int,
) -> nat
    decreases n,
{
    if n <= 0 {
        0
    } else if results[n - 1] == result {
        count_of(results, result, n - 1) + 1
    } else {
        count_of(results, result, n - 1)
    }
}

impl ProcessingStats {
    /// The lines of the summary: always the number of repaired images, and
    /// the numbers of skipped and failed images where they are not 0.
    pub open spec fn summary(self) -> Seq<SummaryLine> {
        seq![SummaryLine::Completed(self.completed)] + (if self.skipped > 0 {
            seq![SummaryLine::Skipped(self.skipped)]
        } else {
            Seq::empty()
        }) + (if self.errors > 0 {
            seq![SummaryLine::Errors(self.errors)]
        } else {
            Seq::empty()
        })
    }

    /// Tallies that are all 0.
    pub fn new() -> (stats: ProcessingStats)
        ensures
            stats == (ProcessingStats { completed: 0, skipped: 0, errors: 0 }),
    {
        ProcessingStats { completed: 0, skipped: 0, errors: 0 }
    }

    /// Counts the results of a batch, one for each image, a failed image
    /// being `None`.
    pub fn tally(results: &Vec<Option<ProcessResult>>) -> (stats: ProcessingStats)
        ensures
            stats.completed == count_of(
                results@,
                Some(ProcessResult::Success),
                results@.len() as int,
            ),
            stats.skipped == count_of(
                results@,
                Some(ProcessResult::Skipped),
                results@.len() as int,
            ),
            stats.errors == count_of(results@, None, results@.len() as int),
            stats.completed + stats.skipped + stats.errors == results@.len(),
    {
        let mut stats: ProcessingStats = ProcessingStats::new();
        let mut i: usize = 0;
        while i < results.len()
            invariant
                i <= results.len(),
                stats.completed == count_of(results@, Some(ProcessResult::Success), i as int),
                stats.skipped == count_of(results@, Some(ProcessResult::Skipped), i as int),
                stats.errors == count_of(results@, None, i as int),
                stats.completed + stats.skipped + stats.errors == i,
            decreases results.len() - i,
        {
            match results[i] {
                Some(ProcessResult::Success) => {
                    stats.completed = stats.completed + 1;
                },
                Some(ProcessResult::Skipped) => {
                    stats.skipped = stats.skipped + 1;
                },
                None => {
                    stats.errors = stats.errors + 1;
                },
            }
            i = i + 1;
        }
        stats
    }

    /// The lines to print as the summary of the batch.
    pub fn print_summary(&self) -> (lines: Vec<SummaryLine>)
        ensures
            lines@ == self.summary(),
    {
        let mut lines: Vec<SummaryLine> = Vec::new();
        lines.push(SummaryLine::Completed(self.completed));
        if self.skipped > 0 {
            lines.push(SummaryLine::Skipped(self.skipped));
        }
        if self.errors > 0 {
            lines.push(SummaryLine::Errors(self.errors));
        }
        lines
    }
}

} // verus!
