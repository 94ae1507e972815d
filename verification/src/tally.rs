//! What the workers report: results, warnings, and the grand total.

use crate::archive::ArchiveFormatError;
use crate::book::FileCount;
use crate::schedule::{chunk_views, lemma_partition_complete, partition};
use vstd::prelude::*;

verus! {

/// The count of one file that was processed.
#[derive(Debug, PartialEq, Eq)]
pub struct FileResult {
    /// The name under which the file is reported.
    pub name: String,
    /// The characters other than whitespace in its narrative text.
    pub count: u64,
}

/// Why a file, or one entry of it, was left out of the count.
#[derive(Debug, PartialEq, Eq)]
pub enum Warning {
    /// The file could not be opened as a regular file; `reason` says why.
    CannotOpen { file: String, reason: String },
    /// The file is no valid archive.
    NotAnArchive { file: String },
    /// The entry `entry` of the file holds narrative markup and could not be decoded.
    EntrySkipped { file: String, entry: String },
}

/// What one worker has to report when its chunk is done.
#[derive(Debug, PartialEq, Eq)]
pub struct WorkerReport {
    /// The files that were counted, in the order of the chunk.
    pub results: Vec<FileResult>,
    /// What was left out, in the order in which it was met.
    pub warnings: Vec<Warning>,
}

/// The warnings for the entries `entries` of the file `file`.
pub open spec fn entry_warnings(file: String, entries: Seq<String>) -> Seq<Warning> {
    entries.map_values(|entry: String| Warning::EntrySkipped { file, entry })
}

/// The sum of the counts of `results`.
pub open spec fn count_sum(results: Seq<FileResult>) -> nat
    decreases results.len(),
{
    if results.len() == 0 {
        0
    } else {
        count_sum(results.drop_last()) + results.last().count as nat
    }
}

/// `n`, or the largest `u64` where `n` is larger.
pub open spec fn saturated(n: nat) -> u64 {
    if n > u64::MAX {
        u64::MAX
    } else {
        n as u64
    }
}

/// The grand total of the results of all workers: the sum of all counts, which stops at
/// `u64::MAX`.
pub open spec fn total_of(groups: Seq<Seq<FileResult>>) -> u64 {
    saturated(count_sum(groups.flatten()))
}

impl WorkerReport {
    /// The report of a worker that has not taken a file yet.
    pub fn new() -> (report: WorkerReport)
        ensures
            report.results@.len() == 0,
            report.warnings@.len() == 0,
    {
        WorkerReport { results: Vec::new(), warnings: Vec::new() }
    }

    /// Takes in a file that could not be opened: it adds a warning and no result.
    pub fn record_open_failure(&mut self, file: String, reason: String)
        ensures
            final(self).results == old(self).results,
            final(self).warnings@ == old(self).warnings@.push(
                Warning::CannotOpen { file, reason },
            ),
    {
        self.warnings.push(Warning::CannotOpen { file, reason });
    }

    /// Takes in what counting the file `file` gave. A file that was counted adds one
    /// result, and one warning for each entry that was skipped; a file that is no
    /// archive adds a warning and no result, so that it adds nothing to any total.
    pub fn record_count(&mut self, file: String, counted: Result<FileCount, ArchiveFormatError>)
        ensures
            match counted {
                Ok(book) => {
                    &&& final(self).results@ == old(self).results@.push(
                        FileResult { name: file, count: book.count },
                    )
                    &&& final(self).warnings@ == old(self).warnings@ + entry_warnings(
                        file,
                        book.skipped@,
                    )
                    &&& count_sum(final(self).results@) == count_sum(old(self).results@)
                        + book.count
                },
                Err(_) => {
                    &&& final(self).results == old(self).results
                    &&& final(self).warnings@ == old(self).warnings@.push(
                        Warning::NotAnArchive { file },
                    )
                },
            },
    {
        match counted {
            Ok(book) => {
                let mut index: usize = 0;
                while index < book.skipped.len()
                    invariant
                        index <= book.skipped.len(),
                        self.results == old(self).results,
                        self.warnings@ == old(self).warnings@ + entry_warnings(
                            file,
                            book.skipped@.take(index as int),
                        ),
                    decreases book.skipped.len() - index,
                {
                    let warning = Warning::EntrySkipped {
                        file: file.clone(),
                        entry: book.skipped[index].clone(),
                    };
                    proof {
                        assert(book.skipped@.take(index + 1) =~= book.skipped@.take(
                            index as int,
                        ).push(book.skipped@[index as int]));
                        assert(entry_warnings(file, book.skipped@.take(index + 1))
                            =~= entry_warnings(file, book.skipped@.take(index as int)).push(
                            warning,
                        ));
                    }
                    self.warnings.push(warning);
                    index = index + 1;
                }
                proof {
                    assert(book.skipped@.take(book.skipped@.len() as int) =~= book.skipped@);
                    assert(self.results@.push(FileResult { name: file, count: book.count })
                        .drop_last() =~= self.results@);
                }
                self.results.push(FileResult { name: file, count: book.count });
            },
            Err(_) => {
                self.warnings.push(Warning::NotAnArchive { file });
            },
        }
    }
}

/// Adds up the counts of one worker's results. The sum stops at `u64::MAX`.
pub fn group_total(results: &Vec<FileResult>) -> (total: u64)
    ensures
        total == saturated(count_sum(results@)),
{
    let mut total: u64 = 0;
    let mut index: usize = 0;
    while index < results.len()
        invariant
            index <= results.len(),
            total == saturated(count_sum(results@.take(index as int))),
        decreases results.len() - index,
    {
        proof {
            assert(results@.take(index + 1).drop_last() =~= results@.take(index as int));
        }
        total = total.saturating_add(results[index].count);
        index = index + 1;
    }
    proof {
        assert(results@.take(results@.len() as int) =~= results@);
    }
    total
}

/// Adds up the counts of all workers' results, group by group. The sum stops at
/// `u64::MAX`.
pub fn grand_total(groups: &Vec<Vec<FileResult>>) -> (total: u64)
    ensures
        total == total_of(chunk_views(groups@)),
{
    let ghost views = chunk_views(groups@);
    let mut total: u64 = 0;
    let mut index: usize = 0;
    while index < groups.len()
        invariant
            index <= groups.len(),
            views == chunk_views(groups@),
            total == total_of(views.take(index as int)),
        decreases groups.len() - index,
    {
        proof {
            let before = views.take(index as int);
            assert(views.take(index + 1) =~= before.push(views[index as int]));
            before.lemma_flatten_push(views[index as int]);
            lemma_count_sum_concat(before.flatten(), views[index as int]);
        }
        total = total.saturating_add(group_total(&groups[index]));
        index = index + 1;
    }
    proof {
        assert(views.take(views.len() as int) =~= views);
    }
    total
}

/// The sum over two lists, one after the other, is the sum of their sums.
pub proof fn lemma_count_sum_concat(first: Seq<FileResult>, second: Seq<FileResult>)
    ensures
        count_sum(first + second) == count_sum(first) + count_sum(second),
    decreases second.len(),
{
    if second.len() == 0 {
        assert(first + second =~= first);
    } else {
        lemma_count_sum_concat(first, second.drop_last());
        assert((first + second).drop_last() =~= first + second.drop_last());
    }
}

/// However the results are put into groups, the grand total is the sum of all counts,
/// stopped at `u64::MAX`: it does not depend on the grouping.
pub proof fn lemma_total_of_any_grouping(groups: Seq<Seq<FileResult>>, results: Seq<FileResult>)
    requires
        groups.flatten() == results,
    ensures
        total_of(groups) == saturated(count_sum(results)),
        count_sum(results) <= u64::MAX ==> total_of(groups) == count_sum(results),
{
}

/// The grand total is the same for every number of workers: splitting the results for
/// `workers` workers and for `others` workers gives the same total, the sum of all
/// counts, stopped at `u64::MAX`.
pub proof fn lemma_total_ignores_worker_count(results: Seq<FileResult>, workers: nat, others: nat)
    ensures
        total_of(partition(results, workers)) == total_of(partition(results, others)),
        total_of(partition(results, workers)) == saturated(count_sum(results)),
{
    lemma_partition_complete(results, workers);
    lemma_partition_complete(results, others);
}

/// Splitting for any number of workers gives the same results in the same order: the
/// chunks of one split, one after the other, are those of any other.
pub proof fn lemma_split_keeps_results<T>(tasks: Seq<T>, workers: nat, others: nat)
    ensures
        partition(tasks, workers).flatten() == partition(tasks, others).flatten(),
        partition(tasks, workers).flatten().to_multiset() == tasks.to_multiset(),
{
    lemma_partition_complete(tasks, workers);
    lemma_partition_complete(tasks, others);
}

} // verus!
