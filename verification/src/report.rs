//! A whole run: scan, order, limit, layout.

use vstd::prelude::*;
use crate::failure::{fatal_message, fatal_text};
use crate::item::{rows, Row, ScanItem};
use crate::order::SortBy;
use crate::scan::{
    collect_stats, target_failure, target_files, target_rows, target_warnings, TargetProbe,
};
use crate::sort::{apply_limit, lemma_sorted_rows, limited, sort_items, sorted_rows};
use crate::table::{render_table, table_lines};
use crate::text::texts;
use crate::walk::pinned;

verus! {

/// The lines that report `items`: the rows put in order, then cut to the
/// limit, then laid out.
pub open spec fn report_lines(items: Seq<Row>, sort: SortBy, limit: Option<usize>) -> Seq<
    Seq<char>,
> {
    table_lines(limited(sorted_rows(items, sort), limit))
}

/// What a run leaves behind.
#[derive(Debug)]
pub struct Outcome {
    /// The exit code: 0 for a scan that went through, 1 for a target that
    /// could not be examined.
    pub exit_code: i32,
    /// The lines of the report.
    pub output: Vec<String>,
    /// The lines for the error stream: the warnings, or the one message
    /// about the target.
    pub errors: Vec<String>,
    /// How many regular files were met, pinned at the largest 64-bit count.
    pub files: u64,
}

/// Reports `items`: all of them are put in order first, and only then is
/// the listing cut to `limit`.
pub fn report(items: Vec<ScanItem>, sort: SortBy, limit: Option<usize>) -> (lines: Vec<String>)
    ensures
        texts(lines@) == report_lines(rows(items@), sort, limit),
{
    let mut listed = items;
    sort_items(&mut listed, sort);
    let ghost ordered = rows(listed@);
    apply_limit(&mut listed, limit);
    assert(rows(listed@) =~= limited(ordered, limit));
    render_table(&listed)
}

/// Runs a scan of `target` from what was found there, and reports it. Only
/// a target that cannot be examined or opened makes the run fail; warnings
/// do not touch the exit code.
pub fn run(target: &str, probe: &TargetProbe, sort: SortBy, limit: Option<usize>) -> (outcome:
    Outcome)
    ensures
        match target_failure(*probe) {
            Some(err) => outcome.exit_code == 1 && outcome.output@.len() == 0 && texts(
                outcome.errors@,
            ) == seq![fatal_text(target@, err)] && outcome.files == 0,
            None => outcome.exit_code == 0 && texts(outcome.output@) == report_lines(
                target_rows(target@, *probe),
                sort,
                limit,
            ) && texts(outcome.errors@) == target_warnings(target@, *probe) && outcome.files as nat
                == pinned(target_files(*probe)),
        },
{
    match collect_stats(target, probe) {
        Ok(scan) => {
            let output = report(scan.items, sort, limit);
            Outcome { exit_code: 0, output, errors: scan.warnings, files: scan.files }
        },
        Err(err) => {
            let mut errors: Vec<String> = Vec::new();
            let message = fatal_message(target, &err);
            errors.push(message);
            assert(texts(errors@) =~= seq![fatal_text(target@, err)]);
            Outcome { exit_code: 1, output: Vec::new(), errors, files: 0 }
        },
    }
}

/// Without rows the report is the one line that says so: the run over a
/// directory without entries prints it, and so does every run cut to a
/// limit of nothing.
pub proof fn lemma_report_without_rows(items: Seq<Row>, sort: SortBy, limit: Option<usize>)
    requires
        items.len() == 0 || limit == Some(0usize),
    ensures
        report_lines(items, sort, limit) == seq!["No items found."@],
{
    lemma_sorted_rows(items, sort);
}

} // verus!
