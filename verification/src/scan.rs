//! From what was found at a target to the rows of its report.

use vstd::prelude::*;
use vstd::multiset::Multiset;
use crate::failure::{warning, warning_text, FailureKind, IoFailure, Stage};
use crate::item::{rows, Row, ScanItem};
use crate::text::texts;
use crate::walk::{
    files_seen, lemma_total_ignores_order, pinned, walk_size, walk_total, walk_warnings,
    WalkEvent,
};

verus! {

/// What examining a path told about it.
#[derive(Clone, Copy, Debug, PartialEq, Eq, Structural)]
pub enum Stat {
    /// A regular file of this length in bytes.
    File { len: u64 },
    /// A directory. Whatever is no regular file is treated as one.
    Directory,
}

/// What to do with a path that was examined.
#[derive(Debug, PartialEq, Eq)]
pub enum Classified {
    /// The path is a file: here is its row, and it counts as one file seen.
    Item(ScanItem),
    /// The path is a directory: its row needs the total of a descent below
    /// it.
    Descend(String),
}

/// All that was found at one path: that it could not be examined, a file's
/// length, or what a descent below a directory met.
#[derive(Debug, PartialEq, Eq)]
pub enum Probe {
    /// The path could not be examined.
    Failed(IoFailure),
    /// A regular file of this length in bytes.
    File { len: u64 },
    /// A directory, with the events of the descent below it.
    Directory { events: Vec<WalkEvent> },
}

/// One entry of the target directory as its listing gave it.
#[derive(Debug, PartialEq, Eq)]
pub enum Listed {
    /// An entry, with what was found at its path.
    Entry { path: String, probe: Probe },
    /// An entry that the listing could not read.
    Failed(IoFailure),
}

/// All that was found at the target of a scan.
#[derive(Debug, PartialEq, Eq)]
pub enum TargetProbe {
    /// The target could not be examined.
    Failed(IoFailure),
    /// The target is a regular file of this length in bytes.
    File { len: u64 },
    /// The target is a directory, with its listing, or with the failure to
    /// open it.
    Directory { listing: Result<Vec<Listed>, IoFailure> },
}

/// What the scan of one path came to.
#[derive(Debug)]
pub struct Scanned {
    /// The path's row.
    pub item: ScanItem,
    /// How many regular files were met.
    pub files: u64,
    /// The warnings to give.
    pub warnings: Vec<String>,
}

/// What a whole scan came to.
#[derive(Debug)]
pub struct ScanReport {
    /// One row for the target file, or one for each child of the target
    /// directory that could be listed and examined, in the listing's order.
    pub items: Vec<ScanItem>,
    /// How many regular files were met, pinned at the largest 64-bit count.
    pub files: u64,
    /// The warnings to give.
    pub warnings: Vec<String>,
}

/// The row of a regular file.
pub open spec fn file_row(path: Seq<char>, len: u64) -> Row {
    Row { path, size: len as nat, is_dir: false }
}

/// The row of a directory below which a descent met `events`: its size is
/// the sum of the files that could be read.
pub open spec fn directory_row(path: Seq<char>, events: Seq<WalkEvent>) -> Row {
    Row { path, size: walk_total(events), is_dir: true }
}

/// The row that a listed entry gets, if it gets one: none where the entry
/// could not be listed or examined.
pub open spec fn listed_row(entry: Listed) -> Option<Row> {
    match entry {
        Listed::Entry { path, probe } => match probe {
            Probe::Failed(_) => None,
            Probe::File { len } => Some(file_row(path@, len)),
            Probe::Directory { events } => Some(directory_row(path@, events@)),
        },
        Listed::Failed(_) => None,
    }
}

/// The rows of a listing, in its order.
pub open spec fn scan_rows(listing: Seq<Listed>) -> Seq<Row>
    decreases listing.len(),
{
    if listing.len() == 0 {
        Seq::empty()
    } else {
        let before = scan_rows(listing.drop_last());
        match listed_row(listing.last()) {
            Some(row) => before.push(row),
            None => before,
        }
    }
}

/// How many regular files were met at or below one listed entry.
pub open spec fn listed_files(entry: Listed) -> nat {
    match entry {
        Listed::Entry { path, probe } => match probe {
            Probe::Failed(_) => 0,
            Probe::File { len } => 1,
            Probe::Directory { events } => files_seen(events@),
        },
        Listed::Failed(_) => 0,
    }
}

/// How many regular files were met below the target directory.
pub open spec fn scan_files(listing: Seq<Listed>) -> nat
    decreases listing.len(),
{
    if listing.len() == 0 {
        0
    } else {
        scan_files(listing.drop_last()) + listed_files(listing.last())
    }
}

/// The warnings about entries that the listing of `target` could not read.
pub open spec fn listing_warnings(target: Seq<char>, listing: Seq<Listed>) -> Seq<Seq<char>>
    decreases listing.len(),
{
    if listing.len() == 0 {
        Seq::empty()
    } else {
        let before = listing_warnings(target, listing.drop_last());
        match listing.last() {
            Listed::Failed(err) => if err.kind == FailureKind::PermissionDenied {
                before
            } else {
                before.push(warning_text(Stage::Listing, target, err))
            },
            _ => before,
        }
    }
}

/// The warnings that the scan of one listed entry calls for.
pub open spec fn entry_warnings(entry: Listed) -> Seq<Seq<char>> {
    match entry {
        Listed::Entry { path, probe } => match probe {
            Probe::Failed(err) => if err.kind == FailureKind::PermissionDenied {
                Seq::empty()
            } else {
                seq![warning_text(Stage::Child, path@, err)]
            },
            Probe::File { len } => Seq::empty(),
            Probe::Directory { events } => walk_warnings(path@, events@),
        },
        Listed::Failed(_) => Seq::empty(),
    }
}

/// The warnings that the scans of the listed entries call for, entry by
/// entry.
pub open spec fn children_warnings(listing: Seq<Listed>) -> Seq<Seq<char>>
    decreases listing.len(),
{
    if listing.len() == 0 {
        Seq::empty()
    } else {
        children_warnings(listing.drop_last()) + entry_warnings(listing.last())
    }
}

/// The failure that ends a scan, if there is one: that the target could not
/// be examined, or that it is a directory that could not be opened.
pub open spec fn target_failure(probe: TargetProbe) -> Option<IoFailure> {
    match probe {
        TargetProbe::Failed(err) => Some(err),
        TargetProbe::File { len } => None,
        TargetProbe::Directory { listing } => match listing {
            Ok(_) => None,
            Err(err) => Some(err),
        },
    }
}

/// The rows of a scan: for a file its own row and no other, for a directory
/// the rows of its listing.
pub open spec fn target_rows(target: Seq<char>, probe: TargetProbe) -> Seq<Row> {
    match probe {
        TargetProbe::Failed(_) => Seq::empty(),
        TargetProbe::File { len } => seq![file_row(target, len)],
        TargetProbe::Directory { listing } => match listing {
            Ok(entries) => scan_rows(entries@),
            Err(_) => Seq::empty(),
        },
    }
}

/// How many regular files a scan met.
pub open spec fn target_files(probe: TargetProbe) -> nat {
    match probe {
        TargetProbe::Failed(_) => 0,
        TargetProbe::File { len } => 1,
        TargetProbe::Directory { listing } => match listing {
            Ok(entries) => scan_files(entries@),
            Err(_) => 0,
        },
    }
}

/// The warnings of a scan: first those about entries that could not be
/// listed, then those about the entries that were, entry by entry.
pub open spec fn target_warnings(target: Seq<char>, probe: TargetProbe) -> Seq<Seq<char>> {
    match probe {
        TargetProbe::Directory { listing } => match listing {
            Ok(entries) => listing_warnings(target, entries@) + children_warnings(entries@),
            Err(_) => Seq::empty(),
        },
        _ => Seq::empty(),
    }
}

/// Decides what an examined path is. A path that could not be examined
/// hands its failure on.
pub fn classify(path: String, stat: Result<Stat, IoFailure>) -> (found: Result<
    Classified,
    IoFailure,
>)
    ensures
        match stat {
            Err(err) => found == Err::<Classified, IoFailure>(err),
            Ok(Stat::File { len }) => found matches Ok(Classified::Item(item)) && item@
                == file_row(path@, len),
            Ok(Stat::Directory) => found == Ok::<Classified, IoFailure>(
                Classified::Descend(path),
            ),
        },
{
    match stat {
        Err(err) => Err(err),
        Ok(Stat::File { len }) => Ok(Classified::Item(ScanItem::new(path, len, false))),
        Ok(Stat::Directory) => Ok(Classified::Descend(path)),
    }
}

/// Scans one path from what was found there. A file gives its own length, a
/// directory the total of the descent below it; only a path that could not
/// be examined gives no row, and hands its failure on.
pub fn stat_path(path: &str, probe: &Probe) -> (found: Result<Scanned, IoFailure>)
    ensures
        match *probe {
            Probe::Failed(err) => found matches Err(e) && e == err,
            Probe::File { len } => found matches Ok(scanned) && scanned.item@ == file_row(
                path@,
                len,
            ) && scanned.files == 1 && scanned.warnings@.len() == 0,
            Probe::Directory { events } => found matches Ok(scanned) && scanned.item@
                == directory_row(path@, events@) && scanned.files as nat == files_seen(events@)
                && texts(scanned.warnings@) == walk_warnings(path@, events@),
        },
{
    match probe {
        Probe::Failed(err) => Err(err.clone()),
        Probe::File { len } => Ok(
            Scanned {
                item: ScanItem::new(path.to_owned(), *len, false),
                files: 1,
                warnings: Vec::new(),
            },
        ),
        Probe::Directory { events } => {
            let report = walk_size(path, events);
            Ok(
                Scanned {
                    item: ScanItem::new(path.to_owned(), report.total, true),
                    files: report.files,
                    warnings: report.warnings,
                },
            )
        },
    }
}

/// Scans a target from what was found there. A target that cannot be
/// examined or opened fails the scan with that failure: nothing else does.
/// A file gives one row, its own. A directory gives one row for each entry
/// that could be listed and examined; the others are left out, with a
/// warning unless access was refused.
pub fn collect_stats(target: &str, probe: &TargetProbe) -> (scan: Result<ScanReport, IoFailure>)
    ensures
        match target_failure(*probe) {
            Some(err) => scan matches Err(e) && e == err,
            None => scan matches Ok(report) && rows(report.items@) == target_rows(target@, *probe)
                && report.files as nat == pinned(target_files(*probe)) && texts(report.warnings@)
                == target_warnings(target@, *probe),
        },
{
    match probe {
        TargetProbe::Failed(err) => Err(err.clone()),
        TargetProbe::File { len } => {
            let mut items: Vec<ScanItem> = Vec::new();
            items.push(ScanItem::new(target.to_owned(), *len, false));
            assert(rows(items@) =~= seq![file_row(target@, *len)]);
            let warnings: Vec<String> = Vec::new();
            assert(texts(warnings@) =~= Seq::<Seq<char>>::empty());
            Ok(ScanReport { items, files: 1, warnings })
        },
        TargetProbe::Directory { listing: Err(err) } => Err(err.clone()),
        TargetProbe::Directory { listing: Ok(entries) } => {
            let mut warnings = unlisted(target, entries);
            let ghost first = texts(warnings@);
            let mut items: Vec<ScanItem> = Vec::new();
            let mut files: u64 = 0;
            let mut done: usize = 0;
            assert(rows(items@) =~= scan_rows(entries@.take(0)));
            assert(texts(warnings@) =~= first + children_warnings(entries@.take(0)));
            while done < entries.len()
                invariant
                    done <= entries.len(),
                    rows(items@) == scan_rows(entries@.take(done as int)),
                    files as nat == pinned(scan_files(entries@.take(done as int))),
                    texts(warnings@) == first + children_warnings(entries@.take(done as int)),
                decreases entries.len() - done,
            {
                let ghost before = entries@.take(done as int);
                let ghost after = entries@.take(done + 1);
                let ghost said = texts(warnings@);
                let ghost listed = rows(items@);
                let ghost below = children_warnings(before);
                assert(after.drop_last() =~= before);
                assert(after.last() == entries@[done as int]);
                match &entries[done] {
                    Listed::Entry { path, probe } => {
                        match stat_path(path.as_str(), probe) {
                            Ok(scanned) => {
                                let Scanned { item, files: met, warnings: mut more } = scanned;
                                let ghost added = texts(more@);
                                items.push(item);
                                files = files.saturating_add(met);
                                warnings.append(&mut more);
                                assert(rows(items@) =~= listed.push(item@));
                                assert(texts(warnings@) =~= said + added);
                                assert(first + below + added =~= first + (below + added));
                            },
                            Err(err) => {
                                match warning(Stage::Child, path.as_str(), &err) {
                                    Some(text) => {
                                        warnings.push(text);
                                        assert(texts(warnings@) =~= said + seq![text@]);
                                        assert(first + below + seq![text@] =~= first + (below
                                            + seq![text@]));
                                    },
                                    None => {
                                        assert(first + below =~= first + (below + Seq::empty()));
                                    },
                                }
                            },
                        }
                    },
                    Listed::Failed(_) => {
                        assert(first + below =~= first + (below + Seq::empty()));
                    },
                }
                done = done + 1;
            }
            assert(entries@.take(done as int) =~= entries@);
            Ok(ScanReport { items, files, warnings })
        },
    }
}

fn unlisted(target: &str, entries: &Vec<Listed>) -> (warnings: Vec<String>)
    ensures
        texts(warnings@) == listing_warnings(target@, entries@),
{
    let mut warnings: Vec<String> = Vec::new();
    let mut done: usize = 0;
    assert(texts(warnings@) =~= listing_warnings(target@, entries@.take(0)));
    while done < entries.len()
        invariant
            done <= entries.len(),
            texts(warnings@) == listing_warnings(target@, entries@.take(done as int)),
        decreases entries.len() - done,
    {
        let ghost after = entries@.take(done + 1);
        let ghost said = texts(warnings@);
        assert(after.drop_last() =~= entries@.take(done as int));
        assert(after.last() == entries@[done as int]);
        match &entries[done] {
            Listed::Failed(err) => {
                match warning(Stage::Listing, target, err) {
                    Some(text) => {
                        warnings.push(text);
                        assert(texts(warnings@) =~= said.push(text@));
                    },
                    None => {},
                }
            },
            _ => {},
        }
        done = done + 1;
    }
    assert(entries@.take(done as int) =~= entries@);
    warnings
}

/// The rows that one listed entry adds to a report, as a bag.
pub open spec fn listed_bag(entry: Listed) -> Multiset<Row> {
    match listed_row(entry) {
        Some(row) => Multiset::singleton(row),
        None => Multiset::empty(),
    }
}

/// The scan of a file gives exactly one row: that of the file itself, with
/// its length, and no directory.
pub proof fn lemma_file_target(target: Seq<char>, len: u64)
    ensures
        target_failure(TargetProbe::File { len }) is None,
        target_rows(target, TargetProbe::File { len }).len() == 1,
        target_rows(target, TargetProbe::File { len })[0] == (Row {
            path: target,
            size: len as nat,
            is_dir: false,
        }),
{
}

/// The scan of a directory without entries succeeds and gives no row.
pub proof fn lemma_empty_directory(target: Seq<char>, entries: Vec<Listed>)
    requires
        entries@.len() == 0,
    ensures
        target_failure(TargetProbe::Directory { listing: Ok(entries) }) is None,
        target_rows(target, TargetProbe::Directory { listing: Ok(entries) }).len() == 0,
        target_warnings(target, TargetProbe::Directory { listing: Ok(entries) }).len() == 0,
        target_files(TargetProbe::Directory { listing: Ok(entries) }) == 0,
{
}

/// The row of a directory does not depend on the order in which the
/// descent below it met the entries.
pub proof fn lemma_row_ignores_walk_order(
    path: Seq<char>,
    first: Seq<WalkEvent>,
    second: Seq<WalkEvent>,
)
    requires
        first.to_multiset() == second.to_multiset(),
    ensures
        directory_row(path, first) == directory_row(path, second),
{
    lemma_total_ignores_order(first, second);
}

/// Taking one entry out of a listing takes just its row out of the report.
pub proof fn lemma_rows_remove(listing: Seq<Listed>, at: int)
    requires
        0 <= at < listing.len(),
    ensures
        scan_rows(listing).to_multiset() == scan_rows(listing.remove(at)).to_multiset().add(
            listed_bag(listing[at]),
        ),
    decreases listing.len(),
{
    broadcast use vstd::seq_lib::to_multiset_build;
    broadcast use vstd::multiset::group_multiset_axioms;

    if at == listing.len() - 1 {
        assert(listing.remove(at) =~= listing.drop_last());
        assert(scan_rows(listing).to_multiset() =~= scan_rows(
            listing.remove(at),
        ).to_multiset().add(listed_bag(listing[at])));
    } else {
        lemma_rows_remove(listing.drop_last(), at);
        assert(listing.remove(at).drop_last() =~= listing.drop_last().remove(at));
        assert(listing.remove(at).last() == listing.last());
        assert(listing.drop_last()[at] == listing[at]);
        assert(scan_rows(listing).to_multiset() =~= scan_rows(
            listing.remove(at),
        ).to_multiset().add(listed_bag(listing[at])));
    }
}

/// A scan has no order of its own: two listings that hold the same entries
/// with the same findings give the same rows, each as often, whatever the
/// order of either. In particular a second scan of an unchanged tree gives
/// the rows of the first.
pub proof fn lemma_scan_ignores_order(a: Seq<Listed>, b: Seq<Listed>)
    requires
        a.to_multiset() == b.to_multiset(),
    ensures
        scan_rows(a).to_multiset() == scan_rows(b).to_multiset(),
    decreases a.len(),
{
    broadcast use vstd::seq_lib::to_multiset_len;
    broadcast use vstd::seq_lib::to_multiset_contains;

    a.to_multiset_ensures();
    b.to_multiset_ensures();
    if a.len() == 0 {
        assert(b.len() == 0);
    } else {
        let last = a.last();
        assert(a.contains(last));
        assert(b.to_multiset().count(last) > 0);
        assert(b.contains(last));
        let at = choose|i: int| 0 <= i < b.len() && b[i] == last;
        vstd::seq_lib::to_multiset_remove(a, a.len() - 1);
        vstd::seq_lib::to_multiset_remove(b, at);
        assert(a.remove(a.len() - 1) =~= a.drop_last());
        lemma_scan_ignores_order(a.drop_last(), b.remove(at));
        lemma_rows_remove(a, a.len() - 1);
        lemma_rows_remove(b, at);
    }
}

} // verus!
