//! Summing the files below one directory from what a descent met there.

use vstd::prelude::*;
use crate::failure::{warning, warning_text, FailureKind, IoFailure, Stage};
use crate::text::{spoken, texts};

verus! {

/// One thing that a descent through a directory tree met. A descent hands
/// over each entry it can reach once, in no promised order, and does not
/// follow symbolic links.
#[derive(Debug, PartialEq, Eq)]
pub enum WalkEvent {
    /// The descent could not go on at some point: a directory that cannot
    /// be opened, an entry that cannot be examined.
    Failed(IoFailure),
    /// An entry that is no regular file: a directory, a link, a device.
    Other,
    /// A regular file, and what reading its metadata gave: its length in
    /// bytes, or a failure.
    File { path: String, metadata: Result<u64, IoFailure> },
}

impl Clone for WalkEvent {
    fn clone(&self) -> (copy: WalkEvent)
        ensures
            copy == *self,
    {
        match self {
            WalkEvent::Failed(err) => WalkEvent::Failed(err.clone()),
            WalkEvent::Other => WalkEvent::Other,
            WalkEvent::File { path, metadata } => WalkEvent::File {
                path: path.clone(),
                metadata: match metadata {
                    Ok(len) => Ok(*len),
                    Err(err) => Err(err.clone()),
                },
            },
        }
    }
}

/// The bytes that one event adds to the total: the length of a file whose
/// metadata was read, and nothing for anything else.
pub open spec fn counted_len(event: WalkEvent) -> nat {
    match event {
        WalkEvent::File { path, metadata } => match metadata {
            Ok(len) => len as nat,
            Err(_) => 0,
        },
        _ => 0,
    }
}

/// The warning that one event calls for: none where all went well or access
/// was refused, else one about the descent below `root` or about the file
/// whose metadata could not be read.
pub open spec fn event_warning(root: Seq<char>, event: WalkEvent) -> Option<Seq<char>> {
    match event {
        WalkEvent::Failed(err) => if err.kind == FailureKind::PermissionDenied {
            None
        } else {
            Some(warning_text(Stage::Traversal, root, err))
        },
        WalkEvent::Other => None,
        WalkEvent::File { path, metadata } => match metadata {
            Ok(_) => None,
            Err(err) => if err.kind == FailureKind::PermissionDenied {
                None
            } else {
                Some(warning_text(Stage::Metadata, path@, err))
            },
        },
    }
}

/// The sum of the lengths of all files met whose metadata was read.
pub open spec fn exact_total(events: Seq<WalkEvent>) -> nat
    decreases events.len(),
{
    if events.len() == 0 {
        0
    } else {
        exact_total(events.drop_last()) + counted_len(events.last())
    }
}

/// `n`, or the largest 64-bit count where `n` is beyond it.
pub open spec fn pinned(n: nat) -> nat {
    if n > u64::MAX {
        u64::MAX as nat
    } else {
        n
    }
}

/// The size reported for a directory: the exact total, pinned at the
/// largest 64-bit count.
pub open spec fn walk_total(events: Seq<WalkEvent>) -> nat {
    pinned(exact_total(events))
}

/// How many regular files were met, readable or not.
pub open spec fn files_seen(events: Seq<WalkEvent>) -> nat
    decreases events.len(),
{
    if events.len() == 0 {
        0
    } else {
        files_seen(events.drop_last()) + if events.last() is File {
            1nat
        } else {
            0nat
        }
    }
}

/// The warnings of a descent, in the order of the events that call for
/// them.
pub open spec fn walk_warnings(root: Seq<char>, events: Seq<WalkEvent>) -> Seq<Seq<char>>
    decreases events.len(),
{
    if events.len() == 0 {
        Seq::empty()
    } else {
        let before = walk_warnings(root, events.drop_last());
        match event_warning(root, events.last()) {
            Some(text) => before.push(text),
            None => before,
        }
    }
}

/// What one event does to a descent.
#[derive(Debug)]
pub struct WalkStep {
    /// The total after the event.
    pub total: u64,
    /// Whether the event counts as one file seen.
    pub tick: bool,
    /// The warning to give, if any.
    pub warning: Option<String>,
}

/// What a whole descent came to.
#[derive(Debug)]
pub struct WalkReport {
    /// The bytes below the directory, as far as they could be read.
    pub total: u64,
    /// How many regular files were met.
    pub files: u64,
    /// The warnings to give.
    pub warnings: Vec<String>,
}

/// Takes one event into a descent below `root` that has come to `total`
/// bytes so far. The descent goes on whatever the event is.
pub fn walk_step(root: &str, total: u64, event: &WalkEvent) -> (step: WalkStep)
    ensures
        step.total as nat == pinned(total as nat + counted_len(*event)),
        step.tick == (*event is File),
        spoken(step.warning) == event_warning(root@, *event),
{
    match event {
        WalkEvent::Failed(err) => WalkStep {
            total,
            tick: false,
            warning: warning(Stage::Traversal, root, err),
        },
        WalkEvent::Other => WalkStep { total, tick: false, warning: None },
        WalkEvent::File { path, metadata } => match metadata {
            Ok(len) => WalkStep { total: total.saturating_add(*len), tick: true, warning: None },
            Err(err) => WalkStep {
                total,
                tick: true,
                warning: warning(Stage::Metadata, path.as_str(), err),
            },
        },
    }
}

/// Sums up a whole descent below `root`. There is always a total: what
/// could not be read adds nothing to it, and stops nothing.
pub fn walk_size(root: &str, events: &Vec<WalkEvent>) -> (report: WalkReport)
    ensures
        report.total as nat == walk_total(events@),
        report.files as nat == files_seen(events@),
        texts(report.warnings@) == walk_warnings(root@, events@),
{
    let mut total: u64 = 0;
    let mut files: u64 = 0;
    let mut warnings: Vec<String> = Vec::new();
    let mut done: usize = 0;
    assert(texts(warnings@) =~= walk_warnings(root@, events@.take(0)));
    while done < events.len()
        invariant
            done <= events.len(),
            total as nat == walk_total(events@.take(done as int)),
            files as nat == files_seen(events@.take(done as int)),
            files <= done,
            texts(warnings@) == walk_warnings(root@, events@.take(done as int)),
        decreases events.len() - done,
    {
        let ghost before = events@.take(done as int);
        let ghost after = events@.take(done + 1);
        let ghost said = texts(warnings@);
        assert(after.drop_last() =~= before);
        assert(after.last() == events@[done as int]);
        let step = walk_step(root, total, &events[done]);
        total = step.total;
        if step.tick {
            files = files + 1;
        }
        match step.warning {
            Some(text) => {
                warnings.push(text);
                assert(texts(warnings@) =~= said.push(text@));
            },
            None => {},
        }
        done = done + 1;
    }
    assert(events@.take(done as int) =~= events@);
    WalkReport { total, files, warnings }
}

/// Taking one event out of a descent takes just its bytes out of the
/// exact total.
pub proof fn lemma_total_remove(events: Seq<WalkEvent>, at: int)
    requires
        0 <= at < events.len(),
    ensures
        exact_total(events) == exact_total(events.remove(at)) + counted_len(events[at]),
    decreases events.len(),
{
    if at == events.len() - 1 {
        assert(events.remove(at) =~= events.drop_last());
    } else {
        lemma_total_remove(events.drop_last(), at);
        assert(events.remove(at).drop_last() =~= events.drop_last().remove(at));
        assert(events.remove(at).last() == events.last());
    }
}

/// The order in which a descent meets the entries does not matter to the
/// total: two descents that meet the same events as often come to the same
/// sum.
pub proof fn lemma_total_ignores_order(a: Seq<WalkEvent>, b: Seq<WalkEvent>)
    requires
        a.to_multiset() == b.to_multiset(),
    ensures
        exact_total(a) == exact_total(b),
        walk_total(a) == walk_total(b),
    decreases a.len(),
{
    broadcast use vstd::seq_lib::to_multiset_len;
    broadcast use vstd::seq_lib::to_multiset_contains;

    a.to_multiset_ensures();
    b.to_multiset_ensures();
    if a.len() == 0 {
        assert(b.len() == 0);
    } else {
        let last = a.last();
        assert(a.contains(last));
        assert(b.to_multiset().count(last) > 0);
        assert(b.contains(last));
        let at = choose|i: int| 0 <= i < b.len() && b[i] == last;
        vstd::seq_lib::to_multiset_remove(a, a.len() - 1);
        vstd::seq_lib::to_multiset_remove(b, at);
        assert(a.remove(a.len() - 1) =~= a.drop_last());
        lemma_total_ignores_order(a.drop_last(), b.remove(at));
        lemma_total_remove(b, at);
    }
}

/// What could not be read adds exactly nothing: a failed step of the
/// descent, an entry that is no regular file, and a file whose metadata
/// could not be read leave the total as it is, wherever they come.
pub proof fn lemma_unread_adds_nothing(events: Seq<WalkEvent>, at: int)
    requires
        0 <= at < events.len(),
        !(events[at] matches WalkEvent::File { metadata: Ok(_), .. }),
    ensures
        exact_total(events) == exact_total(events.remove(at)),
        walk_total(events) == walk_total(events.remove(at)),
{
    lemma_total_remove(events, at);
}

} // verus!
