//! One row of a report: a path, what it is, and how many bytes it holds.

use vstd::prelude::*;

verus! {

/// What a `ScanItem` says, as mathematics sees it.
pub struct Row {
    /// The path, as text.
    pub path: Seq<char>,
    /// The byte count.
    pub size: nat,
    /// Whether the path is a directory.
    pub is_dir: bool,
}

/// A path with its classification and its size in bytes. For a directory
/// the size is the sum over the files below it. Nothing changes an item
/// once it is made.
#[derive(Clone, Debug, PartialEq, Eq)]
pub struct ScanItem {
    path: String,
    size: u64,
    is_dir: bool,
}

impl View for ScanItem {
    type V = Row;

    closed spec fn view(&self) -> Row {
        Row { path: self.path@, size: self.size as nat, is_dir: self.is_dir }
    }
}

/// What each of `items` says.
pub open spec fn rows(items: Seq<ScanItem>) -> Seq<Row> {
    items.map_values(|item: ScanItem| item@)
}

impl ScanItem {
    /// An item with the given path, size and classification.
    pub fn new(path: String, size: u64, is_dir: bool) -> (item: ScanItem)
        ensures
            item@ == (Row { path: path@, size: size as nat, is_dir }),
    {
        ScanItem { path, size, is_dir }
    }

    /// The item's path.
    pub fn path(&self) -> (path: &str)
        ensures
            path@ == self@.path,
    {
        self.path.as_str()
    }

    /// The item's size in bytes.
    pub fn size(&self) -> (size: u64)
        ensures
            size as nat == self@.size,
    {
        self.size
    }

    /// Whether the item is a directory.
    pub fn is_dir(&self) -> (is_dir: bool)
        ensures
            is_dir == self@.is_dir,
    {
        self.is_dir
    }

    /// A size is a 64-bit count.
    pub proof fn lemma_size_bounded(self)
        ensures
            self@.size <= u64::MAX,
    {
    }
}

} // verus!
