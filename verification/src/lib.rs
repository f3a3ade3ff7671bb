//! Disk usage analysis without the disk: the rules that turn what a scan of
//! a file tree found into sized, ordered, human-readable rows.
//!
//! The library never touches the file system. Its caller examines paths,
//! lists directories and descends below them, and hands over what it found
//! as plain values; the library decides what that comes to.
//!
//! - [`failure`]: failed operations, and which of them are worth a warning.
//! - [`walk`]: the size of a directory from the events of a descent, step
//!   by step or all at once.
//! - [`scan`]: the rows of a target from what was found at it and at its
//!   children.
//! - [`order`] and [`sort`]: the two listing orders, a stable sort by them,
//!   and the limit.
//! - [`size`]: byte counts in binary units.
//! - [`table`] and [`report`]: the printed report, and a whole run.
//! - [`item`] and [`text`]: the row type, and the building of text.

pub mod failure;
pub mod item;
pub mod order;
pub mod report;
pub mod scan;
pub mod size;
pub mod sort;
pub mod table;
pub mod text;
pub mod walk;
