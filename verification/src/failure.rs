//! Failures of file system operations, as plain values, and what is said
//! about them.

use vstd::prelude::*;
use vstd::string::StringExecFns;
use crate::text::{push_signed, signed_decimal};

verus! {

/// The one distinction the scan makes between failures.
#[derive(Clone, Copy, Debug, PartialEq, Eq, Structural)]
pub enum FailureKind {
    /// The operating system refused access.
    PermissionDenied,
    /// Anything else: a vanished entry, a transient error, damaged metadata.
    Other,
}

/// A failed file system operation.
#[derive(Debug, PartialEq, Eq)]
pub struct IoFailure {
    /// What kind of failure it was.
    pub kind: FailureKind,
    /// The operating system's error code, when it gave one.
    pub os_code: Option<i32>,
    /// The failure's own description.
    pub message: String,
}

impl Clone for IoFailure {
    fn clone(&self) -> (copy: IoFailure)
        ensures
            copy == *self,
    {
        IoFailure { kind: self.kind, os_code: self.os_code, message: self.message.clone() }
    }
}

/// Where in a scan a failure met it.
#[derive(Clone, Copy, Debug, PartialEq, Eq, Structural)]
pub enum Stage {
    /// Reading one entry of the target directory.
    Listing,
    /// Examining one child of the target.
    Child,
    /// Descending below a child.
    Traversal,
    /// Reading the metadata of a file met in the descent.
    Metadata,
}

impl Stage {
    /// What a warning says went wrong at this stage.
    pub open spec fn phrase(self) -> Seq<char> {
        match self {
            Stage::Listing => "could not read an entry in"@,
            Stage::Child => "failed to scan"@,
            Stage::Traversal => "traversal issue under"@,
            Stage::Metadata => "metadata read failed for"@,
        }
    }
}

/// A failure as it is shown: its description, and the operating system's
/// error code in brackets where there is one.
pub open spec fn io_error_text(err: IoFailure) -> Seq<char> {
    match err.os_code {
        Some(code) => err.message@ + " (os error "@ + signed_decimal(code as int) + ")"@,
        None => err.message@,
    }
}

/// The warning about a failure that met the scan at `stage`, on `path`.
pub open spec fn warning_text(stage: Stage, path: Seq<char>, err: IoFailure) -> Seq<char> {
    "Warning: "@ + stage.phrase() + " '"@ + path + "': "@ + io_error_text(err)
}

/// What is said when the target itself cannot be examined.
pub open spec fn fatal_text(path: Seq<char>, err: IoFailure) -> Seq<char> {
    "Failed to scan '"@ + path + "': "@ + io_error_text(err)
}

/// Whether the failure is a refusal of access.
pub fn is_permission_denied(err: &IoFailure) -> (denied: bool)
    ensures
        denied == (err.kind == FailureKind::PermissionDenied),
{
    err.kind == FailureKind::PermissionDenied
}

fn push_io_error(out: &mut String, err: &IoFailure)
    ensures
        final(out)@ == old(out)@ + io_error_text(*err),
{
    out.append(err.message.as_str());
    match err.os_code {
        Some(code) => {
            out.append(" (os error ");
            push_signed(out, code);
            out.append(")");
            assert(final(out)@ =~= old(out)@ + io_error_text(*err));
        },
        None => {},
    }
}

/// Renders a failure for display.
pub fn format_io_error(err: &IoFailure) -> (text: String)
    ensures
        text@ == io_error_text(*err),
{
    let mut text = String::new();
    push_io_error(&mut text, err);
    assert(text@ =~= io_error_text(*err));
    text
}

fn phrase_of(stage: Stage) -> (phrase: &'static str)
    ensures
        phrase@ == stage.phrase(),
{
    match stage {
        Stage::Listing => "could not read an entry in",
        Stage::Child => "failed to scan",
        Stage::Traversal => "traversal issue under",
        Stage::Metadata => "metadata read failed for",
    }
}

/// The warning that a failure below the target calls for: none where access
/// was refused, one that names the stage, the path and the failure for
/// every other.
pub fn warning(stage: Stage, path: &str, err: &IoFailure) -> (said: Option<String>)
    ensures
        said is None <==> err.kind == FailureKind::PermissionDenied,
        said matches Some(text) ==> text@ == warning_text(stage, path@, *err),
{
    if is_permission_denied(err) {
        return None;
    }
    let mut text = String::new();
    text.append("Warning: ");
    text.append(phrase_of(stage));
    text.append(" '");
    text.append(path);
    text.append("': ");
    push_io_error(&mut text, err);
    assert(text@ =~= warning_text(stage, path@, *err));
    Some(text)
}

/// The message for a target that cannot be examined. This failure ends the
/// scan, whatever its kind.
pub fn fatal_message(path: &str, err: &IoFailure) -> (text: String)
    ensures
        text@ == fatal_text(path@, *err),
{
    let mut text = String::new();
    text.append("Failed to scan '");
    text.append(path);
    text.append("': ");
    push_io_error(&mut text, err);
    assert(text@ =~= fatal_text(path@, *err));
    text
}

} // verus!
