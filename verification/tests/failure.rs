use rtree::failure::{
    fatal_message, format_io_error, is_permission_denied, warning, FailureKind, IoFailure, Stage,
};

fn failure(kind: FailureKind, os_code: Option<i32>, message: &str) -> IoFailure {
    IoFailure { kind, os_code, message: message.to_string() }
}

#[test]
fn permission_denied_is_told_apart() {
    assert!(is_permission_denied(&failure(FailureKind::PermissionDenied, Some(13), "denied")));
    assert!(is_permission_denied(&failure(FailureKind::PermissionDenied, None, "denied")));
    assert!(!is_permission_denied(&failure(FailureKind::Other, Some(2), "gone")));
    assert!(!is_permission_denied(&failure(FailureKind::Other, None, "odd")));
}

#[test]
fn error_with_a_code_shows_the_code() {
    let err = failure(FailureKind::Other, Some(2), "No such file or directory");
    assert_eq!(format_io_error(&err), "No such file or directory (os error 2)");
}

#[test]
fn error_without_a_code_shows_its_description_alone() {
    let err = failure(FailureKind::Other, None, "unexpected end of file");
    assert_eq!(format_io_error(&err), "unexpected end of file");
}

#[test]
fn error_codes_are_written_in_full() {
    assert_eq!(format_io_error(&failure(FailureKind::Other, Some(0), "x")), "x (os error 0)");
    assert_eq!(format_io_error(&failure(FailureKind::Other, Some(10), "x")), "x (os error 10)");
    assert_eq!(format_io_error(&failure(FailureKind::Other, Some(-5), "x")), "x (os error -5)");
    assert_eq!(
        format_io_error(&failure(FailureKind::Other, Some(i32::MAX), "x")),
        "x (os error 2147483647)"
    );
    assert_eq!(
        format_io_error(&failure(FailureKind::Other, Some(i32::MIN), "x")),
        "x (os error -2147483648)"
    );
    assert_eq!(format_io_error(&failure(FailureKind::Other, Some(7), "")), " (os error 7)");
}

#[test]
fn refused_access_gives_no_warning() {
    let err = failure(FailureKind::PermissionDenied, Some(13), "Permission denied");
    assert_eq!(warning(Stage::Listing, "/t", &err), None);
    assert_eq!(warning(Stage::Child, "/t", &err), None);
    assert_eq!(warning(Stage::Traversal, "/t", &err), None);
    assert_eq!(warning(Stage::Metadata, "/t", &err), None);
}

#[test]
fn other_failures_give_a_warning_for_their_stage() {
    let err = failure(FailureKind::Other, Some(5), "Input/output error");
    assert_eq!(
        warning(Stage::Listing, "/data", &err),
        Some("Warning: could not read an entry in '/data': Input/output error (os error 5)".to_string())
    );
    assert_eq!(
        warning(Stage::Child, "/data/a", &err),
        Some("Warning: failed to scan '/data/a': Input/output error (os error 5)".to_string())
    );
    assert_eq!(
        warning(Stage::Traversal, "/data/a", &err),
        Some("Warning: traversal issue under '/data/a': Input/output error (os error 5)".to_string())
    );
    assert_eq!(
        warning(Stage::Metadata, "/data/a/f", &err),
        Some("Warning: metadata read failed for '/data/a/f': Input/output error (os error 5)".to_string())
    );
}

#[test]
fn warning_without_a_code() {
    let err = failure(FailureKind::Other, None, "loop found");
    assert_eq!(
        warning(Stage::Traversal, "d", &err),
        Some("Warning: traversal issue under 'd': loop found".to_string())
    );
}

#[test]
fn fatal_message_names_target_and_failure() {
    let err = failure(FailureKind::Other, Some(2), "No such file or directory");
    assert_eq!(
        fatal_message("missing", &err),
        "Failed to scan 'missing': No such file or directory (os error 2)"
    );
    let denied = failure(FailureKind::PermissionDenied, Some(13), "Permission denied");
    assert_eq!(
        fatal_message("/root", &denied),
        "Failed to scan '/root': Permission denied (os error 13)"
    );
}

#[test]
fn a_copy_of_a_failure_equals_it() {
    let err = failure(FailureKind::Other, Some(2), "gone");
    assert_eq!(err.clone(), err);
}
