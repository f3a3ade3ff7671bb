use rtree::failure::{FailureKind, IoFailure};
use rtree::walk::{walk_size, walk_step, WalkEvent};

fn file(path: &str, len: u64) -> WalkEvent {
    WalkEvent::File { path: path.to_string(), metadata: Ok(len) }
}

fn unreadable(path: &str, kind: FailureKind, code: Option<i32>, message: &str) -> WalkEvent {
    WalkEvent::File {
        path: path.to_string(),
        metadata: Err(IoFailure { kind, os_code: code, message: message.to_string() }),
    }
}

fn failed(kind: FailureKind, code: Option<i32>, message: &str) -> WalkEvent {
    WalkEvent::Failed(IoFailure { kind, os_code: code, message: message.to_string() })
}

#[test]
fn a_read_file_adds_its_length() {
    let step = walk_step("root", 10, &file("root/f", 32));
    assert_eq!(step.total, 42);
    assert!(step.tick);
    assert_eq!(step.warning, None);
}

#[test]
fn an_entry_that_is_no_file_adds_nothing() {
    let step = walk_step("root", 10, &WalkEvent::Other);
    assert_eq!(step.total, 10);
    assert!(!step.tick);
    assert_eq!(step.warning, None);
}

#[test]
fn the_total_stops_at_the_largest_count() {
    let step = walk_step("root", u64::MAX - 5, &file("root/f", 6));
    assert_eq!(step.total, u64::MAX);
    let exact = walk_step("root", u64::MAX - 5, &file("root/f", 5));
    assert_eq!(exact.total, u64::MAX);
    let more = walk_step("root", u64::MAX, &file("root/f", u64::MAX));
    assert_eq!(more.total, u64::MAX);
}

#[test]
fn a_file_without_metadata_counts_as_seen_and_adds_nothing() {
    let event = unreadable("root/f", FailureKind::Other, Some(5), "Input/output error");
    let step = walk_step("root", 10, &event);
    assert_eq!(step.total, 10);
    assert!(step.tick);
    assert_eq!(
        step.warning,
        Some("Warning: metadata read failed for 'root/f': Input/output error (os error 5)".to_string())
    );
}

#[test]
fn a_file_with_refused_metadata_is_passed_in_silence() {
    let event = unreadable("root/f", FailureKind::PermissionDenied, Some(13), "Permission denied");
    let step = walk_step("root", 10, &event);
    assert_eq!(step.total, 10);
    assert!(step.tick);
    assert_eq!(step.warning, None);
}

#[test]
fn a_failed_step_warns_about_the_root() {
    let step = walk_step("root", 10, &failed(FailureKind::Other, Some(2), "No such file or directory"));
    assert_eq!(step.total, 10);
    assert!(!step.tick);
    assert_eq!(
        step.warning,
        Some("Warning: traversal issue under 'root': No such file or directory (os error 2)".to_string())
    );
}

#[test]
fn a_refused_directory_is_passed_in_silence() {
    let step = walk_step("root", 10, &failed(FailureKind::PermissionDenied, Some(13), "Permission denied"));
    assert_eq!(step.total, 10);
    assert!(!step.tick);
    assert_eq!(step.warning, None);
}

#[test]
fn an_empty_descent_comes_to_nothing() {
    let report = walk_size("root", &Vec::new());
    assert_eq!(report.total, 0);
    assert_eq!(report.files, 0);
    assert!(report.warnings.is_empty());
}

#[test]
fn the_total_is_the_sum_of_the_files_read() {
    let events = vec![
        WalkEvent::Other,
        file("root/a", 100),
        WalkEvent::Other,
        file("root/sub/b", 2000),
        file("root/sub/c", 0),
        file("root/sub/deep/d", 30_000),
    ];
    let report = walk_size("root", &events);
    assert_eq!(report.total, 32_100);
    assert_eq!(report.files, 4);
    assert!(report.warnings.is_empty());
}

#[test]
fn an_unreadable_subtree_adds_exactly_nothing() {
    let readable = vec![WalkEvent::Other, file("root/a", 100), file("root/b", 23)];
    let mut restricted = readable.clone();
    restricted.insert(1, failed(FailureKind::PermissionDenied, Some(13), "Permission denied"));
    restricted.push(unreadable("root/c", FailureKind::PermissionDenied, Some(13), "Permission denied"));
    let open = walk_size("root", &readable);
    let shut = walk_size("root", &restricted);
    assert_eq!(open.total, 123);
    assert_eq!(shut.total, 123);
    assert_eq!(shut.files, 3);
    assert!(shut.warnings.is_empty());
}

#[test]
fn warnings_come_in_the_order_of_their_events() {
    let events = vec![
        failed(FailureKind::Other, Some(5), "first"),
        file("root/a", 1),
        failed(FailureKind::PermissionDenied, Some(13), "silent"),
        unreadable("root/b", FailureKind::Other, None, "second"),
        unreadable("root/c", FailureKind::PermissionDenied, None, "silent"),
        failed(FailureKind::Other, None, "third"),
    ];
    let report = walk_size("root", &events);
    assert_eq!(report.total, 1);
    assert_eq!(report.files, 3);
    assert_eq!(
        report.warnings,
        vec![
            "Warning: traversal issue under 'root': first (os error 5)".to_string(),
            "Warning: metadata read failed for 'root/b': second".to_string(),
            "Warning: traversal issue under 'root': third".to_string(),
        ]
    );
}

#[test]
fn a_descent_beyond_the_largest_count_is_pinned() {
    let events = vec![file("a", u64::MAX - 1), file("b", 1), file("c", 1), file("d", u64::MAX)];
    let report = walk_size("root", &events);
    assert_eq!(report.total, u64::MAX);
    assert_eq!(report.files, 4);
}

#[test]
fn the_order_of_the_events_does_not_change_the_total() {
    let forward = vec![file("a", 5), WalkEvent::Other, file("b", 7), file("c", 11)];
    let backward = vec![file("c", 11), file("b", 7), WalkEvent::Other, file("a", 5)];
    let one = walk_size("root", &forward);
    let other = walk_size("root", &backward);
    assert_eq!(one.total, 23);
    assert_eq!(other.total, 23);
    assert_eq!(one.files, other.files);
}

#[test]
fn walking_in_steps_comes_to_the_total_of_the_whole() {
    let events = vec![file("a", 5), WalkEvent::Other, file("b", u64::MAX - 10), file("c", 11)];
    let mut total = 0u64;
    let mut ticks = 0u64;
    for event in events.iter() {
        let step = walk_step("root", total, event);
        total = step.total;
        if step.tick {
            ticks += 1;
        }
    }
    let report = walk_size("root", &events);
    assert_eq!(total, report.total);
    assert_eq!(total, u64::MAX);
    assert_eq!(ticks, report.files);
}
