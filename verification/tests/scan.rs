use rtree::failure::{FailureKind, IoFailure};
use rtree::item::ScanItem;
use rtree::scan::{classify, collect_stats, stat_path, Classified, Listed, Probe, Stat, TargetProbe};
use rtree::walk::WalkEvent;

fn gone() -> IoFailure {
    IoFailure {
        kind: FailureKind::Other,
        os_code: Some(2),
        message: "No such file or directory".to_string(),
    }
}

fn denied() -> IoFailure {
    IoFailure {
        kind: FailureKind::PermissionDenied,
        os_code: Some(13),
        message: "Permission denied".to_string(),
    }
}

fn file_event(path: &str, len: u64) -> WalkEvent {
    WalkEvent::File { path: path.to_string(), metadata: Ok(len) }
}

fn entry(path: &str, probe: Probe) -> Listed {
    Listed::Entry { path: path.to_string(), probe }
}

#[test]
fn classify_hands_a_failure_on() {
    assert_eq!(classify("p".to_string(), Err(gone())), Err(gone()));
    assert_eq!(classify("p".to_string(), Err(denied())), Err(denied()));
}

#[test]
fn classify_makes_the_row_of_a_file() {
    assert_eq!(
        classify("p".to_string(), Ok(Stat::File { len: 77 })),
        Ok(Classified::Item(ScanItem::new("p".to_string(), 77, false)))
    );
}

#[test]
fn classify_sends_a_directory_to_the_descent() {
    assert_eq!(
        classify("p".to_string(), Ok(Stat::Directory)),
        Ok(Classified::Descend("p".to_string()))
    );
}

#[test]
fn stat_path_of_a_file() {
    let scanned = stat_path("t/f", &Probe::File { len: 512 }).unwrap();
    assert_eq!(scanned.item, ScanItem::new("t/f".to_string(), 512, false));
    assert_eq!(scanned.files, 1);
    assert!(scanned.warnings.is_empty());
}

#[test]
fn stat_path_of_a_directory_sums_what_lies_below() {
    let events = vec![
        WalkEvent::Other,
        file_event("t/d/a", 1000),
        file_event("t/d/b", 24),
        WalkEvent::Failed(gone()),
    ];
    let scanned = stat_path("t/d", &Probe::Directory { events }).unwrap();
    assert_eq!(scanned.item, ScanItem::new("t/d".to_string(), 1024, true));
    assert_eq!(scanned.files, 2);
    assert_eq!(
        scanned.warnings,
        vec!["Warning: traversal issue under 't/d': No such file or directory (os error 2)".to_string()]
    );
}

#[test]
fn stat_path_of_an_empty_directory() {
    let scanned = stat_path("t/d", &Probe::Directory { events: vec![WalkEvent::Other] }).unwrap();
    assert_eq!(scanned.item, ScanItem::new("t/d".to_string(), 0, true));
    assert_eq!(scanned.files, 0);
}

#[test]
fn stat_path_hands_a_failure_on() {
    assert_eq!(stat_path("t/x", &Probe::Failed(gone())).unwrap_err(), gone());
    assert_eq!(stat_path("t/x", &Probe::Failed(denied())).unwrap_err(), denied());
}

#[test]
fn a_target_that_cannot_be_examined_fails_the_scan() {
    assert_eq!(collect_stats("nowhere", &TargetProbe::Failed(gone())).unwrap_err(), gone());
    assert_eq!(collect_stats("shut", &TargetProbe::Failed(denied())).unwrap_err(), denied());
}

#[test]
fn a_directory_that_cannot_be_opened_fails_the_scan() {
    let probe = TargetProbe::Directory { listing: Err(denied()) };
    assert_eq!(collect_stats("shut", &probe).unwrap_err(), denied());
}

#[test]
fn a_file_target_gives_exactly_its_own_row() {
    let report = collect_stats("notes.txt", &TargetProbe::File { len: 1234 }).unwrap();
    assert_eq!(report.items, vec![ScanItem::new("notes.txt".to_string(), 1234, false)]);
    assert_eq!(report.items.len(), 1);
    assert!(!report.items[0].is_dir());
    assert_eq!(report.items[0].size(), 1234);
    assert_eq!(report.files, 1);
    assert!(report.warnings.is_empty());
}

#[test]
fn an_empty_file_target() {
    let report = collect_stats("empty", &TargetProbe::File { len: 0 }).unwrap();
    assert_eq!(report.items, vec![ScanItem::new("empty".to_string(), 0, false)]);
}

#[test]
fn an_empty_directory_gives_no_rows() {
    let report = collect_stats("d", &TargetProbe::Directory { listing: Ok(Vec::new()) }).unwrap();
    assert!(report.items.is_empty());
    assert_eq!(report.files, 0);
    assert!(report.warnings.is_empty());
}

#[test]
fn a_directory_gives_one_row_for_each_child() {
    let listing = vec![
        entry("d/a.txt", Probe::File { len: 10 }),
        entry(
            "d/sub",
            Probe::Directory {
                events: vec![
                    WalkEvent::Other,
                    file_event("d/sub/x", 100),
                    WalkEvent::Other,
                    file_event("d/sub/deep/y", 200),
                ],
            },
        ),
        entry("d/b.txt", Probe::File { len: 0 }),
        entry("d/hollow", Probe::Directory { events: vec![WalkEvent::Other] }),
    ];
    let report = collect_stats("d", &TargetProbe::Directory { listing: Ok(listing) }).unwrap();
    assert_eq!(
        report.items,
        vec![
            ScanItem::new("d/a.txt".to_string(), 10, false),
            ScanItem::new("d/sub".to_string(), 300, true),
            ScanItem::new("d/b.txt".to_string(), 0, false),
            ScanItem::new("d/hollow".to_string(), 0, true),
        ]
    );
    assert_eq!(report.files, 4);
    assert!(report.warnings.is_empty());
}

#[test]
fn children_that_fail_are_left_out() {
    let listing = vec![
        Listed::Failed(gone()),
        entry("d/kept", Probe::File { len: 1 }),
        entry("d/vanished", Probe::Failed(gone())),
        Listed::Failed(denied()),
        entry("d/secret", Probe::Failed(denied())),
        entry(
            "d/partly",
            Probe::Directory {
                events: vec![
                    file_event("d/partly/f", 5),
                    WalkEvent::Failed(denied()),
                    WalkEvent::Failed(gone()),
                ],
            },
        ),
    ];
    let report = collect_stats("d", &TargetProbe::Directory { listing: Ok(listing) }).unwrap();
    assert_eq!(
        report.items,
        vec![
            ScanItem::new("d/kept".to_string(), 1, false),
            ScanItem::new("d/partly".to_string(), 5, true),
        ]
    );
    assert_eq!(report.files, 2);
    assert_eq!(
        report.warnings,
        vec![
            "Warning: could not read an entry in 'd': No such file or directory (os error 2)".to_string(),
            "Warning: failed to scan 'd/vanished': No such file or directory (os error 2)".to_string(),
            "Warning: traversal issue under 'd/partly': No such file or directory (os error 2)".to_string(),
        ]
    );
}

#[test]
fn a_directory_of_refusals_gives_no_rows_and_no_warnings() {
    let listing = vec![Listed::Failed(denied()), entry("d/secret", Probe::Failed(denied()))];
    let report = collect_stats("d", &TargetProbe::Directory { listing: Ok(listing) }).unwrap();
    assert!(report.items.is_empty());
    assert!(report.warnings.is_empty());
    assert_eq!(report.files, 0);
}

#[test]
fn the_same_findings_give_the_same_rows() {
    let listing = || {
        vec![
            entry("d/a", Probe::File { len: 3 }),
            entry("d/b", Probe::Directory { events: vec![file_event("d/b/x", 4)] }),
            entry("d/c", Probe::Failed(gone())),
        ]
    };
    let first = collect_stats("d", &TargetProbe::Directory { listing: Ok(listing()) }).unwrap();
    let second = collect_stats("d", &TargetProbe::Directory { listing: Ok(listing()) }).unwrap();
    assert_eq!(first.items, second.items);
    assert_eq!(first.files, second.files);
    assert_eq!(first.warnings, second.warnings);

    let mut turned = listing();
    turned.reverse();
    let third = collect_stats("d", &TargetProbe::Directory { listing: Ok(turned) }).unwrap();
    let mut expected = first.items.clone();
    expected.reverse();
    assert_eq!(third.items, expected);
}

#[test]
fn the_count_of_files_is_pinned() {
    let listing = vec![entry("d/a", Probe::File { len: 3 }), entry("d/b", Probe::File { len: 3 })];
    let report = collect_stats("d", &TargetProbe::Directory { listing: Ok(listing) }).unwrap();
    assert_eq!(report.files, 2);
}
