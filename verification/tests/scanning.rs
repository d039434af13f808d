use local_file_explorer::scan::{
    carried_duration, idle_progress, no_roots_progress, plan_duration, stale_paths, DurationPlan,
    PriorFile, AppState, ScanTally, wants_duration_fill, scan_move, ScanMove, ScanPoint,
};
use local_file_explorer::snapshot::{
    dotted_extension_of, fnv1a64, folder_unchanged, read_folder_snapshot, DirEntryInfo, EntryKind,
};
use local_file_explorer::models::{AppError, FolderStats};

fn s(x: &str) -> String {
    x.to_string()
}

fn entry(name: &str, kind: EntryKind, size: u64) -> DirEntryInfo {
    DirEntryInfo { name: s(name), kind, size }
}

#[test]
fn fnv_known_values() {
    assert_eq!(fnv1a64(b""), "cbf29ce484222325");
    assert_eq!(fnv1a64(b"a"), "af63dc4c8601ec8c");
    assert_eq!(fnv1a64(b"foobar"), "85944171f73967e8");
}

#[test]
fn extensions_of_names() {
    assert_eq!(dotted_extension_of("Film.MP4"), ".mp4");
    assert_eq!(dotted_extension_of("archive.tar.GZ"), ".gz");
    assert_eq!(dotted_extension_of(".hidden"), "");
    assert_eq!(dotted_extension_of("noext"), "");
    assert_eq!(dotted_extension_of("file."), ".");
    assert_eq!(dotted_extension_of(".a.b"), ".b");
}

#[test]
fn folder_snapshot_counts_and_hash() {
    let entries = vec![
        entry("b.mp4", EntryKind::File, 10),
        entry("sub", EntryKind::Dir, 0),
        entry("a.TXT", EntryKind::File, 5),
        entry("link", EntryKind::Other, 0),
    ];
    let exts = vec![s(".mp4"), s(".mkv")];
    let snap = read_folder_snapshot(&entries, &exts);
    assert_eq!((snap.file_count, snap.child_folder_count, snap.total_bytes), (2, 1, 15));
    assert_eq!(snap.media, vec![0]);
    let expected = fnv1a64("a.TXT\u{0}5\nb.mp4\u{0}10".as_bytes());
    assert_eq!(snap.listing_hash, expected);
    // the same files in another order hash alike
    let reordered = vec![
        entry("a.TXT", EntryKind::File, 5),
        entry("b.mp4", EntryKind::File, 10),
    ];
    assert_eq!(read_folder_snapshot(&reordered, &exts).listing_hash, expected);
    // a renamed file changes the hash
    let renamed = vec![entry("c.TXT", EntryKind::File, 5), entry("b.mp4", EntryKind::File, 10)];
    assert_ne!(read_folder_snapshot(&renamed, &exts).listing_hash, expected);
}

#[test]
fn folder_sizes_add_with_wrap_around() {
    let entries = vec![entry("a", EntryKind::File, u64::MAX), entry("b", EntryKind::File, 2)];
    let snap = read_folder_snapshot(&entries, &vec![]);
    assert_eq!(snap.total_bytes, 1);
}

#[test]
fn unchanged_folders() {
    let entries = vec![entry("b.mp4", EntryKind::File, 10)];
    let snap = read_folder_snapshot(&entries, &vec![]);
    let stats = FolderStats { file_count: 1, child_folder_count: 0, total_file_bytes: 10, listing_hash: snap.listing_hash.clone() };
    assert!(folder_unchanged(false, &Some(stats.clone()), &snap));
    assert!(!folder_unchanged(true, &Some(stats.clone()), &snap));
    assert!(!folder_unchanged(false, &None, &snap));
    let other = FolderStats { total_file_bytes: 11, ..stats };
    assert!(!folder_unchanged(false, &Some(other), &snap));
}

#[test]
fn scan_counters_and_reports() {
    let mut t = ScanTally::new();
    let start = t.report("");
    assert_eq!((start.phase.as_str(), start.message.as_str()), ("scanning", "Scanning\u{2026}"));
    t.folder_read();
    assert_eq!(t.unchanged_folder_done(0, "D:\\x").is_none(), true);
    assert_eq!(t.skipped, 1);
    t.duration_filled();
    t.duration_filled();
    let p = t.unchanged_folder_done(2, "D:\\x").unwrap();
    assert_eq!(p.message, "Filling durations (2)\u{2026}");
    assert_eq!((p.scanned, p.skipped, p.files, p.current_folder.as_str()), (1, 1, 2, "D:\\x"));
    let mut reports = 0;
    for _ in 0..48 {
        if t.file_written("D:\\y").is_some() {
            reports += 1;
        }
    }
    assert_eq!(t.files, 50);
    assert_eq!(reports, 2);
    let c = t.cancelled(9);
    assert_eq!((c.phase.as_str(), c.message.as_str(), c.files), ("idle", "Scan cancelled", 9));
    let d = t.finished(12);
    assert_eq!((d.phase.as_str(), d.message.as_str(), d.scanned, d.files), ("done", "Scan complete", 1, 12));
    let n = no_roots_progress(3);
    assert_eq!((n.phase.as_str(), n.message.as_str(), n.files), ("error", "No roots configured", 3));
    assert_eq!(idle_progress().phase, "idle");
}

#[test]
fn duration_plans() {
    assert!(matches!(plan_duration(false, Some(1.5f64), Some(2.0)), DurationPlan::Use(Some(x)) if x == 1.5));
    assert!(matches!(plan_duration(true, Some(1.5f64), Some(2.0)), DurationPlan::Use(Some(x)) if x == 2.0));
    assert!(matches!(plan_duration(true, Some(1.5f64), None), DurationPlan::Probe { fallback: Some(x) } if x == 1.5));
    assert!(matches!(plan_duration::<f64>(false, None, None), DurationPlan::Probe { fallback: None }));
}

#[test]
fn durations_carry_over_renames() {
    let prior = vec![
        PriorFile { size_bytes: 10, mtime_ms: 5, duration: None },
        PriorFile { size_bytes: 10, mtime_ms: 5, duration: Some(3.0f64) },
        PriorFile { size_bytes: 20, mtime_ms: 5, duration: Some(4.0f64) },
    ];
    assert_eq!(carried_duration(&prior, 10, 5), None);
    assert_eq!(carried_duration(&prior, 20, 5), Some(4.0));
    assert_eq!(carried_duration(&prior, 30, 5), None);
    let stale = stale_paths(&vec![s("a"), s("b"), s("c")], &vec![s("b")]);
    assert_eq!(stale, vec![0, 2]);
}

#[test]
fn scanner_is_claimed_once() {
    let mut st = AppState::default();
    assert!(!st.scanning);
    assert!(st.try_begin().is_ok());
    assert!(matches!(st.try_begin(), Err(AppError::Message(m)) if m == "Scan already running"));
    st.started();
    assert!(st.cancel_reaches());
    st.finish(Err(s("disk gone")));
    assert_eq!((st.last_progress.phase.as_str(), st.last_progress.message.as_str()), ("error", "disk gone"));
    assert!(!st.scanning && !st.cancel_reaches());
    assert!(st.try_begin().is_ok());
}

#[test]
fn unchanged_folder_probes_only_files_without_duration() {
    assert!(wants_duration_fill::<u64>(&Some(None)));
    assert!(!wants_duration_fill(&Some(Some(1500u64))));
    assert!(!wants_duration_fill::<u64>(&None));
}

#[test]
fn scan_moves_follow_the_loop() {
    assert_eq!(scan_move(ScanPoint::Start { roots: 0 }, false), ScanMove::ReportNoRoots);
    assert_eq!(scan_move(ScanPoint::Start { roots: 0 }, true), ScanMove::ReportNoRoots);
    assert_eq!(scan_move(ScanPoint::Start { roots: 2 }, false), ScanMove::Begin);
    assert_eq!(scan_move(ScanPoint::Root { is_dir: true }, true), ScanMove::RollBack);
    assert_eq!(scan_move(ScanPoint::Root { is_dir: false }, false), ScanMove::Skip);
    assert_eq!(scan_move(ScanPoint::Root { is_dir: true }, false), ScanMove::WalkRoot);
    assert_eq!(scan_move(ScanPoint::Entry { is_dir: false }, true), ScanMove::RollBack);
    assert_eq!(scan_move(ScanPoint::Entry { is_dir: false }, false), ScanMove::Skip);
    assert_eq!(scan_move(ScanPoint::Entry { is_dir: true }, false), ScanMove::ListFolder);
    assert_eq!(scan_move(ScanPoint::Listed { readable: false }, false), ScanMove::Skip);
    assert_eq!(scan_move(ScanPoint::Listed { readable: true }, true), ScanMove::RecordFolder);
    assert_eq!(scan_move(ScanPoint::Walked, false), ScanMove::TrimAndCommit);
}
