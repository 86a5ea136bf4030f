use pomodoro::timer::interval_seconds;
use pomodoro::{ChangeReport, ChangeType, Countdown, DirectorySnapshot, FileChange, FileInfo, TimerStep};

fn info(size: u64, secs: u64) -> FileInfo {
    FileInfo::from_metadata(size, secs)
}

fn snapshot(stamp: &str, files: &[(&str, u64, u64)]) -> DirectorySnapshot {
    let listing: Vec<(String, u64, u64)> =
        files.iter().map(|(p, s, m)| (p.to_string(), *s, *m)).collect();
    DirectorySnapshot::from_listing_at(stamp.to_string(), &listing)
}

fn find<'a>(changes: &'a [FileChange], path: &str) -> &'a FileChange {
    changes.iter().find(|c| c.path == path).expect("change for path")
}

fn state(i: &Option<FileInfo>) -> Option<(u64, String)> {
    i.as_ref().map(|f| (f.size, f.modified.clone()))
}

#[test]
fn compare_with_itself_is_empty() {
    let s = snapshot("t0", &[("a.txt", 10, 100), ("dir/b.rs", 3, 200), ("c", 0, 0)]);
    assert!(s.compare(&s).is_empty());
}

#[test]
fn compare_disjoint_snapshots() {
    let a = snapshot("t0", &[("x", 1, 1), ("y", 2, 2)]);
    let b = snapshot("t1", &[("z", 3, 3)]);
    let changes = b.compare(&a);
    assert_eq!(changes.len(), 3);
    let z = find(&changes, "z");
    assert_eq!(z.change_type, ChangeType::Added);
    assert_eq!(state(&z.initial_state), None);
    assert_eq!(state(&z.final_state), Some((3, "3".to_string())));
    for p in ["x", "y"] {
        let c = find(&changes, p);
        assert_eq!(c.change_type, ChangeType::Deleted);
        assert!(c.final_state.is_none());
        assert!(c.initial_state.is_some());
    }
    assert!(changes.iter().all(|c| c.change_type != ChangeType::Modified));
}

#[test]
fn size_change_is_modified() {
    let s1 = snapshot("t0", &[("f", 10, 50)]);
    let s2 = snapshot("t1", &[("f", 11, 50)]);
    let changes = s2.compare(&s1);
    assert_eq!(changes.len(), 1);
    assert_eq!(changes[0].change_type, ChangeType::Modified);
    assert_eq!(state(&changes[0].initial_state), Some((10, "50".to_string())));
    assert_eq!(state(&changes[0].final_state), Some((11, "50".to_string())));
}

#[test]
fn mtime_change_is_modified() {
    let s1 = snapshot("t0", &[("f", 10, 50)]);
    let s2 = snapshot("t1", &[("f", 10, 51)]);
    let changes = s2.compare(&s1);
    assert_eq!(changes.len(), 1);
    assert_eq!(changes[0].change_type, ChangeType::Modified);
    assert_eq!(state(&changes[0].initial_state), Some((10, "50".to_string())));
    assert_eq!(state(&changes[0].final_state), Some((10, "51".to_string())));
}

#[test]
fn unchanged_file_not_reported_among_other_changes() {
    let s1 = snapshot("t0", &[("keep", 7, 70), ("gone", 1, 1)]);
    let s2 = snapshot("t1", &[("keep", 7, 70), ("new", 2, 2)]);
    let changes = s2.compare(&s1);
    assert_eq!(changes.len(), 2);
    assert!(changes.iter().all(|c| c.path != "keep"));
}

#[test]
fn grow_one_file_and_create_another() {
    let s1 = snapshot("t0", &[("a.txt", 10, 1000)]);
    let s2 = snapshot("t1", &[("a.txt", 20, 2000), ("b.txt", 5, 3000)]);
    let changes = s2.compare(&s1);
    assert_eq!(changes.len(), 2);
    let a = find(&changes, "a.txt");
    assert_eq!(a.change_type, ChangeType::Modified);
    assert_eq!(state(&a.initial_state), Some((10, "1000".to_string())));
    assert_eq!(state(&a.final_state), Some((20, "2000".to_string())));
    let b = find(&changes, "b.txt");
    assert_eq!(b.change_type, ChangeType::Added);
    assert_eq!(state(&b.initial_state), None);
    assert_eq!(state(&b.final_state), Some((5, "3000".to_string())));
}

#[test]
fn empty_directory_gives_no_report() {
    let s = snapshot("t0", &[]);
    assert!(s.compare(&s).is_empty());
    assert!(ChangeReport::for_session(&s, &s).is_none());
}

#[test]
fn report_carries_session_timestamps() {
    let s1 = snapshot("2024-01-01T10:00:00+00:00", &[("a", 1, 1)]);
    let s2 = snapshot("2024-01-01T10:25:00+00:00", &[]);
    let report = ChangeReport::for_session(&s1, &s2).expect("a change");
    assert_eq!(report.session_start, "2024-01-01T10:00:00+00:00");
    assert_eq!(report.session_end, "2024-01-01T10:25:00+00:00");
    assert_eq!(report.changes.len(), 1);
    assert_eq!(report.changes[0].path, "a");
    assert_eq!(report.changes[0].change_type, ChangeType::Deleted);
}

#[test]
fn deletions_come_after_other_changes() {
    let s1 = snapshot("t0", &[("d1", 1, 1), ("m", 1, 1), ("d2", 1, 1)]);
    let s2 = snapshot("t1", &[("m", 2, 1), ("a", 1, 1)]);
    let changes = s2.compare(&s1);
    assert_eq!(changes.len(), 4);
    let first_delete = changes.iter().position(|c| c.change_type == ChangeType::Deleted).unwrap();
    assert!(changes[first_delete..].iter().all(|c| c.change_type == ChangeType::Deleted));
    assert_eq!(first_delete, 2);
}

#[test]
fn modification_time_is_decimal_seconds() {
    assert_eq!(info(10, 1700000000).modified, "1700000000");
    assert_eq!(info(0, 0).modified, "0");
    assert_eq!(info(3, u64::MAX).modified, "18446744073709551615");
    assert_eq!(info(42, 7).size, 42);
}

#[test]
fn later_listing_entry_replaces_earlier() {
    let s = snapshot("t0", &[("a", 1, 1), ("b", 2, 2), ("a", 3, 3)]);
    assert_eq!(s.files.len(), 2);
    let a = s.get(&"a".to_string()).expect("a recorded");
    assert_eq!((a.size, a.modified.as_str()), (3, "3"));
    assert!(s.get(&"c".to_string()).is_none());
    assert_eq!(s.timestamp, "t0");
}

#[test]
fn insert_adds_and_replaces() {
    let mut s = DirectorySnapshot::empty("t".to_string());
    s.insert("p".to_string(), info(1, 10));
    s.insert("q".to_string(), info(2, 20));
    s.insert("p".to_string(), info(5, 50));
    assert_eq!(s.files.len(), 2);
    assert_eq!(s.get(&"p".to_string()).unwrap().size, 5);
    assert_eq!(s.get(&"q".to_string()).unwrap().modified, "20");
}

#[test]
fn clone_and_same_state() {
    let a = info(9, 99);
    let b = a.clone();
    assert!(a.same_state(&b));
    assert!(!a.same_state(&info(9, 98)));
    assert!(!a.same_state(&info(8, 99)));
}

#[test]
fn from_listing_stamps_current_time() {
    let listing = vec![("x".to_string(), 4u64, 40u64)];
    let s = DirectorySnapshot::from_listing(&listing);
    assert!(!s.timestamp.is_empty());
    assert_eq!(s.get(&"x".to_string()).unwrap().modified, "40");
}

#[test]
fn interval_seconds_from_minutes() {
    assert_eq!(interval_seconds(0), Some(0));
    assert_eq!(interval_seconds(25), Some(1500));
    assert_eq!(interval_seconds(u64::MAX / 60), Some((u64::MAX / 60) * 60));
    assert_eq!(interval_seconds(u64::MAX / 60 + 1), None);
}

#[test]
fn countdown_ticks_then_finishes() {
    let mut c = Countdown::new(3);
    assert_eq!(c.remaining(), 3);
    for _ in 0..3 {
        assert_eq!(c.step(), TimerStep::Tick);
    }
    assert_eq!(c.remaining(), 0);
    assert_eq!(c.step(), TimerStep::Finished);
    assert_eq!(c.step(), TimerStep::Finished);
    assert_eq!(c.elapsed, 3);
}

#[test]
fn zero_length_countdown_finishes_at_once() {
    let mut c = Countdown::new(0);
    assert_eq!(c.step(), TimerStep::Finished);
}

#[test]
fn rebuilding_from_own_table_keeps_files_and_timestamp() {
    let s = snapshot("2024-05-05T09:00:00+02:00", &[("a", 1, 11), ("b/c", 2, 22)]);
    let entries: Vec<(String, FileInfo)> = s.files.iter().map(|(p, i)| (p.clone(), i.clone())).collect();
    let r = DirectorySnapshot::from_entries(s.timestamp.clone(), entries);
    assert_eq!(r.timestamp, s.timestamp);
    assert_eq!(r.files.len(), 2);
    for (p, i) in &s.files {
        assert!(r.get(p).unwrap().same_state(i));
    }
    assert!(r.compare(&s).is_empty());
}

#[test]
fn from_entries_keeps_last_of_repeated_path() {
    let entries = vec![("a".to_string(), info(1, 1)), ("a".to_string(), info(2, 2))];
    let r = DirectorySnapshot::from_entries("t".to_string(), entries);
    assert_eq!(r.files.len(), 1);
    assert_eq!(r.get(&"a".to_string()).unwrap().size, 2);
}
