use chrono::Utc;
use pelp::access_log::{access_log_location, list, log, render_listing, FileAccess, FileAccessLog, Timestamp};

fn ts(secs: i64, nanos: u32) -> Timestamp {
    Timestamp::new(secs, nanos).unwrap()
}

fn paths(l: &FileAccessLog) -> Vec<String> {
    l.entries.iter().map(|e| e.path().clone()).collect()
}

fn times(l: &FileAccessLog) -> Vec<(i64, u32)> {
    l.entries.iter().map(|e| (e.accessed().secs(), e.accessed().nanos())).collect()
}

#[test]
fn timestamps_chrono_accepts() {
    let t = ts(1_700_000_000, 5);
    assert_eq!((t.secs(), t.nanos()), (1_700_000_000, 5));
    assert!(Timestamp::new(0, 1_999_999_999).is_none());
    assert!(Timestamp::new(59, 1_500_000_000).is_some());
    assert!(Timestamp::new(i64::MAX, 0).is_none());
}

#[test]
fn add_appends_new_paths() {
    let mut l = FileAccessLog::new();
    l.add_at("/a.md".to_string(), ts(10, 0));
    l.add_at("/b.md".to_string(), ts(20, 0));
    assert_eq!(paths(&l), vec!["/a.md", "/b.md"]);
    assert_eq!(times(&l), vec![(10, 0), (20, 0)]);
}

#[test]
fn add_replaces_in_place() {
    let mut l = FileAccessLog::new();
    l.add_at("/a.md".to_string(), ts(10, 0));
    l.add_at("/b.md".to_string(), ts(20, 0));
    l.add_at("/a.md".to_string(), ts(30, 7));
    assert_eq!(paths(&l), vec!["/a.md", "/b.md"]);
    assert_eq!(times(&l), vec![(30, 7), (20, 0)]);
}

#[test]
fn add_replaces_first_of_duplicates() {
    let mut l = FileAccessLog::new();
    l.entries.push(FileAccess::new("/a.md".to_string(), ts(1, 0)));
    l.entries.push(FileAccess::new("/a.md".to_string(), ts(2, 0)));
    l.add_at("/a.md".to_string(), ts(3, 0));
    assert_eq!(times(&l), vec![(3, 0), (2, 0)]);
}

#[test]
fn log_records_now() {
    let before = Utc::now().timestamp();
    let mut l = FileAccessLog::new();
    log(&mut l, "/deck.md".to_string());
    let after = Utc::now().timestamp();
    assert_eq!(paths(&l), vec!["/deck.md"]);
    let t = l.entries[0].accessed().secs();
    assert!(before <= t && t <= after);
    log(&mut l, "/deck.md".to_string());
    assert_eq!(l.entries.len(), 1);
}

#[test]
fn listing_of_empty_log() {
    assert_eq!(list(&FileAccessLog::new()), "FileAccessLog { entries: [] }");
}

#[test]
fn render_listing_joins_entries() {
    let items = vec![
        ("\"a\"".to_string(), "T1".to_string()),
        ("\"b\"".to_string(), "T2".to_string()),
    ];
    assert_eq!(
        render_listing(&items),
        "FileAccessLog { entries: [FileAccess { path: \"a\", accessed: T1 }, FileAccess { path: \"b\", accessed: T2 }] }"
    );
}

#[test]
fn log_location_under_data_dir() {
    let (dir, file) = access_log_location("/home/me/.local/share");
    assert_eq!(dir, "/home/me/.local/share/pelp");
    assert_eq!(file, "/home/me/.local/share/pelp/recent.db");
}

#[test]
fn law_lookup_after_add_on_example() {
    let mut l = FileAccessLog::new();
    l.add_at("/a.md".to_string(), ts(5, 0));
    l.add_at("/b.md".to_string(), ts(6, 0));
    l.add_at("/b.md".to_string(), ts(9, 0));
    let b = l.entries.iter().find(|e| e.path() == "/b.md").unwrap();
    assert_eq!(b.accessed().secs(), 9);
    let a = l.entries.iter().find(|e| e.path() == "/a.md").unwrap();
    assert_eq!(a.accessed().secs(), 5);
    assert_eq!(l.entries.len(), 2);
}

#[test]
fn law_listing_after_add_on_example() {
    let mut l = FileAccessLog::new();
    l.add_at("/x/a.md".to_string(), ts(100, 0));
    log(&mut l, "/x/it's \"b\".md".to_string());
    let listing = list(&l);
    assert!(listing.contains(&format!("{:?}", "/x/it's \"b\".md")));
    assert!(listing.contains(&format!("{:?}", "/x/a.md")));
    assert_eq!(listing, list(&l));
}

#[test]
fn representable_range() {
    assert!(Timestamp::new(-8_334_601_228_800, 0).is_some());
    assert!(Timestamp::new(-8_334_601_228_801, 999_999_999).is_none());
    assert!(Timestamp::new(8_210_266_876_799, 999_999_999).is_some());
    assert!(Timestamp::new(8_210_266_876_800, 0).is_none());
    assert!(Timestamp::new(59, 1_999_999_999).is_some());
    assert!(Timestamp::new(-1, 1_500_000_000).is_some());
    assert!(Timestamp::new(58, 1_000_000_000).is_none());
    assert!(Timestamp::new(59, 2_000_000_000).is_none());
    assert!(Timestamp::new(0, 999_999_999).is_some());
}
