use chrono::{DateTime, Utc};

#[allow(dead_code)]
#[derive(Debug)]
struct FileAccessLog {
    entries: Vec<FileAccess>,
}

#[allow(dead_code)]
#[derive(Debug)]
struct FileAccess {
    path: String,
    accessed: DateTime<Utc>,
}

#[test]
fn listing_matches_debug_of_the_log() {
    let mut l = pelp::access_log::FileAccessLog::new();
    l.add_at("/home/me/talk \"one\".md".to_string(), pelp::access_log::Timestamp::new(1_714_953_600, 0).unwrap());
    l.add_at("/tmp/b.md".to_string(), pelp::access_log::Timestamp::new(1_714_953_601, 123_000_000).unwrap());
    let expected = FileAccessLog {
        entries: vec![
            FileAccess {
                path: "/home/me/talk \"one\".md".to_string(),
                accessed: DateTime::from_timestamp(1_714_953_600, 0).unwrap(),
            },
            FileAccess {
                path: "/tmp/b.md".to_string(),
                accessed: DateTime::from_timestamp(1_714_953_601, 123_000_000).unwrap(),
            },
        ],
    };
    assert_eq!(pelp::access_log::list(&l), format!("{:?}", expected));
}

