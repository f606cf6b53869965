use blogserve::index::{build_index, entry_for, file_stem, FileRecord, Timestamp};
use blogserve::slug::post_file_path;

fn file(name: &str, secs: i64) -> FileRecord {
    FileRecord {
        file_name: Some(name.to_string()),
        is_file: true,
        modified: Some(Timestamp { secs, nanos: 0 }),
    }
}

#[test]
fn empty_directory_gives_empty_index() {
    let files: Vec<FileRecord> = Vec::new();
    assert!(build_index(&files).is_empty());
}

#[test]
fn two_files_keep_their_own_times_newest_first() {
    let files = vec![file("a.md", 100), file("b.md", 200)];
    let index = build_index(&files);
    assert_eq!(index.len(), 2);
    assert_eq!(index[0].name, "b");
    assert_eq!(index[0].modified, Timestamp { secs: 200, nanos: 0 });
    assert_eq!(index[1].name, "a");
    assert_eq!(index[1].modified, Timestamp { secs: 100, nanos: 0 });
}

#[test]
fn equal_times_keep_listing_order() {
    let files = vec![file("x.md", 5), file("y.md", 5), file("z.md", 9)];
    let index = build_index(&files);
    let names: Vec<&str> = index.iter().map(|e| e.name.as_str()).collect();
    assert_eq!(names, vec!["z", "x", "y"]);
}

#[test]
fn nanoseconds_break_ties() {
    let mut early = file("early.md", 7);
    early.modified = Some(Timestamp { secs: 7, nanos: 1 });
    let mut late = file("late.md", 7);
    late.modified = Some(Timestamp { secs: 7, nanos: 2 });
    let index = build_index(&vec![early, late]);
    assert_eq!(index[0].name, "late");
    assert_eq!(index[1].name, "early");
}

#[test]
fn unreadable_and_non_file_entries_are_skipped() {
    let dir = FileRecord { file_name: Some("sub".to_string()), is_file: false, modified: Some(Timestamp { secs: 1, nanos: 0 }) };
    let no_time = FileRecord { file_name: Some("c.md".to_string()), is_file: true, modified: None };
    let no_name = FileRecord { file_name: None, is_file: true, modified: Some(Timestamp { secs: 1, nanos: 0 }) };
    assert!(entry_for(&dir).is_none());
    assert!(entry_for(&no_time).is_none());
    assert!(entry_for(&no_name).is_none());
    let index = build_index(&vec![dir, no_time, no_name, file("d.md", 3)]);
    assert_eq!(index.len(), 1);
    assert_eq!(index[0].name, "d");
}

#[test]
fn listed_post_slug_resolves_to_its_file() {
    let index = build_index(&vec![file("hello world.md", 1)]);
    assert_eq!(index[0].name, "hello world");
    assert_eq!(index[0].slug, "hello-world");
    assert_eq!(
        post_file_path("blogs", &index[0].slug),
        Some("blogs/hello world.md".to_string())
    );
}

#[test]
fn stems_drop_only_the_last_extension() {
    assert_eq!(file_stem("a.b.md"), "a.b");
    assert_eq!(file_stem("notes"), "notes");
    assert_eq!(file_stem(".md"), ".md");
    assert_eq!(file_stem("post.md"), "post");
}

#[test]
fn timestamp_order() {
    let a = Timestamp { secs: 1, nanos: 999 };
    let b = Timestamp { secs: 2, nanos: 0 };
    assert!(a.is_before(&b));
    assert!(!b.is_before(&a));
    assert!(!a.is_before(&a));
}
