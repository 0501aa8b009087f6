use blog_engine::blog_storage::{BlogEntry, BlogStorage, PostMetadata};
use blog_engine::markdown::entry_from_document;
use blog_engine::watch::{
    add_most_recent_entries, classify, commit_parsed, event_or_resync, front_matter_error,
    is_markdown_filename,
    is_valid_filename_entry, on_change, plan_change, sse_data, ChangeKind, IngestAction,
    ParseError, PendingChanges, RawEvent, UpdateEvent,
};

fn entry(name: &str, date: i128) -> BlogEntry {
    BlogEntry {
        description: PostMetadata {
            title: "Hello".to_owned(),
            author: "A".to_owned(),
            publish_date: date,
        },
        html: "<h1>hi</h1>\n".to_owned(),
        creation_date: 0,
        filename: name.to_owned(),
    }
}

#[test]
fn filename_policy() {
    assert!(is_valid_filename_entry("hello.md"));
    assert!(is_valid_filename_entry(".md"));
    assert!(!is_valid_filename_entry("_draft.md"));
    assert!(!is_valid_filename_entry("hello.txt"));
    assert!(!is_valid_filename_entry("md"));
    assert!(!is_valid_filename_entry(""));
    assert!(is_markdown_filename("_draft.md"));
    assert!(!is_markdown_filename("style.css"));
}

#[test]
fn rename_is_one_change() {
    assert_eq!(classify(RawEvent::RenameTo, true), Some(ChangeKind::Modified));
    assert_eq!(classify(RawEvent::RenameTo, false), Some(ChangeKind::Created));
}

#[test]
fn classification_table() {
    assert_eq!(classify(RawEvent::CreateFile, false), Some(ChangeKind::Created));
    assert_eq!(classify(RawEvent::DataChange, true), Some(ChangeKind::Modified));
    assert_eq!(classify(RawEvent::MetadataChange, false), Some(ChangeKind::Modified));
    assert_eq!(classify(RawEvent::RemoveFile, true), Some(ChangeKind::Removed));
    assert_eq!(classify(RawEvent::CreateOther, false), None);
    assert_eq!(classify(RawEvent::Other, true), None);
}

#[test]
fn dispatch_table() {
    assert_eq!(plan_change(ChangeKind::Created, "a.md", false), IngestAction::Ingest);
    assert_eq!(plan_change(ChangeKind::Created, "_a.md", false), IngestAction::Ignore);
    assert_eq!(plan_change(ChangeKind::Modified, "a.md", true), IngestAction::Ingest);
    assert_eq!(plan_change(ChangeKind::Modified, "a.md", false), IngestAction::Ignore);
    assert_eq!(plan_change(ChangeKind::Modified, "a.txt", true), IngestAction::Ignore);
    assert_eq!(plan_change(ChangeKind::Removed, "_a.md", true), IngestAction::Remove);
    assert_eq!(plan_change(ChangeKind::Removed, "a.txt", true), IngestAction::Ignore);
}

#[test]
fn new_post_is_ingested_and_announced() {
    let mut s = BlogStorage::new("blog");
    assert_eq!(on_change(&mut s, ChangeKind::Created, "hello.md"), IngestAction::Ingest);
    assert!(commit_parsed(&mut s, Ok(entry("hello.md", 1704067200 * 1_000_000_000))));
    assert!(s.get_entry("hello.md").unwrap().html.contains("<h1>hi</h1>"));
}

fn parsed(name: &str, body: &str) -> BlogEntry {
    let meta = PostMetadata {
        title: "Hello".to_owned(),
        author: "A".to_owned(),
        publish_date: 1704067200 * 1_000_000_000,
    };
    entry_from_document(meta, body, 0, name.to_owned())
}

#[test]
fn created_post_is_rendered_from_markdown() {
    let mut s = BlogStorage::new("blog");
    assert_eq!(on_change(&mut s, ChangeKind::Created, "hello.md"), IngestAction::Ingest);
    assert!(commit_parsed(&mut s, Ok(parsed("hello.md", "# hi"))));
    let e = s.get_entry("hello.md").unwrap();
    assert!(e.html.contains("<h1>hi</h1>"));
    assert_eq!(e.description.title, "Hello");
}

#[test]
fn overwritten_post_is_reingested() {
    let mut s = BlogStorage::new("blog");
    commit_parsed(&mut s, Ok(parsed("hello.md", "# hi")));
    assert_eq!(on_change(&mut s, ChangeKind::Modified, "hello.md"), IngestAction::Ingest);
    assert!(commit_parsed(&mut s, Ok(parsed("hello.md", "# hi2"))));
    assert!(s.get_entry("hello.md").unwrap().html.contains("<h1>hi2</h1>"));
    assert_eq!(s.iterate_most_recent_entries().len(), 1);
}

#[test]
fn modified_unknown_post_waits_for_creation() {
    let mut s = BlogStorage::new("blog");
    assert_eq!(on_change(&mut s, ChangeKind::Modified, "new.md"), IngestAction::Ignore);
}

#[test]
fn draft_is_ignored() {
    let mut s = BlogStorage::new("blog");
    commit_parsed(&mut s, Ok(entry("hello.md", 1704067200 * 1_000_000_000)));
    assert_eq!(on_change(&mut s, ChangeKind::Created, "_draft.md"), IngestAction::Ignore);
    assert!(s.get_entry("_draft.md").is_none());
}

#[test]
fn deleted_post_leaves_cache_and_recent() {
    let mut s = BlogStorage::new("blog");
    commit_parsed(&mut s, Ok(entry("hello.md", 1704067200 * 1_000_000_000)));
    assert_eq!(on_change(&mut s, ChangeKind::Removed, "hello.md"), IngestAction::Remove);
    assert!(s.get_entry("hello.md").is_none());
    assert!(s.iterate_most_recent_entries().is_empty());
}

#[test]
fn failed_parse_changes_nothing() {
    let mut s = BlogStorage::new("blog");
    assert!(!commit_parsed(&mut s, Err(ParseError::FrontMatter)));
    assert!(!commit_parsed(&mut s, Err(ParseError::Schema)));
    assert!(!commit_parsed(&mut s, Err(ParseError::Io)));
    assert!(!s.contains_entry("hello.md"));
}

#[test]
fn initial_scan_skips_drafts_and_failures() {
    let mut s = BlogStorage::new("blog");
    let files = vec![
        Ok(entry("a.md", 1)),
        Err(ParseError::Io),
        Ok(entry("_b.md", 2)),
        Ok(entry("c.txt", 3)),
        Ok(entry("d.md", 4)),
    ];
    add_most_recent_entries(&mut s, &files);
    let names: Vec<String> = s
        .iterate_most_recent_entries()
        .into_iter()
        .map(|e| e.filename)
        .collect();
    assert_eq!(names, vec!["d.md", "a.md"]);
}

#[test]
fn sse_payload_is_reload() {
    assert_eq!(sse_data(UpdateEvent::Reload), "reload");
    assert_eq!(event_or_resync(Err(3)), UpdateEvent::Reload);
    assert_eq!(event_or_resync(Ok(UpdateEvent::Reload)), UpdateEvent::Reload);
}

#[test]
fn burst_of_writes_is_one_pending_parse() {
    let mut q = PendingChanges::new();
    assert!(q.push("a.md"));
    assert!(!q.push("a.md"));
    assert!(!q.push("a.md"));
    assert!(q.push("b.md"));
    assert_eq!(q.len(), 2);
    assert_eq!(q.pop().as_deref(), Some("a.md"));
    assert_eq!(q.pop().as_deref(), Some("b.md"));
    assert_eq!(q.pop(), None);
}

#[test]
fn front_matter_errors_are_told_apart() {
    assert_eq!(front_matter_error(true), ParseError::Schema);
    assert_eq!(front_matter_error(false), ParseError::FrontMatter);
}
