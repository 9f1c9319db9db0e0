use datchani::files::{FileKind, Index, IndexedFile, Timestamp};
use datchani::indexer::{hand_off, EntryOutcome, Indexer, IndexBackend};
use datchani::tags::parse_tags;

fn at(secs: i64) -> Timestamp {
    Timestamp { secs, nanos: 0 }
}

fn record(path: &str, tags: &[&str]) -> IndexedFile {
    IndexedFile::from_parts(
        path.to_string(),
        FileKind::Regular,
        None,
        tags.iter().map(|t| t.to_string()).collect(),
        at(1),
        at(2),
    )
}

#[test]
fn upsert_twice_keeps_one_record_and_the_second_wins() {
    let mut idx = Index::new();
    idx.add_file(record("a/x.rs", &["old"]));
    idx.add_file(record("a/y.rs", &[]));
    idx.add_file(record("a/x.rs", &["new"]));
    assert_eq!(idx.len(), 2);
    let n = idx.files().iter().filter(|f| f.path == "a/x.rs").count();
    assert_eq!(n, 1);
    assert_eq!(idx.get_file("a/x.rs").unwrap().tags, vec!["new".to_string()]);
    assert_eq!(idx.files()[0].path, "a/x.rs");
    assert!(idx.get_file("a/z.rs").is_none());
}

#[test]
fn data_type_only_for_regular_files() {
    let f = IndexedFile::from_parts("a".to_string(), FileKind::Regular, None, vec![], at(0), at(0));
    assert_eq!(f.data_type, Some("application/octet-stream".to_string()));
    let f = IndexedFile::from_parts(
        "a".to_string(),
        FileKind::Regular,
        Some("image/png".to_string()),
        vec![],
        at(0),
        at(0),
    );
    assert_eq!(f.data_type, Some("image/png".to_string()));
    let f = IndexedFile::from_parts(
        "d".to_string(),
        FileKind::Directory,
        Some("image/png".to_string()),
        vec![],
        at(0),
        at(0),
    );
    assert_eq!(f.data_type, None);
}

#[test]
fn file_kind_names_round_trip() {
    let kinds = [
        FileKind::Regular,
        FileKind::Directory,
        FileKind::Symlink,
        FileKind::BlockDevice,
        FileKind::CharDevice,
        FileKind::Fifo,
        FileKind::Socket,
    ];
    for k in kinds {
        assert_eq!(FileKind::from_name(&k.name()), Some(k));
    }
    assert_eq!(FileKind::Regular.name(), "regular file");
    assert_eq!(FileKind::from_name("DIRECTORY"), Some(FileKind::Directory));
    assert_eq!(FileKind::from_name("Char Device"), Some(FileKind::CharDevice));
    assert_eq!(FileKind::from_name("BLOC\u{212A} DEVICE"), Some(FileKind::BlockDevice));
    assert_eq!(FileKind::from_name("symbolic link"), None);
    assert_eq!(FileKind::from_name(""), None);
}

#[test]
fn tags_are_split_and_trimmed() {
    assert_eq!(parse_tags(""), Vec::<String>::new());
    assert_eq!(parse_tags("a, b ,c"), vec!["a", "b", "c"]);
    assert_eq!(parse_tags("  work  "), vec!["work"]);
    assert_eq!(parse_tags("a,,"), vec!["a", "", ""]);
    assert_eq!(parse_tags("\u{3000}x\t,\u{a0}y"), vec!["x", "y"]);
}

#[test]
fn walk_faults_are_skipped() {
    let outcomes = vec![
        EntryOutcome::Built(record("t/one", &[])),
        EntryOutcome::Unreadable,
        EntryOutcome::Built(record("t/two", &[])),
        EntryOutcome::Unbuildable,
        EntryOutcome::Built(record("t/three", &[])),
    ];
    let mut indexer = Indexer::new(Index::new());
    assert!(indexer.index_all(outcomes).is_ok());
    let idx = indexer.into_backend();
    assert_eq!(idx.len(), 3);
    for p in ["t/one", "t/two", "t/three"] {
        assert!(idx.get_file(p).is_some());
    }
}

#[test]
fn index_all_with_no_records_succeeds_unchanged() {
    let mut indexer = Indexer::new(Index::new());
    assert!(indexer.index_all(vec![EntryOutcome::Unreadable, EntryOutcome::Unbuildable]).is_ok());
    assert_eq!(indexer.into_backend().len(), 0);
}

#[test]
fn get_file_finds_the_record_for_a_path() {
    let mut idx = Index::new();
    idx.add_file(record("p/a", &["one"]));
    idx.add_file(record("p/b", &["two"]));
    assert_eq!(idx.get_file("p/b").unwrap().tags, vec!["two".to_string()]);
    assert_eq!(idx.get_file("p/a").unwrap().path, "p/a");
}

#[test]
fn hand_off_skips_failures() {
    assert!(hand_off(EntryOutcome::Unreadable).is_none());
    assert!(hand_off(EntryOutcome::Unbuildable).is_none());
    assert_eq!(hand_off(EntryOutcome::Built(record("p", &[]))).unwrap().path, "p");
}

#[test]
fn backend_push_file_upserts() {
    let mut idx = Index::new();
    let stored = idx.push_file(record("k", &["a"])).unwrap();
    assert_eq!(stored.path, "k");
    idx.push_file(record("k", &["b"])).unwrap();
    assert_eq!(idx.len(), 1);
    assert_eq!(idx.get_file("k").unwrap().tags, vec!["b".to_string()]);
}
