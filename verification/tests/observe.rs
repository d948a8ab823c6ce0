use daft::entropy::FileContent;
use daft::agent::status::FileEntry;
use daft::observe::{index_entries, ObserveSubsystem, ObservedEntry, WalkedFile};
use daft::territory::error::AwarenessError;

fn fe(p: &str, o: &str) -> FileEntry {
    FileEntry { path: p.to_string(), oid: o.to_string() }
}

fn ie(p: &str, o: &str, size: u32, exists: bool) -> ObservedEntry {
    ObservedEntry { path: p.to_string(), oid: o.to_string(), file_size: size, exists }
}

#[test]
fn dimensions_must_exist_unless_mainline() {
    let o = ObserveSubsystem::new(".dft");
    assert_eq!(o.dimension_dir("feat"), ".dft/dimensions/feat");
    assert!(o.ensure_dimension_exists("mainline", false).is_ok());
    assert!(o.ensure_dimension_exists("feat", true).is_ok());
    assert_eq!(
        o.ensure_dimension_exists("ghost", false),
        Err(AwarenessError::DimensionNotFound("ghost".to_string()))
    );
}

#[test]
fn status_of_a_dimension() {
    let o = ObserveSubsystem::new(".dft");
    let head = vec![fe("a-b.txt", "1"), fe("a/b.txt", "2"), fe("old.txt", "3"), fe("same.txt", "4")];
    let index = vec![
        ie("a-b.txt", "9", 5, true),
        ie("a/b.txt", "7", 5, true),
        ie("new.txt", "8", 3, false),
        ie("same.txt", "4", 10, true),
    ];
    let walked = vec![
        WalkedFile { rel: "same.txt".to_string(), disk_len: Some(10), content_oid: Some("5".to_string()) },
        WalkedFile { rel: "a\\b.txt".to_string(), disk_len: Some(6), content_oid: None },
        WalkedFile { rel: "zz.txt".to_string(), disk_len: Some(1), content_oid: None },
        WalkedFile { rel: "b.txt".to_string(), disk_len: Some(1), content_oid: None },
    ];
    let r = o.status("feat", &Some("abc".to_string()), &head, &index, &walked, true);
    assert_eq!(r.dimension, "feat");
    assert_eq!(r.branch, "feat");
    assert_eq!(r.head_oid, Some("abc".to_string()));
    assert!(!r.is_clean);
    assert_eq!(r.staged_added, vec!["new.txt".to_string()]);
    // Paths sort component by component: `a/b.txt` comes before `a-b.txt`.
    assert_eq!(r.staged_modified, vec!["a/b.txt".to_string(), "a-b.txt".to_string()]);
    assert_eq!(r.staged_deleted, vec!["old.txt".to_string()]);
    assert_eq!(r.unstaged_modified, vec!["a/b.txt".to_string(), "same.txt".to_string()]);
    assert_eq!(r.unstaged_deleted, vec!["new.txt".to_string()]);
    assert_eq!(r.untracked, vec!["b.txt".to_string(), "zz.txt".to_string()]);

    let clean = o.status("mainline", &None, &vec![fe("x", "1")], &vec![ie("x", "1", 1, true)], &vec![], true);
    assert!(clean.is_clean);
    let no_workdir = o.status("d", &None, &vec![], &vec![ie("x", "1", 1, false)], &vec![], false);
    assert_eq!(no_workdir.staged_added, vec!["x".to_string()]);
    assert!(no_workdir.unstaged_deleted.is_empty());
}

#[test]
fn virtual_files_overlay_commit_index_and_workspace() {
    let fc = |p: &str, d: &str| FileContent { path: p.to_string(), data: d.as_bytes().to_vec() };
    let head = vec![fc("b.txt", "head-b"), fc("a.txt", "head-a")];
    let index = vec![fc("b.txt", "index-b"), fc("c.txt", "index-c")];
    let work = vec![fc("c.txt", "work-c"), fc("a.txt", "work-a"), fc("c.txt", "work-c2")];
    let files = ObserveSubsystem::get_dimension_virtual_files(&head, &index, &work);
    let got: Vec<(&str, &[u8])> = files.iter().map(|f| (f.path.as_str(), f.data.as_slice())).collect();
    assert_eq!(
        got,
        vec![("a.txt", &b"work-a"[..]), ("b.txt", &b"index-b"[..]), ("c.txt", &b"work-c2"[..])]
    );
}

#[test]
fn diff_lists_the_paths_that_differ_under_the_filter() {
    let fc = |p: &str, d: &str| FileContent { path: p.to_string(), data: d.as_bytes().to_vec() };
    let f1 = vec![fc("src/a.rs", "1"), fc("src/b.rs", "2"), fc("docs/x.md", "x"), fc("src2/c.rs", "c")];
    let f2 = vec![fc("src/a.rs", "1"), fc("src/b.rs", "3"), fc("src/new.rs", "n"), fc("src2/c.rs", "d")];
    assert_eq!(
        ObserveSubsystem::diff(&f1, &f2, None),
        vec!["docs/x.md".to_string(), "src/b.rs".to_string(), "src/new.rs".to_string(), "src2/c.rs".to_string()]
    );
    assert_eq!(
        ObserveSubsystem::diff(&f1, &f2, Some("src")),
        vec!["src/b.rs".to_string(), "src/new.rs".to_string()]
    );
    assert_eq!(ObserveSubsystem::diff(&f1, &f2, Some("src\\b.rs")), vec!["src/b.rs".to_string()]);
}

#[test]
fn raw_index_entries_are_keyed_by_path() {
    let raw = vec![ie("b.txt", "1", 1, true), ie("a.txt", "2", 2, true), ie("b.txt", "3", 3, false)];
    let index = index_entries(&raw);
    let seen: Vec<(&str, &str, u32, bool)> =
        index.iter().map(|e| (e.path.as_str(), e.oid.as_str(), e.file_size, e.exists)).collect();
    assert_eq!(seen, vec![("a.txt", "2", 2, true), ("b.txt", "3", 3, false)]);
}

#[test]
fn status_from_raw_index_entries() {
    let o = ObserveSubsystem::new(".dft");
    let head = vec![fe("a.txt", "1")];
    // `a.txt` is listed twice; the later entry stands.
    let raw = vec![ie("new.txt", "8", 3, true), ie("a.txt", "1", 1, true), ie("a.txt", "2", 1, true)];
    let r = o.status_from_entries("d", &None, &head, &raw, &vec![], false);
    assert_eq!(r.staged_added, vec!["new.txt".to_string()]);
    assert_eq!(r.staged_modified, vec!["a.txt".to_string()]);
    assert!(!r.is_clean);
}
