use daft::entropy::{
    commit_distance, conflict_line_total, file_overlap, modified_paths, same_state, FileContent,
};
use daft::foresee::{ConflictHunk, ConflictType};

fn fc(path: &str, data: &str) -> FileContent {
    FileContent { path: path.to_string(), data: data.as_bytes().to_vec() }
}

#[test]
fn modified_paths_cover_changes_additions_and_removals() {
    let base = vec![fc("a.txt", "1"), fc("b.txt", "2"), fc("gone.txt", "3")];
    let files = vec![fc("a.txt", "1"), fc("b.txt", "two"), fc("new.txt", "4")];
    assert_eq!(
        modified_paths(&base, &files),
        vec!["b.txt".to_string(), "gone.txt".to_string(), "new.txt".to_string()]
    );
    assert!(modified_paths(&base, &base).is_empty());
}

#[test]
fn overlap_counts_shared_and_disjoint_paths() {
    let base = vec![fc("file.txt", "alpha\n")];
    let d1 = vec![fc("file.txt", "alpha AAA\n"), fc("file_a.txt", "a")];
    let d2 = vec![fc("file.txt", "alpha BBB\n"), fc("file_b.txt", "b")];
    let o = file_overlap(&base, &d1, &d2);
    assert_eq!(o.shared_modified_files, vec!["file.txt".to_string()]);
    assert_eq!(o.disjoint_modified_files, vec!["file_a.txt".to_string(), "file_b.txt".to_string()]);
    assert_eq!((o.shared_count, o.union_count), (1, 3));
    let r = file_overlap(&base, &d2, &d1);
    assert_eq!((r.shared_count, r.union_count), (1, 3));
    let same = file_overlap(&base, &d1, &d1);
    assert!(same.disjoint_modified_files.is_empty());
    // Disjoint edits share nothing.
    let e = file_overlap(&base, &vec![fc("file.txt", "alpha\n"), fc("x", "1")], &vec![fc("file.txt", "alpha\n"), fc("y", "2")]);
    assert_eq!(e.shared_count, 0);
    assert_eq!(e.union_count, 2);
}

#[test]
fn distance_and_conflict_lines() {
    let walk = Some(vec!["h".to_string(), "p".to_string(), "b".to_string()]);
    assert_eq!(commit_distance(&walk, "b", "h"), 2);
    assert_eq!(commit_distance(&walk, "zz", "h"), 3);
    assert_eq!(commit_distance(&walk, "h", "h"), 0);
    assert_eq!(commit_distance(&None, "b", "h"), 0);
    let hunk = ConflictHunk {
        path: "f".to_string(),
        conflict_type: ConflictType::TextOverlap,
        base_range: 0..1,
        ours_range: 0..1,
        theirs_range: 0..2,
        ours_lines: vec!["a".to_string()],
        theirs_lines: vec!["b".to_string(), "c".to_string()],
    };
    assert_eq!(conflict_line_total(&vec![hunk]), 3);
    assert_eq!(conflict_line_total(&vec![]), 0);
}

#[test]
fn identical_states() {
    let a = vec![fc("x", "1")];
    let h = Some("abc".to_string());
    assert!(same_state(&h, &h.clone(), &a, &vec![fc("x", "1")]));
    assert!(!same_state(&h, &None, &a, &a));
    assert!(!same_state(&h, &h, &a, &vec![fc("x", "2")]));
}
