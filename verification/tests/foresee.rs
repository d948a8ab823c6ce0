use daft::foresee::{
    add_add_conflict, binary_collision, classify_file_change, detect_overlapping_hunks,
    extract_diff_hunks, predict_file, predict_files, ConflictType, EditOp, EditOpKind, FileChange,
    FileSides,
};

fn eq(o: usize, n: usize, t: &str) -> EditOp {
    EditOp { kind: EditOpKind::Equal, old_line: Some(o), new_line: Some(n), text: t.to_string() }
}
fn del(o: usize, t: &str) -> EditOp {
    EditOp { kind: EditOpKind::Delete, old_line: Some(o), new_line: None, text: t.to_string() }
}
fn ins(n: usize, t: &str) -> EditOp {
    EditOp { kind: EditOpKind::Insert, old_line: None, new_line: Some(n), text: t.to_string() }
}

/// Line 2 of a three-line file replaced by `line`.
fn replace_second(line: &str) -> Vec<EditOp> {
    vec![eq(1, 1, "a\n"), del(2, "b\n"), ins(2, line), eq(3, 3, "c\n")]
}

fn sides(path: &str, base: Option<&str>, ours: Option<&str>, theirs: Option<&str>) -> FileSides {
    let b = |o: Option<&str>| o.map(|s| s.as_bytes().to_vec());
    FileSides {
        path: path.to_string(),
        base: b(base),
        ours: b(ours),
        theirs: b(theirs),
        ours_text: ours.unwrap_or("").to_string(),
        theirs_text: theirs.unwrap_or("").to_string(),
        binary: false,
        ours_ops: vec![],
        theirs_ops: vec![],
    }
}

#[test]
fn files_are_classified_against_the_base() {
    let v = |s: &str| s.as_bytes().to_vec();
    let (a, b, c) = (v("a"), v("b"), v("c"));
    assert_eq!(classify_file_change(Some(&a), Some(&b), Some(&b)), FileChange::Identical);
    assert_eq!(classify_file_change(Some(&a), Some(&b), Some(&a)), FileChange::OursOnly);
    assert_eq!(classify_file_change(Some(&a), Some(&a), Some(&b)), FileChange::TheirsOnly);
    assert_eq!(classify_file_change(None, Some(&b), Some(&c)), FileChange::BothAdded);
    assert_eq!(classify_file_change(Some(&a), None, Some(&c)), FileChange::DeletedByUs);
    assert_eq!(classify_file_change(Some(&a), Some(&b), None), FileChange::DeletedByThem);
    assert_eq!(classify_file_change(Some(&a), Some(&b), Some(&c)), FileChange::BothModified);
}

#[test]
fn hunks_are_extracted_from_the_line_diff() {
    let hunks = extract_diff_hunks(&replace_second("B1\n"));
    assert_eq!(hunks.len(), 1);
    assert_eq!((hunks[0].base_start, hunks[0].base_end), (2, 2));
    assert_eq!((hunks[0].new_start, hunks[0].new_end), (2, 2));
    assert_eq!(hunks[0].inserted_lines, vec!["B1".to_string()]);
    // A pure insertion after line 1 is anchored there.
    let ins_only = extract_diff_hunks(&vec![eq(1, 1, "a\n"), ins(2, "x\n"), eq(2, 3, "b\n")]);
    assert_eq!((ins_only[0].base_start, ins_only[0].base_end), (1, 1));
}

#[test]
fn overlapping_edits_conflict_and_identical_ones_do_not() {
    let h1 = extract_diff_hunks(&replace_second("B1\n"));
    let h2 = extract_diff_hunks(&replace_second("B2\n"));
    let c = detect_overlapping_hunks("f.txt", &h1, &h2);
    assert_eq!(c.len(), 1);
    assert_eq!(c[0].conflict_type, ConflictType::TextOverlap);
    assert_eq!(c[0].base_range, 2..3);
    assert_eq!(c[0].ours_lines, vec!["B1".to_string()]);
    assert_eq!(c[0].theirs_lines, vec!["B2".to_string()]);
    assert!(detect_overlapping_hunks("f.txt", &h1, &h1).is_empty());
    // Disjoint edits: line 1 against line 3.
    let first = extract_diff_hunks(&vec![del(1, "a\n"), ins(1, "A\n"), eq(2, 2, "b\n"), eq(3, 3, "c\n")]);
    let third = extract_diff_hunks(&vec![eq(1, 1, "a\n"), eq(2, 2, "b\n"), del(3, "c\n"), ins(3, "C\n")]);
    assert!(detect_overlapping_hunks("f.txt", &first, &third).is_empty());
}

#[test]
fn whole_file_conflicts() {
    let c = add_add_conflict("n.txt", 4, "x\ny\n", 2, "z\n");
    assert_eq!(c.conflict_type, ConflictType::AddAddConflict);
    assert_eq!(c.ours_range, 0..4);
    assert_eq!(c.ours_lines, vec!["x".to_string(), "y".to_string()]);
    assert_eq!(binary_collision("b.bin").ours_lines, vec!["<binary>".to_string()]);
}

#[test]
fn a_prediction_counts_clean_and_conflicting_paths() {
    let mut both = sides("src/z.txt", Some("a\nb\nc\n"), Some("a\nB1\nc\n"), Some("a\nB2\nc\n"));
    both.ours_ops = replace_second("B1\n");
    both.theirs_ops = replace_second("B2\n");
    let mut bin = sides("b/img.png", Some("x"), Some("y"), Some("z"));
    bin.binary = true;
    let files = vec![
        sides("clean.txt", Some("1"), Some("2"), Some("1")),
        both,
        sides("added.txt", None, Some("x\n"), Some("y\n")),
        sides("gone.txt", Some("k"), None, Some("k2")),
        bin,
        sides("same.txt", Some("1"), Some("2"), Some("2")),
    ];
    assert_eq!(predict_file(&files[0]).unwrap().len(), 0);
    let out = predict_files(&files).unwrap();
    assert_eq!(out.clean_file_count, 2);
    assert!(out.has_conflicts);
    assert_eq!(out.conflict_count, 4);
    assert_eq!(
        out.conflicting_files,
        vec!["added.txt".to_string(), "b/img.png".to_string(), "gone.txt".to_string(), "src/z.txt".to_string()]
    );
    let kinds: Vec<ConflictType> = out.conflict_hunks.iter().map(|h| h.conflict_type).collect();
    assert_eq!(
        kinds,
        vec![ConflictType::TextOverlap, ConflictType::AddAddConflict, ConflictType::DeleteModifyConflict, ConflictType::BinaryCollision]
    );
    let calm = predict_files(&vec![sides("a", Some("1"), Some("1"), Some("1"))]).unwrap();
    assert!(!calm.has_conflicts);
    assert!(calm.conflicting_files.is_empty());
}

/// The text of lines 1 to 10 with `extra` inserted after line `after` (0 for
/// the top), and the line diff of that text against the ten lines.
fn inserted(after: usize, extra: &str) -> (String, Vec<EditOp>) {
    let mut text = String::new();
    let mut ops = Vec::new();
    if after == 0 {
        text.push_str(extra);
        ops.push(ins(1, extra));
    }
    for i in 1..=10usize {
        let line = format!("line {}\n", i);
        text.push_str(&line);
        let shift = if after < i { 1 } else { 0 };
        ops.push(eq(i, i + shift, &line));
        if i == after {
            text.push_str(extra);
            ops.push(ins(i + 1, extra));
        }
    }
    (text, ops)
}

fn insert_pair(a: (String, Vec<EditOp>), b: (String, Vec<EditOp>)) -> FileSides {
    let base: String = (1..=10).map(|i| format!("line {}\n", i)).collect();
    FileSides {
        path: "insert.txt".to_string(),
        base: Some(base.into_bytes()),
        ours: Some(a.0.clone().into_bytes()),
        theirs: Some(b.0.clone().into_bytes()),
        ours_text: a.0,
        theirs_text: b.0,
        binary: false,
        ours_ops: a.1,
        theirs_ops: b.1,
    }
}

#[test]
fn test_foresee_pure_insertions_disjoint_lines_bug() {
    // Insertions after line 2 and after line 8 do not collide.
    let report = predict_files(&vec![insert_pair(
        inserted(2, "line 2.5 inserted by dim 1\n"),
        inserted(8, "line 8.5 inserted by dim 2\n"),
    )])
    .unwrap();
    assert!(!report.has_conflicts);
    assert_eq!(report.conflict_count, 0);

    // Same-line insertions with different text must conflict.
    let conflict_report = predict_files(&vec![insert_pair(
        inserted(2, "line 2.5 conflicting version Alpha\n"),
        inserted(2, "line 2.5 conflicting version Beta\n"),
    )])
    .unwrap();
    assert!(conflict_report.has_conflicts);
    assert_eq!(conflict_report.conflict_count, 1);
    assert_eq!(conflict_report.conflict_hunks[0].conflict_type, ConflictType::TextOverlap);

    // Same-line insertions with identical text converge.
    let id_report = predict_files(&vec![insert_pair(
        inserted(2, "line 2.5 conflicting version Alpha\n"),
        inserted(2, "line 2.5 conflicting version Alpha\n"),
    )])
    .unwrap();
    assert!(!id_report.has_conflicts);

    // A header and a footer do not collide.
    let boundary_report = predict_files(&vec![insert_pair(
        inserted(0, "line 0.0 header\n"),
        inserted(10, "line 10.5 footer\n"),
    )])
    .unwrap();
    assert!(!boundary_report.has_conflicts);
    assert_eq!(boundary_report.conflict_count, 0);
}

#[test]
fn test_foresee_clean_simulation() {
    // Two fresh dimensions: no file differs anywhere.
    let report = predict_files(&vec![]).unwrap();
    assert!(!report.has_conflicts);
    assert!(report.conflict_hunks.is_empty());
}

#[test]
fn conflicting_paths_are_listed_once_as_paths() {
    // `a/b` and `a//b` name the same path.
    let files = vec![
        sides("a/b", None, Some("x\n"), Some("y\n")),
        sides("a//b", None, Some("x\n"), Some("z\n")),
    ];
    let out = predict_files(&files).unwrap();
    assert_eq!(out.conflicting_files, vec!["a/b".to_string()]);
    assert_eq!(out.conflict_count, 2);
}

#[test]
fn a_prediction_is_the_same_whichever_side_is_ours() {
    let swap = |s: &FileSides| FileSides {
        path: s.path.clone(),
        base: s.base.clone(),
        ours: s.theirs.clone(),
        theirs: s.ours.clone(),
        ours_text: s.theirs_text.clone(),
        theirs_text: s.ours_text.clone(),
        binary: s.binary,
        ours_ops: s.theirs_ops.clone(),
        theirs_ops: s.ours_ops.clone(),
    };
    let mut both = sides("z.txt", Some("a\nb\nc\n"), Some("a\nB1\nc\n"), Some("a\nB2\nc\n"));
    both.ours_ops = replace_second("B1\n");
    both.theirs_ops = replace_second("B2\n");
    let files = vec![
        both,
        sides("gone.txt", Some("k"), None, Some("k2")),
        sides("clean.txt", Some("1"), Some("2"), Some("1")),
    ];
    let swapped: Vec<FileSides> = files.iter().map(swap).collect();
    let a = predict_files(&files).unwrap();
    let b = predict_files(&swapped).unwrap();
    assert_eq!(a.clean_file_count, b.clean_file_count);
    assert_eq!(a.conflicting_files, b.conflicting_files);
    assert_eq!(a.conflict_count, b.conflict_count);
    let lines = |o: &daft::foresee::ForeseeOutcome| -> usize {
        o.conflict_hunks.iter().map(|h| h.ours_lines.len() + h.theirs_lines.len()).sum()
    };
    assert_eq!(lines(&a), lines(&b));
    assert_eq!(b.conflict_hunks[1].conflict_type, ConflictType::ModifyDeleteConflict);
}

#[test]
fn conflicting_paths_come_in_path_order() {
    // As paths `a/b` comes before `a.b` (its first component `a` is shorter),
    // though as text `.` sorts before `/`.
    let files = vec![
        sides("a.b", None, Some("x\n"), Some("y\n")),
        sides("z", Some("1"), Some("1"), Some("1")),
        sides("a/b", None, Some("x\n"), Some("z\n")),
    ];
    let out = predict_files(&files).unwrap();
    assert_eq!(out.conflicting_files, vec!["a/b".to_string(), "a.b".to_string()]);
    assert_eq!(out.clean_file_count + out.conflicting_files.len(), files.len());
}
