use daft::agent::status::FileEntry;
use daft::clock::UtcTime;
use daft::radar::{
    ActiveFile, DimensionScan, RadarEvent, RadarIndexEntry, RadarSubsystem, RadarWalkedFile,
    WatchEntry,
};

fn t(secs: i64) -> UtcTime {
    UtcTime { secs, nanos: 0 }
}

fn af(path: &str, secs: i64) -> ActiveFile {
    ActiveFile { path: path.to_string(), mtime: t(secs) }
}

fn scan(dim: &str, files: Vec<ActiveFile>) -> DimensionScan {
    DimensionScan { dimension: dim.to_string(), files }
}

#[test]
fn test_radar_subsystem_activity() {
    // A repository with the dimension `dim-a` and nothing changed in it.
    let dims = RadarSubsystem::discover_dimensions(&vec!["dim-a".to_string()]);
    let results = vec![scan("mainline", vec![]), scan("dim-a", vec![])];
    let report = RadarSubsystem::scan(3, dims, &results);
    assert!(report.scanned_dimensions.contains(&"dim-a".to_string()));
}

#[test]
fn dimensions_are_discovered_once_and_sorted() {
    let found = vec!["zeta".to_string(), "mainline".to_string(), "alpha".to_string(), "zeta".to_string()];
    assert_eq!(
        RadarSubsystem::discover_dimensions(&found),
        vec!["alpha".to_string(), "mainline".to_string(), "zeta".to_string()]
    );
    assert_eq!(RadarSubsystem::new(".dft").dimensions_dir(), ".dft/dimensions");
}

#[test]
fn scan_counts_dimensions_per_path_and_orders_hot_zones_first() {
    let results = vec![
        scan("dim-b", vec![af("src/a.rs", 10), af("README", 5)]),
        scan("dim-a", vec![af("src/a.rs", 30), af("src/b.rs", 7)]),
        scan("dim-c", vec![af("src/a.rs", 20), af("src/b.rs", 9)]),
        scan("dim-a", vec![af("src/a.rs", 1)]),
    ];
    let report = RadarSubsystem::scan(2, vec!["mainline".to_string()], &results);
    assert_eq!(report.total_active_files, 3);
    let paths: Vec<&str> = report.activities.iter().map(|a| a.path.as_str()).collect();
    assert_eq!(paths, vec!["src/a.rs", "src/b.rs", "README"]);
    let a = &report.activities[0];
    assert_eq!(a.dimensions, vec!["dim-a".to_string(), "dim-b".to_string(), "dim-c".to_string()]);
    assert_eq!(a.touch_count, 3);
    assert!(a.is_hot);
    assert_eq!(a.last_modified, t(30));
    assert_eq!(report.activities[1].touch_count, 2);
    assert_eq!(report.activities[1].last_modified, t(9));
    assert!(!report.activities[2].is_hot);
    let hot: Vec<&str> = report.hot_zones.iter().map(|a| a.path.as_str()).collect();
    assert_eq!(hot, vec!["src/a.rs", "src/b.rs"]);
    assert_eq!(report.scanned_dimensions, vec!["mainline".to_string()]);
}

#[test]
fn equal_counts_sort_by_path() {
    let results = vec![scan("d", vec![af("b/x", 1), af("a/y", 1), af("a.txt", 1)])];
    let report = RadarSubsystem::scan(5, vec![], &results);
    let paths: Vec<&str> = report.activities.iter().map(|a| a.path.as_str()).collect();
    // Paths compare component by component: `a` comes before `a.txt`.
    assert_eq!(paths, vec!["a/y", "a.txt", "b/x"]);
    assert!(report.hot_zones.is_empty());
}

#[test]
fn inspecting_a_path_finds_it_or_what_lies_under_it() {
    let results = vec![scan("d1", vec![af("src/api/auth.rs", 3)]), scan("d2", vec![af("docs/x.md", 4)])];
    let hit = RadarSubsystem::inspect_path("./src/api", vec![], &results).unwrap();
    assert_eq!(hit.path, "src/api/auth.rs");
    assert_eq!(hit.touch_count, 1);
    assert!(hit.is_hot);
    assert!(RadarSubsystem::inspect_path("src\\api\\auth.rs", vec![], &results).is_some());
    assert!(RadarSubsystem::inspect_path("src/ap", vec![], &results).is_none());
}

#[test]
fn one_dimension_scan_reports_dirty_index_and_changed_files() {
    let head = vec![
        FileEntry { path: "same.rs".to_string(), oid: "o1".to_string() },
        FileEntry { path: "changed.rs".to_string(), oid: "o2".to_string() },
    ];
    let index = vec![
        RadarIndexEntry { path: "same.rs".to_string(), oid: "o1".to_string(), file_size: 4, mtime_secs: 100, mtime_nanos: 0 },
        RadarIndexEntry { path: "changed.rs".to_string(), oid: "o9".to_string(), file_size: 4, mtime_secs: 200, mtime_nanos: 0 },
    ];
    let walked = vec![
        RadarWalkedFile { rel: "same.rs".to_string(), mtime: Some(t(300)), disk_len: Some(5), content_oid: None },
        RadarWalkedFile { rel: "new\\file.rs".to_string(), mtime: Some(t(400)), disk_len: Some(1), content_oid: None },
        RadarWalkedFile { rel: "changed.rs".to_string(), mtime: Some(t(500)), disk_len: Some(4), content_oid: Some("o9".to_string()) },
    ];
    let files = RadarSubsystem::scan_dimension(&head, &index, &walked, true);
    let got: Vec<(&str, i64)> = files.iter().map(|f| (f.path.as_str(), f.mtime.secs)).collect();
    assert_eq!(got, vec![("changed.rs", 200), ("same.rs", 300), ("new/file.rs", 400)]);
    let none = RadarSubsystem::scan_dimension(&head, &index, &walked, false);
    assert_eq!(none.len(), 1);
}

#[test]
fn watching_reports_hot_zones_entered_and_cleared() {
    let results = vec![scan("d1", vec![af("hot", 1)]), scan("d2", vec![af("hot", 2)])];
    let first = RadarSubsystem::scan(2, vec![], &results);
    let (events, state) = RadarSubsystem::watch_step(&vec![], &first, 2);
    assert_eq!(events.len(), 1);
    match &events[0] {
        RadarEvent::HotZoneEntered { path, dimensions, touch_count } => {
            assert_eq!(path, "hot");
            assert_eq!(dimensions.len(), 2);
            assert_eq!(*touch_count, 2);
        }
        _ => panic!("expected a hot zone entered"),
    }
    // Nothing new on the same report.
    let (again, state) = RadarSubsystem::watch_step(&state, &first, 2);
    assert!(again.is_empty());
    // One dimension left the path.
    let cooler = RadarSubsystem::scan(2, vec![], &vec![scan("d1", vec![af("hot", 3)])]);
    let (events, _) = RadarSubsystem::watch_step(&state, &cooler, 2);
    match &events[0] {
        RadarEvent::HotZoneCleared { path, remaining_dimensions } => {
            assert_eq!(path, "hot");
            assert_eq!(remaining_dimensions, &vec!["d1".to_string()]);
        }
        _ => panic!("expected a hot zone cleared"),
    }
    let prev = vec![WatchEntry { path: "gone".to_string(), dimensions: vec!["a".into(), "b".into()] }];
    let (events, _) = RadarSubsystem::watch_step(&prev, &cooler, 2);
    match &events[0] {
        RadarEvent::HotZoneCleared { remaining_dimensions, .. } => assert!(remaining_dimensions.is_empty()),
        _ => panic!("expected a hot zone cleared"),
    }
}
