use fsreport::parse::{EntityKind, FileInfo, FileStat};
use fsreport::tracking::{Tracking, WEEK_MS};

fn entity(kind: EntityKind, path: &str, size: u64, mod_time: u64, user: Option<&str>) -> FileInfo {
    FileInfo {
        path: path.to_string(),
        stat: FileStat { kind, size, mod_time },
        user: user.map(|u| u.to_string()),
    }
}

fn dir(path: &str, size: u64, mod_time: u64) -> FileInfo {
    entity(EntityKind::Directory, path, size, mod_time, None)
}

fn file(path: &str, size: u64, mod_time: u64, user: &str) -> FileInfo {
    entity(EntityKind::File, path, size, mod_time, Some(user))
}

fn scenario_a() -> Tracking {
    let mut t = Tracking::new();
    t.process_entry(dir("/a", 0, 1000), 10);
    t.process_entry(dir("/a/b", 0, 1000), 10);
    t.process_entry(file("/a/b/f1", 100, 2000, "alice"), 10);
    t.process_entry(file("/a/b/f2", 200, 3000, "bob"), 10);
    t
}

#[test]
fn total_entries_counts_each_processed_record() {
    let t = scenario_a();
    assert_eq!(t.num_entries(), 4);
    assert_eq!(t.total_file_space(), 300);
}

#[test]
fn scenario_nested_directories_and_two_files() {
    let t = scenario_a();
    let ab = t.dir_stat(&"/a/b".to_string()).unwrap();
    assert_eq!(ab.direct.entry_cnt, 3);
    assert_eq!(ab.direct.size, 300);
    assert_eq!(ab.direct.oldest, 1000);
    assert_eq!(ab.direct.newest, 3000);
    let a = t.dir_stat(&"/a".to_string()).unwrap();
    assert_eq!(a.recurse.size, 300);
    assert_eq!(t.user_total(&"alice".to_string()), Some((100, 1)));
    assert_eq!(t.user_total(&"bob".to_string()), Some((200, 1)));
}

#[test]
fn direct_counters_never_exceed_recursive_ones() {
    let t = scenario_a();
    for path in ["/", "/a", "/a/b"] {
        let d = t.dir_stat(&path.to_string()).unwrap();
        assert!(d.direct.entry_cnt <= d.recurse.entry_cnt);
        assert!(d.direct.size <= d.recurse.size);
    }
}

#[test]
fn oldest_never_exceeds_newest() {
    let t = scenario_a();
    for path in ["/", "/a", "/a/b"] {
        let d = t.dir_stat(&path.to_string()).unwrap();
        assert!(d.direct.oldest <= d.direct.newest);
        assert!(d.recurse.oldest <= d.recurse.newest);
    }
}

#[test]
fn missing_parent_becomes_placeholder_once() {
    // Scenario: a file whose parent never appears. The parent is created as
    // an all-zero placeholder and counted missing exactly once.
    let mut t = Tracking::new();
    t.process_entry(file("/f", 10, 500, "u"), 4);
    assert_eq!(t.parent_not_found(), 1);
    let root = t.dir_stat(&"/".to_string()).unwrap();
    // the file is merged into the placeholder as a direct entry
    assert_eq!(root.direct.entry_cnt, 1);
    assert_eq!(root.direct.size, 10);
    assert_eq!(t.parent_filled_in_later(), 0);
}

#[test]
fn deeper_missing_ancestors_are_each_counted() {
    let mut t = Tracking::new();
    t.process_entry(file("/a/f", 10, 500, "u"), 4);
    // both /a and / were missing
    assert_eq!(t.parent_not_found(), 2);
    // the non-nearest ancestor keeps zero direct counters
    let root = t.dir_stat(&"/".to_string()).unwrap();
    assert_eq!(root.direct.entry_cnt, 0);
    assert_eq!(root.recurse.entry_cnt, 1);
    assert_eq!(root.recurse.size, 10);
}

#[test]
fn late_directory_record_fills_placeholder_in() {
    let mut t = Tracking::new();
    t.process_entry(file("/a/f", 10, 500, "u"), 4);
    assert_eq!(t.dir_stat(&"/a".to_string()).unwrap().direct.entry_cnt, 1);
    t.process_entry(dir("/a", 0, 400), 4);
    assert_eq!(t.parent_filled_in_later(), 1);
    let a = t.dir_stat(&"/a".to_string()).unwrap();
    assert_eq!(a.direct.entry_cnt, 2);
    assert_eq!(a.recurse.size, 10);
}

#[test]
fn recursive_totals_are_order_independent() {
    let records = || {
        vec![
            dir("/a", 0, 1000),
            dir("/a/b", 0, 1000),
            file("/a/b/f1", 100, 2000, "alice"),
            file("/a/b/f2", 200, 3000, "bob"),
        ]
    };
    let mut forward = Tracking::new();
    for r in records() {
        forward.process_entry(r, 10);
    }
    let mut backward = Tracking::new();
    for r in records().into_iter().rev() {
        backward.process_entry(r, 10);
    }
    for path in ["/", "/a", "/a/b"] {
        let f = forward.dir_stat(&path.to_string()).unwrap();
        let b = backward.dir_stat(&path.to_string()).unwrap();
        assert_eq!(f.recurse.size, b.recurse.size);
        assert_eq!(f.recurse.entry_cnt, b.recurse.entry_cnt);
        assert_eq!(f.direct.size, b.direct.size);
        assert_eq!(f.direct.entry_cnt, b.direct.entry_cnt);
    }
    // the sums themselves
    assert_eq!(forward.dir_stat(&"/a".to_string()).unwrap().recurse.size, 300);
    assert_eq!(forward.dir_stat(&"/".to_string()).unwrap().recurse.size, 300);
}

#[test]
fn top_one_selection_keeps_only_the_largest() {
    // Scenario: capacity one, files of size 10, 50 and 30, offered in every
    // order: only the size-50 file stays.
    let sizes = [10u64, 50, 30];
    let orders: &[[usize; 3]] = &[[0, 1, 2], [0, 2, 1], [1, 0, 2], [1, 2, 0], [2, 0, 1], [2, 1, 0]];
    for order in orders {
        let mut t = Tracking::new();
        for &k in order {
            let name = format!("/f{}", k);
            t.process_entry(file(&name, sizes[k], 1000, "u"), 1);
            assert!(t.top_files_len() <= 1);
        }
        let report = t.walk_and_heap(1);
        assert_eq!(report.largest_file.len(), 1);
        assert_eq!(report.largest_file[0].size, 50);
        assert_eq!(report.largest_file[0].track, "/f1");
    }
}

#[test]
fn selection_holds_min_of_capacity_and_candidates() {
    let mut t = Tracking::new();
    t.process_entry(file("/x1", 1, 0, "u"), 5);
    t.process_entry(file("/x2", 2, 0, "u"), 5);
    assert_eq!(t.top_files_len(), 2);
    t.process_entry(file("/x3", 3, 0, "u"), 5);
    t.process_entry(file("/x4", 4, 0, "u"), 5);
    t.process_entry(file("/x5", 5, 0, "u"), 5);
    t.process_entry(file("/x6", 6, 0, "u"), 5);
    assert_eq!(t.top_files_len(), 5);
    let report = t.walk_and_heap(5);
    assert_eq!(report.largest_file.len(), 5);
    let sizes: Vec<u64> = report.largest_file.iter().map(|e| e.size).collect();
    assert_eq!(sizes, vec![6, 5, 4, 3, 2]);
}

#[test]
fn report_ranks_directories_users_and_buckets() {
    let mut t = scenario_a();
    // an old file in another week bucket
    t.process_entry(file("/a/old", 50, 3 * WEEK_MS + 7, "alice"), 10);
    let report = t.walk_and_heap(10);
    assert_eq!(report.num_entries, 5);
    assert_eq!(report.total_file_space, 350);
    assert_eq!(report.parent_not_found, 1);

    // direct sizes: /a/b holds 300, /a holds 50, / holds 0
    assert_eq!(report.top_size.len(), 3);
    assert_eq!(report.top_size[0].track, "/a/b");
    assert_eq!(report.top_size[0].size, 300);
    assert_eq!(report.top_size[1].track, "/a");
    assert_eq!(report.top_size[1].size, 50);

    // recursive sizes all include everything beneath
    assert_eq!(report.top_size_recur[0].size, 350);

    // users: bob wrote 200, alice 150 over two entries
    assert_eq!(report.user_by_size[0], ("bob".to_string(), 200));
    assert_eq!(report.user_by_size[1], ("alice".to_string(), 150));
    assert_eq!(report.user_by_count[0], ("alice".to_string(), 2));

    // buckets: newest first
    assert_eq!(report.time_by_start.len(), 2);
    assert_eq!(report.time_by_start[0], (3 * WEEK_MS, 50));
    assert_eq!(report.time_by_start[1], (0, 300));
}

#[test]
fn capacity_zero_retains_nothing() {
    let mut t = Tracking::new();
    t.process_entry(file("/x", 9, 0, "u"), 0);
    assert_eq!(t.top_files_len(), 0);
    let report = t.walk_and_heap(0);
    assert!(report.largest_file.is_empty());
    assert!(report.top_size.is_empty());
}

#[test]
fn symlinks_count_like_files() {
    let mut t = Tracking::new();
    t.process_entry(dir("/a", 0, 100), 3);
    t.process_entry(entity(EntityKind::Symlink, "/a/s", 7, 200, Some("u")), 3);
    let a = t.dir_stat(&"/a".to_string()).unwrap();
    assert_eq!(a.direct.entry_cnt, 2);
    assert_eq!(a.direct.size, 7);
    assert_eq!(t.time_total(0), Some(7));
}

#[test]
fn only_successfully_parsed_records_are_counted() {
    let lines: Vec<Vec<String>> = vec![
        vec!["F", "/a/f1", "10", "100", "u"],
        vec!["X", "/a", "abc", "1000"],
        vec!["D", "/a", "0", "50"],
        vec!["F", "/a/f2", "oops", "100", "u"],
    ]
    .into_iter()
    .map(|r| r.into_iter().map(str::to_string).collect())
    .collect();
    let mut t = Tracking::new();
    let mut parsed = 0u64;
    for line in &lines {
        if let Ok(fi) = FileInfo::new(line) {
            parsed += 1;
            t.process_entry(fi, 5);
        }
    }
    assert_eq!(parsed, 2);
    assert_eq!(t.num_entries(), parsed);
    assert_eq!(t.total_file_space(), 10);
}

#[test]
fn empty_run_reports_nothing() {
    let t = Tracking::new();
    let report = t.walk_and_heap(10);
    assert_eq!(report.num_entries, 0);
    assert_eq!(report.total_file_space, 0);
    assert!(report.top_size.is_empty());
    assert!(report.largest_file.is_empty());
    assert!(report.user_by_size.is_empty());
    assert!(report.time_by_start.is_empty());
    assert!(t.dir_entries().is_empty());
}

#[test]
fn dir_entries_lists_every_node_once() {
    let t = scenario_a();
    let entries = t.dir_entries();
    assert_eq!(entries.len(), 3);
    let mut paths: Vec<&str> = entries.iter().map(|(p, _)| p.as_str()).collect();
    paths.sort();
    assert_eq!(paths, vec!["/", "/a", "/a/b"]);
    for (p, d) in &entries {
        assert_eq!(t.dir_stat(p).unwrap(), *d);
    }
}

#[test]
fn duplicate_directory_records_accumulate() {
    let mut t = Tracking::new();
    t.process_entry(dir("/a", 0, 100), 3);
    t.process_entry(dir("/a", 0, 300), 3);
    assert_eq!(t.parent_filled_in_later(), 1);
    let a = t.dir_stat(&"/a".to_string()).unwrap();
    assert_eq!(a.direct.entry_cnt, 2);
    assert_eq!(a.direct.oldest, 100);
    assert_eq!(a.direct.newest, 300);
}
