use wsg::garbage::{
    clean_garbage_from_vec, compute_deletable_size_from_garbage_results, contains_index,
    delete_deletable_from_garbage_recognizer_result, filter_garbage_from_ids, first_unknown_index, is_known, removal_for, result_of_deletion,
    DeleteOperationResult, DeleteOperationSelection, DeletionOutcome, FileType, GarbageIndex, GarbageRecognizer,
    GarbageRecognizerResult, GarbageScan, PathKind, Removal,
};
use wsg::recognizer::available_recognizer;
use wsg::utils::format_bytes;

fn result(index: u32, name: &str, directory: &str, size: u64, deletable: &[&str]) -> GarbageRecognizerResult {
    GarbageRecognizerResult {
        index: GarbageIndex::Id(index),
        recognizer_name: name.to_string(),
        directory: directory.to_string(),
        size,
        deletable: deletable.iter().map(|p| p.to_string()).collect(),
    }
}

#[test]
fn recognizer_new_defaults_to_no_markers() {
    let r = GarbageRecognizer::new("X".to_string(), None, Some(vec![FileType::Directory("out".to_string())]));
    assert_eq!(r.name, "X");
    assert!(r.recognize.is_empty());
    assert_eq!(r.delete.len(), 1);
    assert_eq!(r.delete[0].path(), "out");
}

#[test]
fn recognizers_compare_structurally() {
    let all = available_recognizer();
    let again = available_recognizer();
    assert!(all[0].same_as(&again[0]));
    assert!(!all[0].same_as(&all[1]));
    let renamed = GarbageRecognizer::new(
        "Flutter".to_string(),
        Some(vec![FileType::File("pubspec.yaml".to_string())]),
        Some(vec![FileType::File("build".to_string())]),
    );
    assert!(!all[0].same_as(&renamed));
}

#[test]
fn scan_finds_two_disjoint_matches() {
    let recognizers = available_recognizer();
    let flutter = &recognizers[0];
    let node = &recognizers[1];
    let mut scan = GarbageScan::new();

    assert!(!scan.is_pruned("/root/proj"));
    let build = scan.select_deletable("/root/proj", flutter, &vec![true], &vec![true]).unwrap();
    assert_eq!(build, "/root/proj/build");
    assert!(!scan.overlaps_claimed(&build));
    scan.record_match(&flutter.name, "/root/proj", build, 10_000_000);

    let modules = scan.select_deletable("/root/proj", node, &vec![true], &vec![true]).unwrap();
    assert_eq!(modules, "/root/proj/node_modules");
    scan.record_match(&node.name, "/root/proj", modules, 5_000_000);

    assert!(scan.is_pruned("/root/proj/build"));
    assert!(scan.is_pruned("/root/proj/build/intermediates"));
    assert!(!scan.is_pruned("/root/proj/lib"));

    let results = scan.into_results();
    assert_eq!(results.len(), 2);
    assert_eq!(results[0].index, GarbageIndex::Id(0));
    assert_eq!(results[1].index, GarbageIndex::Id(1));
    assert_eq!(results[0].recognizer_name, "Flutter");
    assert_eq!(results[1].recognizer_name, "NodeJS");
    assert_eq!(format_bytes(results[0].size), "10.00 MB");
    assert_eq!(format_bytes(results[1].size), "5.00 MB");
    assert_eq!(compute_deletable_size_from_garbage_results(&results), 15_000_000);
}

#[test]
fn scan_needs_presence_and_deletable() {
    let recognizers = available_recognizer();
    let scan = GarbageScan::new();
    assert!(scan.select_deletable("/p", &recognizers[2], &vec![false], &vec![true]).is_none());
    assert!(scan.select_deletable("/p", &recognizers[2], &vec![true], &vec![false]).is_none());
    assert!(scan.select_deletable("/p", &recognizers[2], &vec![], &vec![true]).is_none());
}

#[test]
fn first_existing_deletable_marker_wins() {
    let r = GarbageRecognizer::new(
        "Multi".to_string(),
        Some(vec![FileType::File("a".to_string()), FileType::File("b".to_string())]),
        Some(vec![
            FileType::Directory("one".to_string()),
            FileType::Directory("two".to_string()),
            FileType::Directory("three".to_string()),
        ]),
    );
    let scan = GarbageScan::new();
    let p = scan.select_deletable("/p", &r, &vec![false, true], &vec![false, true, true]);
    assert_eq!(p.unwrap(), "/p/two");
}

#[test]
fn claimed_subtree_is_not_claimed_twice() {
    let recognizers = available_recognizer();
    let flutter = &recognizers[0];
    let twin = GarbageRecognizer::new(
        "Twin".to_string(),
        Some(vec![FileType::File("pubspec.yaml".to_string())]),
        Some(vec![FileType::Directory("build".to_string())]),
    );
    let mut scan = GarbageScan::new();
    let build = scan.select_deletable("/p", flutter, &vec![true], &vec![true]).unwrap();
    scan.record_match(&flutter.name, "/p", build, 1);
    assert!(scan.select_deletable("/p", &twin, &vec![true], &vec![true]).is_none());
    assert!(scan.overlaps_claimed("/p"));
    assert!(scan.overlaps_claimed("/p/build/x"));
    assert!(!scan.overlaps_claimed("/p/buildx"));
}

#[test]
fn removal_depends_on_kind() {
    assert_eq!(removal_for(PathKind::Directory), Some(Removal::Recursive));
    assert_eq!(removal_for(PathKind::File), Some(Removal::SingleFile));
    assert_eq!(removal_for(PathKind::Other), None);
}

#[test]
fn deletion_results_record_outcome() {
    let ok = result_of_deletion("/a".to_string(), DeletionOutcome::Removed);
    assert!(ok.success && ok.error_message.is_none() && ok.path == "/a");
    let failed = result_of_deletion("/b".to_string(), DeletionOutcome::Failed("denied".to_string()));
    assert!(!failed.success);
    assert_eq!(failed.error_message.as_deref(), Some("denied"));
    let other = result_of_deletion("/c".to_string(), DeletionOutcome::NotRemovable);
    assert!(!other.success && other.error_message.is_none());
    let s = DeleteOperationResult::success("/d".to_string());
    assert!(s.success);
    let f = DeleteOperationResult::failure("/e".to_string(), None);
    assert!(!f.success);
    let sel = DeleteOperationSelection::new("Rust".to_string(), vec![s, f]);
    assert_eq!(sel.name, "Rust");
    assert_eq!(sel.result.len(), 2);
}

#[test]
fn one_missing_path_fails_alone() {
    let garbage = vec![
        result(0, "Rust", "/w/a", 1, &["/w/a/target"]),
        result(1, "Rust", "/w/b", 2, &["/w/b/target"]),
        result(2, "NodeJS", "/w/c", 3, &["/w/c/node_modules"]),
    ];
    let outcomes = vec![
        vec![DeletionOutcome::Removed],
        vec![DeletionOutcome::Failed("No such file or directory".to_string())],
        vec![DeletionOutcome::Removed],
    ];
    let report = clean_garbage_from_vec(garbage, outcomes);
    assert_eq!(report.len(), 3);
    let flags: Vec<bool> = report.iter().map(|s| s.result[0].success).collect();
    assert_eq!(flags, vec![true, false, true]);
    assert_eq!(report[1].result[0].path, "/w/b/target");
    assert_eq!(report[1].result[0].error_message.as_deref(), Some("No such file or directory"));
    assert_eq!(report[2].name, "NodeJS");
}

#[test]
fn selection_report_covers_every_path() {
    let g = result(0, "Multi", "/m", 0, &["/m/one", "/m/two"]);
    let sel = delete_deletable_from_garbage_recognizer_result(
        &g,
        vec![DeletionOutcome::NotRemovable, DeletionOutcome::Removed],
    );
    assert_eq!(sel.name, "Multi");
    assert_eq!(sel.result[0].path, "/m/one");
    assert!(!sel.result[0].success);
    assert_eq!(sel.result[1].path, "/m/two");
    assert!(sel.result[1].success);
}

#[test]
fn filter_by_all_keeps_everything() {
    let garbage = vec![result(0, "A", "/a", 1, &["/a/x"]), result(1, "B", "/b", 2, &["/b/x"])];
    let kept = filter_garbage_from_ids(garbage, &vec![GarbageIndex::Id(1), GarbageIndex::All]);
    assert_eq!(kept.len(), 2);
    assert_eq!(kept[0].recognizer_name, "A");
    assert_eq!(kept[1].recognizer_name, "B");
}

#[test]
fn filter_by_id_keeps_matching_index() {
    let garbage = vec![
        result(0, "A", "/a", 1, &["/a/x"]),
        result(1, "B", "/b", 2, &["/b/x"]),
        result(2, "C", "/c", 3, &["/c/x"]),
    ];
    let kept = filter_garbage_from_ids(garbage, &vec![GarbageIndex::Id(2), GarbageIndex::Id(0), GarbageIndex::Id(9)]);
    let names: Vec<&str> = kept.iter().map(|g| g.recognizer_name.as_str()).collect();
    assert_eq!(names, vec!["A", "C"]);
    let none = filter_garbage_from_ids(vec![result(0, "A", "/a", 1, &[])], &vec![]);
    assert!(none.is_empty());
}

#[test]
fn index_lookup() {
    let ids = vec![GarbageIndex::Id(3)];
    assert!(contains_index(&ids, GarbageIndex::Id(3)));
    assert!(!contains_index(&ids, GarbageIndex::Id(4)));
    assert!(!contains_index(&ids, GarbageIndex::All));
}

#[test]
fn total_size_of_matches() {
    let garbage = vec![result(0, "A", "/a", 7, &[]), result(1, "B", "/b", 8, &[])];
    assert_eq!(compute_deletable_size_from_garbage_results(&garbage), 15);
    assert_eq!(compute_deletable_size_from_garbage_results(&vec![]), 0);
}

#[test]
fn index_arguments_parse() {
    assert_eq!(GarbageIndex::parse("all"), Some(GarbageIndex::All));
    assert_eq!(GarbageIndex::parse("0"), Some(GarbageIndex::Id(0)));
    assert_eq!(GarbageIndex::parse("17"), Some(GarbageIndex::Id(17)));
    assert_eq!(GarbageIndex::parse("+5"), Some(GarbageIndex::Id(5)));
    assert_eq!(GarbageIndex::parse("4294967295"), Some(GarbageIndex::Id(u32::MAX)));
    assert_eq!(GarbageIndex::parse("4294967296"), None);
    assert_eq!(GarbageIndex::parse(""), None);
    assert_eq!(GarbageIndex::parse("+"), None);
    assert_eq!(GarbageIndex::parse("-1"), None);
    assert_eq!(GarbageIndex::parse("1a"), None);
    assert_eq!(GarbageIndex::parse("All"), None);
}

#[test]
fn index_text_round_trips() {
    assert_eq!(GarbageIndex::Id(42).to_text(), "42");
    assert_eq!(GarbageIndex::All.to_text(), "all");
    assert_eq!(GarbageIndex::parse(&GarbageIndex::Id(907).to_text()), Some(GarbageIndex::Id(907)));
}

#[test]
fn unknown_index_is_found() {
    let garbage = vec![result(0, "A", "/a", 1, &["/a/x"]), result(1, "B", "/b", 2, &["/b/x"])];
    assert_eq!(first_unknown_index(&garbage, &vec![GarbageIndex::Id(1), GarbageIndex::All]), None);
    assert_eq!(
        first_unknown_index(&garbage, &vec![GarbageIndex::Id(0), GarbageIndex::Id(5), GarbageIndex::Id(7)]),
        Some(GarbageIndex::Id(5))
    );
    assert_eq!(first_unknown_index(&vec![], &vec![GarbageIndex::All]), None);
    assert!(is_known(&garbage, GarbageIndex::Id(1)));
    assert!(!is_known(&garbage, GarbageIndex::Id(2)));
}

#[test]
fn scan_with_nested_presence_marker() {
    let flutter = &available_recognizer()[0];
    let node = GarbageRecognizer::new(
        "NodeJS".to_string(),
        Some(vec![FileType::File("node_modules-marker/package.json".to_string())]),
        Some(vec![FileType::Directory("node_modules".to_string())]),
    );
    let mut scan = GarbageScan::new();
    for dir in ["/root", "/root/proj"] {
        assert!(!scan.is_pruned(dir));
        let at_proj = dir == "/root/proj";
        for r in [flutter, &node] {
            if let Some(p) = scan.select_deletable(dir, r, &vec![at_proj], &vec![at_proj]) {
                let size = if p.ends_with("build") { 10_000_000 } else { 5_000_000 };
                scan.record_match(&r.name, dir, p, size);
            }
        }
    }
    assert!(scan.is_pruned("/root/proj/build"));
    assert!(scan.is_pruned("/root/proj/node_modules"));
    assert!(!scan.is_pruned("/root/proj/node_modules-marker"));
    let v = scan.into_results();
    assert_eq!(v.len(), 2);
    assert_eq!(v[0].deletable, vec!["/root/proj/build".to_string()]);
    assert_eq!(v[0].size, 10_000_000);
    assert_eq!(v[1].deletable, vec!["/root/proj/node_modules".to_string()]);
    assert_eq!(v[1].size, 5_000_000);
    assert_eq!(format_bytes(v[0].size), "10.00 MB");
    assert_eq!(format_bytes(v[1].size), "5.00 MB");
}
