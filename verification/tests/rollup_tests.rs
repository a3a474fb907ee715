use dirspace::file_objects::Byteable as FlatByteable;
use dirspace::file_objects::DirectoryEntry as FlatEntry;
use dirspace::file_objects::DirectoryTree;
use dirspace::file_types::{Byteable, DirectoryEntry};

#[test]
fn test_rollup() {
    let mut entries = vec![];
    entries.push(DirectoryEntry::new_file(Byteable(0), String::new(), false));
    entries.push(DirectoryEntry::new_file(Byteable(1), String::new(), false));
    entries.push(DirectoryEntry::new_file(Byteable(2), String::new(), false));
    entries.push(DirectoryEntry::new_file(Byteable(3), String::new(), false));
    entries.push(DirectoryEntry::new_file(Byteable(4), String::new(), false));
    entries.push(DirectoryEntry::new_folder(Byteable(5), String::new(), false, vec![], false));
    let entry = DirectoryEntry::new_folder(Byteable(0), String::new(), false, entries, true);
    let result = entry.entries().expect("no entries");
    assert_eq!(2, result.len());
}

#[test]
fn test_rollup_nothing_to_roll() {
    let mut entries = vec![];
    entries.push(DirectoryEntry::new_file(Byteable(6), String::new(), false));
    entries.push(DirectoryEntry::new_file(Byteable(7), String::new(), false));
    entries.push(DirectoryEntry::new_file(Byteable(8), String::new(), false));
    entries.push(DirectoryEntry::new_file(Byteable(9), String::new(), false));
    entries.push(DirectoryEntry::new_file(Byteable(10), String::new(), false));
    entries.push(DirectoryEntry::new_folder(Byteable(5), String::new(), false, vec![], false));
    let entry = DirectoryEntry::new_folder(Byteable(0), String::new(), false, entries, true);
    let result = entry.entries().expect("no entries");
    assert_eq!(6, result.len());
}

#[test]
fn test_rollup_with_both() {
    let mut entries = vec![];
    entries.push(DirectoryEntry::new_file(Byteable(1), String::new(), false));
    entries.push(DirectoryEntry::new_file(Byteable(1), String::new(), false));
    entries.push(DirectoryEntry::new_file(Byteable(2), String::new(), false));
    entries.push(DirectoryEntry::new_file(Byteable(3), String::new(), false));
    entries.push(DirectoryEntry::new_file(Byteable(4), String::new(), false));

    entries.push(DirectoryEntry::new_folder(Byteable(5), String::new(), false, vec![], false));

    entries.push(DirectoryEntry::new_file(Byteable(6), String::new(), false));
    entries.push(DirectoryEntry::new_file(Byteable(7), String::new(), false));
    entries.push(DirectoryEntry::new_file(Byteable(8), String::new(), false));
    entries.push(DirectoryEntry::new_file(Byteable(9), String::new(), false));
    entries.push(DirectoryEntry::new_file(Byteable(10), String::new(), false));
    let entry = DirectoryEntry::new_folder(Byteable(0), String::new(), false, entries, true);
    let result = entry.entries().expect("no entries");
    assert_eq!(7, result.len());
    match result.first().expect("first entry exists") {
        DirectoryEntry::File { .. } => panic!("file found when expecting rollup"),
        DirectoryEntry::Folder { .. } => panic!("folder found when expecting rollup"),
        DirectoryEntry::Link { .. } => panic!("link found when expecting rollup"),
        DirectoryEntry::Excluded { .. } => panic!("excluded found when expecting rollup"),
        DirectoryEntry::Rollup { len, entries, .. } => {
            assert_eq!(11, len.0);
            assert_eq!(5, entries.len());
        }
    }
}

#[test]
fn rollup_respects_first_directory_in_ascending_order() {
    // Files larger than the directory are kept even though later files in
    // the listing are small; only the run strictly below the directory's
    // position in ascending size order is absorbed.
    let mut entries = vec![];
    for size in [6, 7, 8, 9, 10] {
        entries.push(DirectoryEntry::new_file(Byteable(size), String::new(), false));
    }
    entries.push(DirectoryEntry::new_folder(Byteable(5), String::new(), false, vec![], false));
    for size in [1, 1, 2, 3, 4] {
        entries.push(DirectoryEntry::new_file(Byteable(size), String::new(), false));
    }
    let entry = DirectoryEntry::new_folder(Byteable(0), String::new(), false, entries, true);
    let result = entry.entries().expect("no entries");
    assert_eq!(7, result.len());
    match &result[0] {
        DirectoryEntry::Rollup { len, entries, .. } => {
            assert_eq!(11, len.0);
            assert_eq!(5, entries.len());
            for absorbed in entries {
                assert!(absorbed.len().expect("absorbed entries have sizes").0 < 5);
            }
        }
        other => panic!("expected the rollup first, found {:?}", other),
    }
    let sizes: Vec<u64> = result.iter().map(|e| e.len().map(|b| b.0).unwrap_or(0)).collect();
    assert_eq!(sizes, vec![11, 10, 9, 8, 7, 6, 5]);
}

#[test]
fn rollup_never_absorbs_a_symlink() {
    let mut entries = vec![];
    entries.push(DirectoryEntry::new_link(String::from("link"), false, false));
    entries.push(DirectoryEntry::new_file(Byteable(1), String::from("a"), false));
    entries.push(DirectoryEntry::new_file(Byteable(2), String::from("b"), false));
    let entry = DirectoryEntry::new_folder(Byteable(3), String::new(), false, entries, true);
    let result = entry.entries().expect("no entries");
    assert_eq!(2, result.len());
    match &result[0] {
        DirectoryEntry::Rollup { len, entries, .. } => {
            assert_eq!(3, len.0);
            assert_eq!(2, entries.len());
            assert!(entries.iter().all(|e| matches!(e, DirectoryEntry::File { .. })));
        }
        other => panic!("expected the rollup first, found {:?}", other),
    }
    assert!(matches!(result[1], DirectoryEntry::Link { .. }));
}

#[test]
fn folder_without_files_gets_no_rollup() {
    let mut entries = vec![];
    entries.push(DirectoryEntry::new_folder(Byteable(4), String::new(), false, vec![], false));
    entries.push(DirectoryEntry::new_folder(Byteable(2), String::new(), false, vec![], false));
    let entry = DirectoryEntry::new_folder(Byteable(6), String::new(), false, entries, true);
    let result = entry.entries().expect("no entries");
    assert_eq!(2, result.len());
    assert!(result.iter().all(|e| matches!(e, DirectoryEntry::Folder { .. })));
    let sizes: Vec<u64> = result.iter().map(|e| e.len().map(|b| b.0).unwrap_or(0)).collect();
    assert_eq!(sizes, vec![4, 2]);
}

#[test]
fn children_are_sorted_descending_after_rollup() {
    let mut entries = vec![];
    entries.push(DirectoryEntry::new_folder(Byteable(3), String::new(), false, vec![], false));
    entries.push(DirectoryEntry::new_folder(Byteable(9), String::new(), false, vec![], false));
    entries.push(DirectoryEntry::new_file(Byteable(7), String::new(), false));
    entries.push(DirectoryEntry::new_file(Byteable(1), String::new(), false));
    let entry = DirectoryEntry::new_folder(Byteable(20), String::new(), false, entries, true);
    let result = entry.entries().expect("no entries");
    let sizes: Vec<u64> = result.iter().map(|e| e.len().map(|b| b.0).unwrap_or(0)).collect();
    let mut sorted = sizes.clone();
    sorted.sort_by(|a, b| b.cmp(a));
    assert_eq!(sizes, sorted);
}

#[test]
fn flat_tree_rollup_matches_the_same_rule() {
    let mut tree = DirectoryTree::new(String::from("root"));
    tree.add_file(String::from("a"), FlatByteable { val: 1 });
    tree.add_file(String::from("b"), FlatByteable { val: 2 });
    tree.add_directory(DirectoryTree {
        name: String::from("sub"),
        len: FlatByteable { val: 5 },
        entries: vec![],
    });
    tree.add_file(String::from("c"), FlatByteable { val: 9 });
    tree.rollup();
    assert_eq!(3, tree.entries.len());
    let sizes: Vec<u64> = tree.entries.iter().map(|e| e.len().val).collect();
    assert_eq!(sizes, vec![9, 5, 3]);
    match &tree.entries[2] {
        FlatEntry::Rollup { len, entries } => {
            assert_eq!(3, len.val);
            assert_eq!(2, entries.len());
            assert_eq!("<other files...>", tree.entries[2].name());
        }
        other => panic!("expected a rollup, found name {}", other.name()),
    }
}
