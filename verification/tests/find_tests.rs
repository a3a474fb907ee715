use dirspace::file_types::{Byteable, DirectoryEntry};

#[test]
fn test_find_self() {
    let entry = DirectoryEntry::new_folder(Byteable(0), String::from("this"), false, vec![], true);
    assert_eq!(&entry, entry.find("this").expect("to find self"));
}

#[test]
fn test_find_self_with_more_than_one_same_name() {
    let mut entries = vec![];
    entries.push(DirectoryEntry::new_folder(Byteable(0), String::from("this"), false, vec![], false));
    let entry = DirectoryEntry::new_folder(Byteable(0), String::from("this"), false, entries, true);
    assert_eq!(&entry, entry.find("this").expect("to find self"));
}

#[test]
fn test_find_other_with_more_than_one_same_name() {
    let mut entries = vec![];
    entries.push(DirectoryEntry::new_folder(
        Byteable(10),
        String::from("this\\this"),
        false,
        vec![],
        false,
    ));
    let entry = DirectoryEntry::new_folder(Byteable(0), String::from("this"), false, entries, true);
    assert_eq!(
        10,
        entry.find("this\\this").expect("to find other").len().expect("a length").0
    );
}

#[test]
fn test_find_self_with_more_than_one_different_name() {
    let mut entries = vec![];
    entries.push(DirectoryEntry::new_folder(Byteable(0), String::from("that"), false, vec![], false));
    let entry = DirectoryEntry::new_folder(Byteable(0), String::from("this"), false, entries, true);
    assert_eq!(&entry, entry.find("this").expect("to find self"));
}

#[test]
fn test_find_other_with_more_than_one_different_name() {
    let mut entries = vec![];
    let that = DirectoryEntry::new_folder(Byteable(0), String::from("that"), false, vec![], false);
    entries.push(that);
    let entry = DirectoryEntry::new_folder(Byteable(0), String::from("this"), false, entries, true);
    assert_eq!("that\\", entry.find("that").expect("to find other").name());
}

#[test]
fn find_falls_back_to_the_root_when_nothing_matches() {
    let mut entries = vec![];
    entries.push(DirectoryEntry::new_folder(Byteable(1), String::from("this\\a"), false, vec![], false));
    let entry = DirectoryEntry::new_folder(Byteable(1), String::from("this"), false, entries, true);
    assert_eq!(&entry, entry.find("elsewhere").expect("a fallback node"));
}

#[test]
fn find_falls_back_to_the_deepest_ancestor() {
    let leaf = DirectoryEntry::new_folder(Byteable(2), String::from("r\\a"), false, vec![], false);
    let root = DirectoryEntry::new_folder(Byteable(2), String::from("r"), false, vec![leaf], true);
    let found = root.find("r\\a\\b\\c").expect("a fallback node");
    assert_eq!("a\\", found.name());
    assert_eq!(2, found.len().expect("a length").0);
}

#[test]
fn find_descends_through_nested_folders() {
    let file = DirectoryEntry::new_file(Byteable(7), String::from("r\\a\\f"), false);
    let mid = DirectoryEntry::new_folder(Byteable(7), String::from("r\\a"), false, vec![file], false);
    let root = DirectoryEntry::new_folder(Byteable(7), String::from("r"), false, vec![mid], true);
    let found = root.find("r\\a\\f").expect("to find the file");
    assert_eq!(7, found.len().expect("a length").0);
    assert!(matches!(found, DirectoryEntry::File { .. }));
}

#[test]
fn prefix_matching_respects_component_boundaries() {
    // "r\ab" is not below "r\a": the prefix has to end on a separator.
    let inner = DirectoryEntry::new_folder(Byteable(1), String::from("r\\a"), false, vec![], false);
    let other = DirectoryEntry::new_folder(Byteable(2), String::from("r\\ab"), false, vec![], false);
    let root = DirectoryEntry::new_folder(Byteable(3), String::from("r"), false, vec![inner, other], true);
    let found = root.find("r\\ab").expect("to find the sibling");
    assert_eq!(2, found.len().expect("a length").0);
}
