use std::cell::RefCell;
use std::collections::VecDeque;

use dirspace::file_analysis::{
    classify, read_fs, DirPathEntry, FSProxyError, FileSystemProxy, FileType, HiddenPolicy,
    Metadata,
};
use dirspace::file_types::Byteable;
use dirspace::file_types::DirectoryEntry;

/// A scripted filesystem double: hands out prepared listings in call order
/// and a fixed metadata answer, and records every listing request.
struct ScriptedFs {
    listings: RefCell<VecDeque<Vec<DirPathEntry>>>,
    metadata_len: u64,
    read_dir_calls: RefCell<Vec<String>>,
}

impl ScriptedFs {
    fn new(listings: Vec<Vec<DirPathEntry>>, metadata_len: u64) -> ScriptedFs {
        ScriptedFs {
            listings: RefCell::new(listings.into_iter().collect()),
            metadata_len,
            read_dir_calls: RefCell::new(vec![]),
        }
    }
}

impl FileSystemProxy for ScriptedFs {
    fn read_dir(&self, directory: &str) -> Result<Vec<DirPathEntry>, FSProxyError> {
        self.read_dir_calls.borrow_mut().push(directory.to_string());
        match self.listings.borrow_mut().pop_front() {
            Some(listing) => Ok(listing),
            None => Err(FSProxyError {
                path: directory.to_string(),
                message: String::from("unexpected listing request"),
            }),
        }
    }

    fn metadata(&self, _path: &str) -> Result<Metadata, FSProxyError> {
        Ok(Metadata { len: self.metadata_len, file_attributes: 0 })
    }
}

fn dir_entry(path: &str) -> DirPathEntry {
    DirPathEntry {
        path: path.to_string(),
        file_type: FileType { is_dir: true, is_symlink: false },
    }
}

fn file_entry(path: &str) -> DirPathEntry {
    DirPathEntry {
        path: path.to_string(),
        file_type: FileType { is_dir: false, is_symlink: false },
    }
}

fn link_entry(path: &str) -> DirPathEntry {
    DirPathEntry {
        path: path.to_string(),
        file_type: FileType { is_dir: false, is_symlink: true },
    }
}

/// Mirrors the scripted expectations of the original engine tests: the root
/// listing holds `num_directories` directories and `num_files` files, every
/// directory lists empty, and every file is a mebibyte.
fn set_expect(num_directories: usize, num_files: usize) -> (String, ScriptedFs) {
    let mut root = vec![];
    for _ in 0..num_directories {
        root.push(dir_entry("test"));
    }
    for _ in 0..num_files {
        root.push(file_entry("test"));
    }
    let mut listings = vec![root];
    for _ in 0..num_directories {
        listings.push(vec![]);
    }
    (String::from("current"), ScriptedFs::new(listings, 1024 * 1024))
}

#[test]
fn mod_test_run_with_1_file() {
    let (dir, fs) = set_expect(0, 1);
    let entry = read_fs(dir, &fs, HiddenPolicy::DotPrefix);
    assert_eq!(entry.len().expect("a len").0, 1024 * 1024_u64);
    let entries = entry.entries().expect("None should be some");
    let mut iter = entries.iter();
    let file = iter.next();
    assert_eq!(file.is_some(), true);
    let file = file.unwrap();
    assert_eq!(file.is_dir(), false);
    assert_eq!(file.len().expect("a len").0, 1024 * 1024_u64);
    assert_eq!(iter.next().is_none(), true);
}

#[test]
fn mod_test_run_with_1_directory() {
    let (dir, fs) = set_expect(1, 0);
    let entry = read_fs(dir, &fs, HiddenPolicy::DotPrefix);
    assert_eq!(entry.len().expect("a len").0, 0_u64);
    let entries = entry.entries().expect("None should be some");
    let mut iter = entries.iter();
    let child = iter.next();
    assert_eq!(child.is_some(), true);
    let child = child.unwrap();
    assert_eq!(child.is_dir(), true);
    assert_eq!(child.name(), "test\\");
    assert_eq!(child.len().expect("a len").0, 0_u64);
    assert_eq!(iter.next().is_none(), true);
}

#[test]
fn mod_test_run_with_2_directory() {
    let (dir, fs) = set_expect(2, 0);
    let entry = read_fs(dir, &fs, HiddenPolicy::DotPrefix);
    assert_eq!(entry.len().expect("a len").0, 0_u64);
    let entries = entry.entries().expect("None should be some");
    let mut iter = entries.iter();
    let child = iter.next();
    assert_eq!(child.is_some(), true);
    let entry1 = child.unwrap();
    assert_eq!(entry1.name(), "test\\");
    assert_eq!(entry1.is_dir(), true);

    let child = iter.next();
    assert_eq!(child.is_some(), true);
    let entry2 = child.unwrap();
    assert_eq!(entry2.name(), "test\\");
    assert_eq!(entry2.is_dir(), true);

    assert_eq!(iter.next().is_some(), false);
}

#[test]
fn mod_test_run_with_1_directory_and_1_file() {
    let (dir, fs) = set_expect(1, 1);
    let entry = read_fs(dir, &fs, HiddenPolicy::DotPrefix);
    assert_eq!(entry.len().expect("a len").0, 1024 * 1024_u64);
    let entries = entry.entries().expect("None should be some");
    let mut iter = entries.iter();

    let file = iter.next();
    assert_eq!(file.is_some(), true);
    let first = file.unwrap();
    assert_eq!(first.is_dir(), false);
    assert_eq!(first.len().expect("a len").0, 1024 * 1024_u64);

    let second = iter.next();
    assert_eq!(second.is_some(), true);
    let child = second.unwrap();
    assert_eq!(child.name(), "test\\");
    assert_eq!(child.is_dir(), true);
    assert_eq!(child.len().expect("a len").0, 0_u64);
}

#[test]
fn mod_test_run_with_2_directory_and_2_file() {
    let (dir, fs) = set_expect(2, 2);
    let entry = read_fs(dir, &fs, HiddenPolicy::DotPrefix);
    assert_eq!(entry.len().expect("a len").0, 1024 * 1024_u64 * 2_u64);
    let entries = entry.entries().expect("None should be some");
    let mut iter = entries.iter();
    let file = iter.next();
    assert_eq!(file.is_some(), true);
    let first = file.unwrap();
    assert_eq!(first.is_dir(), false);
    assert_eq!(first.len().expect("a len").0, 1024 * 1024_u64);
    let file = iter.next();
    assert_eq!(file.is_some(), true);
    let second = file.unwrap();
    assert_eq!(second.is_dir(), false);
    assert_eq!(second.len().expect("a len").0, 1024 * 1024_u64);

    let child = iter.next();
    assert_eq!(child.is_some(), true);
    let child = child.unwrap();
    assert_eq!(child.is_dir(), true);
    assert_eq!(child.len().expect("a len").0, 0_u64);
    assert_eq!(child.name(), "test\\");

    let child = iter.next();
    assert_eq!(child.is_some(), true);
    let child = child.unwrap();
    assert_eq!(child.is_dir(), true);
    assert_eq!(child.len().expect("a len").0, 0_u64);
    assert_eq!(child.name(), "test\\");

    let child = iter.next();
    assert_eq!(child.is_some(), false);
}

#[test]
fn one_mebibyte_file_aggregates_and_formats_as_one_megabyte() {
    let (dir, fs) = set_expect(0, 1);
    let entry = read_fs(dir, &fs, HiddenPolicy::DotPrefix);
    assert_eq!(entry.len().expect("a len").0, 1048576);
    assert_eq!(entry.len_str(), "1 MB");
}

#[test]
fn excluded_root_is_never_listed() {
    let fs = ScriptedFs::new(vec![], 0);
    let entry = read_fs(String::from("/proc"), &fs, HiddenPolicy::DotPrefix);
    match entry {
        DirectoryEntry::Excluded { ref path, is_root, .. } => {
            assert_eq!(path, "/proc");
            assert!(is_root);
        }
        other => panic!("expected an excluded leaf, found {:?}", other),
    }
    assert!(fs.read_dir_calls.borrow().is_empty(), "the listing must never be requested");
}

#[test]
fn excluded_child_is_never_listed() {
    let root = vec![dir_entry("/proc"), file_entry("a")];
    let fs = ScriptedFs::new(vec![root], 10);
    let entry = read_fs(String::from("top"), &fs, HiddenPolicy::DotPrefix);
    let entries = entry.entries().expect("children");
    assert_eq!(2, entries.len());
    assert!(entries.iter().any(|e| matches!(e, DirectoryEntry::Excluded { .. })));
    // Only the root was listed; descending into "/proc" never asked for a listing.
    assert_eq!(fs.read_dir_calls.borrow().as_slice(), &["top".to_string()]);
}

#[test]
fn symlink_contributes_no_size_and_stays_out_of_the_rollup() {
    let root = vec![link_entry("l"), file_entry("a"), file_entry("b")];
    let fs = ScriptedFs::new(vec![root], 10);
    let entry = read_fs(String::from("top"), &fs, HiddenPolicy::DotPrefix);
    assert_eq!(entry.len().expect("a len").0, 20);
    let entries = entry.entries().expect("children");
    assert_eq!(2, entries.len());
    match &entries[0] {
        DirectoryEntry::Rollup { len, entries, .. } => {
            assert_eq!(20, len.0);
            assert_eq!(2, entries.len());
            assert!(entries.iter().all(|e| matches!(e, DirectoryEntry::File { .. })));
        }
        other => panic!("expected the rollup first, found {:?}", other),
    }
    assert!(matches!(entries[1], DirectoryEntry::Link { .. }));
}

#[test]
fn listing_failure_degrades_to_an_empty_folder() {
    let fs = ScriptedFs::new(vec![], 0);
    let entry = read_fs(String::from("top"), &fs, HiddenPolicy::DotPrefix);
    assert!(entry.is_dir());
    assert_eq!(entry.len().expect("a len").0, 0);
    assert_eq!(entry.entries().expect("children").len(), 0);
}

#[test]
fn dot_prefixed_entries_are_hidden() {
    let root = vec![file_entry("top\\.secret"), file_entry("top\\plain")];
    let fs = ScriptedFs::new(vec![root], 5);
    let entry = read_fs(String::from("top"), &fs, HiddenPolicy::DotPrefix);
    let entries = entry.entries().expect("children");
    match &entries[0] {
        DirectoryEntry::Rollup { entries, .. } => {
            assert_eq!(2, entries.len());
            let hidden: Vec<bool> = entries.iter().map(|e| e.is_hidden()).collect();
            assert!(hidden.contains(&true) && hidden.contains(&false));
        }
        other => panic!("expected a rollup, found {:?}", other),
    }
}

#[test]
fn aggregate_sizes_saturate_instead_of_wrapping() {
    let root = vec![file_entry("a"), file_entry("b")];
    let fs = ScriptedFs::new(vec![root], u64::MAX);
    let entry = read_fs(String::from("top"), &fs, HiddenPolicy::DotPrefix);
    assert_eq!(entry.len().expect("a len").0, u64::MAX);
}

#[test]
fn error_messages_name_the_path_and_the_cause() {
    let err = FSProxyError { path: String::from("top"), message: String::from("denied") };
    assert_eq!(err.write_message(), "path top, caused by denied");
}

#[test]
fn classify_turns_an_excluded_path_into_an_excluded_leaf() {
    let outcome = classify(dir_entry("/proc"), true, None, None);
    match outcome {
        Some(DirectoryEntry::Excluded { path, was_directory, is_hidden, is_root }) => {
            assert_eq!(path, "/proc");
            assert!(was_directory);
            assert!(is_hidden);
            assert!(!is_root);
        }
        other => panic!("expected an excluded leaf, found {:?}", other),
    }
}

#[test]
fn classify_turns_a_symlink_into_a_link_leaf() {
    let outcome = classify(link_entry("l"), false, None, None);
    match outcome {
        Some(DirectoryEntry::Link { path, is_root, is_hidden }) => {
            assert_eq!(path, "l");
            assert!(!is_root);
            assert!(!is_hidden);
        }
        other => panic!("expected a link leaf, found {:?}", other),
    }
}

#[test]
fn classify_passes_a_directory_subtree_through() {
    let subtree = DirectoryEntry::new_folder(Byteable(0), String::from("d"), false, vec![], false);
    let copy = DirectoryEntry::new_folder(Byteable(0), String::from("d"), false, vec![], false);
    let outcome = classify(dir_entry("d"), false, None, Some(subtree));
    assert_eq!(outcome, Some(copy));
}

#[test]
fn classify_sizes_a_file_from_its_metadata_and_omits_it_without_any() {
    let with_meta = classify(
        file_entry("f"),
        true,
        Some(Metadata { len: 42, file_attributes: 0 }),
        None,
    );
    match with_meta {
        Some(DirectoryEntry::File { len, path, is_hidden }) => {
            assert_eq!(len.0, 42);
            assert_eq!(path, "f");
            assert!(is_hidden);
        }
        other => panic!("expected a file leaf, found {:?}", other),
    }
    assert_eq!(classify(file_entry("f"), true, None, None), None);
}
