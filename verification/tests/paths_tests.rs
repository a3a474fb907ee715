use dirspace::paths::{file_name_part, fix_separators, is_path_prefix, parent_part, str_eq};

#[test]
fn doubled_separators_become_forward_slashes() {
    assert_eq!(fix_separators("\\\\Steam$"), "/Steam$");
    assert_eq!(fix_separators("a\\\\b\\\\c"), "a/b/c");
    assert_eq!(fix_separators("no separators"), "no separators");
    assert_eq!(fix_separators(""), "");
    // An odd run leaves the unpaired backslash alone.
    assert_eq!(fix_separators("\\\\\\"), "/\\");
}

#[test]
fn separator_rewriting_is_idempotent() {
    for text in ["\\\\Users\\\\[\\w\\s-]+\\\\Downloads$", "\\\\\\", "a\\b", "plain"] {
        let once = fix_separators(text);
        assert_eq!(fix_separators(&once), once);
    }
}

#[test]
fn file_names_are_the_last_component() {
    assert_eq!(file_name_part("a\\b\\c"), "c");
    assert_eq!(file_name_part("plain"), "plain");
    assert_eq!(file_name_part(""), "");
    assert_eq!(file_name_part("trailing\\"), "");
}

#[test]
fn parents_drop_the_last_component() {
    assert_eq!(parent_part("a\\b\\c").as_deref(), Some("a\\b"));
    assert_eq!(parent_part("plain").as_deref(), Some(""));
    assert_eq!(parent_part(""), None);
}

#[test]
fn path_prefixes_end_on_component_boundaries() {
    assert!(is_path_prefix("a", "a"));
    assert!(is_path_prefix("a", "a\\b"));
    assert!(is_path_prefix("a\\b", "a\\b\\c"));
    assert!(!is_path_prefix("a", "ab"));
    assert!(!is_path_prefix("a\\b", "a"));
    assert!(!is_path_prefix("b", "a\\b"));
}

#[test]
fn string_equality_is_character_wise() {
    assert!(str_eq("", ""));
    assert!(str_eq("abc", "abc"));
    assert!(!str_eq("abc", "abd"));
    assert!(!str_eq("abc", "abcd"));
}
