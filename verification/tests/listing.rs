use batch_rename::entries::FolderEntry;
use batch_rename::entries::file_entry_for;
use batch_rename::entries::folder_entry_for;
use batch_rename::entries::sort_folder_entries;
use batch_rename::entries::str_le;
use batch_rename::paths::check_invalid_components;
use batch_rename::paths::file_name_part;
use batch_rename::paths::parent_of;
use batch_rename::paths::str_eq;
use batch_rename::paths::within;

#[test]
fn file_entry_splits_name_and_extension() {
    let e = file_entry_for("/tmp/x/a.tar.gz".to_string());
    assert_eq!(e.path, "/tmp/x/a.tar.gz");
    assert_eq!(e.name, "a.tar.gz");
    assert_eq!(e.extension, "gz");
}

#[test]
fn hidden_file_has_no_extension() {
    let e = file_entry_for("/tmp/x/.gitignore".to_string());
    assert_eq!(e.name, ".gitignore");
    assert_eq!(e.extension, "");
}

#[test]
fn plain_file_has_no_extension() {
    let e = file_entry_for("/tmp/x/noext".to_string());
    assert_eq!(e.name, "noext");
    assert_eq!(e.extension, "");
}

#[test]
fn trailing_dot_gives_empty_extension() {
    let e = file_entry_for("/tmp/x/a.".to_string());
    assert_eq!(e.name, "a.");
    assert_eq!(e.extension, "");
}

#[test]
fn folder_entry_takes_last_component() {
    let e = folder_entry_for("/tmp/x/sub".to_string());
    assert_eq!(e.path, "/tmp/x/sub");
    assert_eq!(e.name, "sub");
}

#[test]
fn file_name_of_relative_path_is_whole_string() {
    let n = file_name_part("a.txt");
    assert_eq!(n, "a.txt");
}

#[test]
fn parent_of_nested_path() {
    assert_eq!(parent_of("/tmp/x/a.txt"), Some("/tmp/x".to_string()));
}

#[test]
fn parent_of_root_child_is_root() {
    assert_eq!(parent_of("/a"), Some("/".to_string()));
}

#[test]
fn root_and_bare_names_have_no_parent() {
    assert_eq!(parent_of("/"), None);
    assert_eq!(parent_of("rel"), None);
}

#[test]
fn within_requires_component_boundary() {
    assert!(within("/a/b/c", "/a/b"));
    assert!(within("/a/b", "/a/b"));
    assert!(!within("/a/bc", "/a/b"));
    assert!(within("/a/b", "/"));
    assert!(!within("/a", "/a/b"));
}

#[test]
fn invalid_components_found() {
    assert!(check_invalid_components("../up.txt"));
    assert!(check_invalid_components("a..b"));
    assert!(check_invalid_components("dir\\file"));
    assert!(!check_invalid_components("/tmp/x/a.txt"));
    assert!(!check_invalid_components("a.b.c"));
}

#[test]
fn str_eq_compares_contents() {
    assert!(str_eq("abc", "abc"));
    assert!(!str_eq("abc", "abd"));
    assert!(!str_eq("abc", "ab"));
    assert!(str_eq("", ""));
}

#[test]
fn str_le_is_code_point_order() {
    assert!(str_le("A", "B"));
    assert!(str_le("B", "b"));
    assert!(str_le("b", "\u{e9}"));
    assert!(!str_le("b", "A"));
    assert!(str_le("ab", "abc"));
    assert!(!str_le("abc", "ab"));
    assert!(str_le("", "a"));
    assert!(str_le("same", "same"));
}

fn folder(path: &str) -> FolderEntry {
    folder_entry_for(path.to_string())
}

#[test]
fn subfolders_sorted_by_name_ascending() {
    let entries = vec![folder("/d/b"), folder("/d/A"), folder("/d/\u{e9}"), folder("/d/B")];
    let sorted = sort_folder_entries(&entries);
    let names: Vec<&str> = sorted.iter().map(|e| e.name.as_str()).collect();
    assert_eq!(names, vec!["A", "B", "b", "\u{e9}"]);
}

#[test]
fn sort_keeps_duplicates() {
    let entries = vec![folder("/d/x"), folder("/e/x"), folder("/d/a")];
    let sorted = sort_folder_entries(&entries);
    assert_eq!(sorted.len(), 3);
    assert_eq!(sorted[0].name, "a");
    assert_eq!(sorted[1].name, "x");
    assert_eq!(sorted[2].name, "x");
}

#[test]
fn sort_of_empty_listing_is_empty() {
    let entries: Vec<FolderEntry> = Vec::new();
    let sorted = sort_folder_entries(&entries);
    assert!(sorted.is_empty());
}
