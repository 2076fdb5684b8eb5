use pleco::entry::DirEntry;
use pleco::matching::count;

fn entry(path: &str, is_dir: bool) -> DirEntry {
    DirEntry { path: path.to_string(), is_dir }
}

fn sample_entries() -> Vec<DirEntry> {
    vec![
        entry("test_dir", true),
        entry("test_dir/nested", true),
        entry("test_dir/test_file1.txt", false),
        entry("test_dir/test_file2.rs", false),
        entry("test_dir/nested/test_file2.rs", false),
    ]
}

#[test]
fn test_count() {
    let entries = sample_entries();

    let result = count(&entries, "test_file2.rs");

    assert_eq!(result, Some(2));
}

#[test]
fn test_count_wildcard() {
    let entries = sample_entries();

    assert_eq!(count(&entries, "*.rs"), Some(2));
    assert_eq!(count(&entries, "test_file?.txt"), Some(1));
    assert_eq!(count(&entries, "*"), Some(5));
}

#[test]
fn test_count_matches_directories_too() {
    let entries = sample_entries();

    assert_eq!(count(&entries, "nested"), Some(1));
}

#[test]
fn test_count_no_match() {
    let entries = sample_entries();

    assert_eq!(count(&entries, "absent.md"), Some(0));
}

#[test]
fn test_count_invalid_pattern() {
    let entries = sample_entries();

    assert_eq!(count(&entries, "a[b"), None);
}
