use pleco::entry::DirEntry;
use pleco::tally::get_common_filetypes;

fn entry(path: &str, is_dir: bool) -> DirEntry {
    DirEntry { path: path.to_string(), is_dir }
}

fn lookup(tally: &Vec<(String, usize)>, label: &str) -> Option<usize> {
    for (l, c) in tally.iter() {
        if l == label {
            return Some(*c);
        }
    }
    None
}

#[test]
fn test_common() {
    let entries = vec![
        entry("test_dir", true),
        entry("test_dir/nested", true),
        entry("test_dir/test_file1.txt", false),
        entry("test_dir/test_file2.rs", false),
        entry("test_dir/nested/test_file2.rs", false),
    ];

    let result = get_common_filetypes(&entries);

    assert_eq!(result.len(), 2);
    assert_eq!(lookup(&result, "txt"), Some(1));
    assert_eq!(lookup(&result, "rs"), Some(2));
}

#[test]
fn test_common_unknown_label() {
    let entries = vec![
        entry("a", true),
        entry("a/README", false),
        entry("a/.bashrc", false),
        entry("a/b.txt", false),
    ];

    let result = get_common_filetypes(&entries);

    assert_eq!(result.len(), 2);
    assert_eq!(lookup(&result, "Unknown"), Some(2));
    assert_eq!(lookup(&result, "txt"), Some(1));
}

#[test]
fn test_common_counts_sum_to_file_count() {
    let entries = vec![
        entry("d", true),
        entry("d/a.rs", false),
        entry("d/b.rs", false),
        entry("d/sub", true),
        entry("d/sub/c.py", false),
        entry("d/sub/d.py", false),
        entry("d/sub/e.txt", false),
        entry("d/sub/noext", false),
    ];
    let files = entries.iter().filter(|e| !e.is_dir).count();

    let result = get_common_filetypes(&entries);

    let total: usize = result.iter().map(|p| p.1).sum();
    assert_eq!(total, files);
    for (_, c) in result.iter() {
        assert!(*c >= 1);
    }
}

#[test]
fn test_common_empty() {
    let entries: Vec<DirEntry> = Vec::new();
    let result = get_common_filetypes(&entries);
    assert!(result.is_empty());

    let only_dirs = vec![entry("x", true), entry("x/y", true)];
    assert!(get_common_filetypes(&only_dirs).is_empty());
}
