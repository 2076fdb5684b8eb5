use pleco::classify::pull_files;
use pleco::classify::select_destination;
use pleco::entry::DirEntry;

fn entry(path: &str, is_dir: bool) -> DirEntry {
    DirEntry { path: path.to_string(), is_dir }
}

#[test]
fn test_pull_files() {
    let entries = vec![
        entry("test_dir", true),
        entry("test_dir/nested", true),
        entry("top_dir", true),
        entry("test_dir/test_file1.txt", false),
        entry("test_dir/test_file2.rs", false),
        entry("test_dir/nested/test_file2.rs", false),
        entry("top_dir/test_dir/nested/test_file2.rs", false),
        entry("file.rs", false),
    ];

    let plan = pull_files(&entries, "output");

    assert!(plan.is_empty());
}

#[test]
fn test_pull_files_selects_media() {
    let entries = vec![
        entry("photos", true),
        entry("photos/2020", true),
        entry("photos/2020/pic.jpg", false),
        entry("photos/2020/clip.mp4", false),
        entry("photos/notes.txt", false),
        entry("photos/2020/.DS_Store", false),
    ];

    let plan = pull_files(&entries, "output");

    assert_eq!(
        plan,
        vec![
            (
                "photos/2020/pic.jpg".to_string(),
                "output/photos/2020/pic.jpg".to_string()
            ),
            (
                "photos/2020/clip.mp4".to_string(),
                "output/photos/2020/clip.mp4".to_string()
            ),
        ]
    );
}

#[test]
fn test_pull_files_is_deterministic() {
    let entries = vec![
        entry("a", true),
        entry("a/b", true),
        entry("a/b/x.png", false),
        entry("a/b/y.mov", false),
    ];

    let first = pull_files(&entries, "out");
    let second = pull_files(&entries, "out");

    assert_eq!(first, second);
    assert_eq!(first.len(), 2);
}

#[test]
fn test_select_destination_media_file() {
    let r = select_destination("photos/2020/pic.jpg", false, "output");
    assert_eq!(r, Some("output/photos/2020/pic.jpg".to_string()));
}

#[test]
fn test_select_destination_uppercase_extension() {
    let r = select_destination("photos/2020/PIC.JPG", false, "output");
    assert_eq!(r, Some("output/photos/2020/PIC.JPG".to_string()));
}

#[test]
fn test_select_destination_bare_media_file() {
    let r = select_destination("pic.jpg", false, "output");
    assert_eq!(r, Some("output/root/pic.jpg".to_string()));
}

#[test]
fn test_select_destination_collapses_deep_paths() {
    let r = select_destination("top/a/b/file.jpg", false, "out");
    assert_eq!(r, Some("out/a/b/file.jpg".to_string()));
}

#[test]
fn test_select_destination_rejects_non_media() {
    assert_eq!(select_destination("a/b/notes.txt", false, "out"), None);
    assert_eq!(select_destination("a/b/noext", false, "out"), None);
}

#[test]
fn test_select_destination_rejects_directories() {
    assert_eq!(select_destination("a/b.jpg", true, "out"), None);
}

#[test]
fn test_select_destination_rejects_excluded_name() {
    assert_eq!(select_destination("a/b/.DS_Store", false, "out"), None);
}
