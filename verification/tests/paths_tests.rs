use pleco::paths::extension_of;
use pleco::paths::file_name_of;
use pleco::paths::get_new_filepath;
use pleco::paths::parent_of;

#[test]
fn test_get_new_filepath() {
    let output_dir = "output";
    let test_files = vec![
        ("test_dir/test_file1.txt", "output/test_dir/test_file1.txt"),
        ("test_dir/test_file2.rs", "output/test_dir/test_file2.rs"),
        (
            "test_dir/nested/test_file2.rs",
            "output/test_dir/nested/test_file2.rs",
        ),
        (
            "top_dir/test_dir/nested/test_file2.rs",
            "output/test_dir/nested/test_file2.rs",
        ),
        ("file.rs", "output/root/file.rs"),
    ];

    for tc in test_files.iter() {
        let result = get_new_filepath(tc.0, output_dir);
        assert_eq!(result.unwrap(), tc.1.to_string());
    }
}

#[test]
fn test_get_new_filepath_is_deterministic() {
    let first = get_new_filepath("a/b/c/d.png", "out");
    let second = get_new_filepath("a/b/c/d.png", "out");
    assert_eq!(first, second);
    assert_eq!(first.unwrap(), "out/b/c/d.png".to_string());
}

#[test]
fn test_get_new_filepath_without_file_name() {
    assert_eq!(get_new_filepath("a/b/", "out"), None);
    assert_eq!(get_new_filepath("", "out"), None);
}

#[test]
fn test_get_new_filepath_empty_output_dir() {
    assert_eq!(
        get_new_filepath("a/b/c.txt", ""),
        Some("a/b/c.txt".to_string())
    );
}

#[test]
fn test_file_name_of() {
    assert_eq!(file_name_of("a/b/c.txt"), Some("c.txt"));
    assert_eq!(file_name_of("c.txt"), Some("c.txt"));
    assert_eq!(file_name_of("a/b/"), None);
    assert_eq!(file_name_of(""), None);
}

#[test]
fn test_parent_of() {
    assert_eq!(parent_of("a/b/c.txt"), Some("a/b"));
    assert_eq!(parent_of("c.txt"), None);
    assert_eq!(parent_of("/c.txt"), Some(""));
}

#[test]
fn test_extension_of() {
    assert_eq!(extension_of("a/b/c.txt"), Some("txt"));
    assert_eq!(extension_of("archive.tar.gz"), Some("gz"));
    assert_eq!(extension_of(".bashrc"), None);
    assert_eq!(extension_of("noext"), None);
    assert_eq!(extension_of("trailing."), Some(""));
    assert_eq!(extension_of("dir.v1/noext"), None);
}
