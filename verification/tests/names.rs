use pqwordshelper::config::generate_config;
use pqwordshelper::names::{get_filename_without_extension, ignore_path, set_extension};

#[test]
fn stem_is_the_name_before_the_last_dot() {
    assert_eq!(get_filename_without_extension("common.txt"), "common");
    assert_eq!(get_filename_without_extension("archive.tar.gz"), "archive.tar");
    assert_eq!(get_filename_without_extension("trailing."), "trailing");
}

#[test]
fn stem_is_the_whole_name_without_an_extension() {
    assert_eq!(get_filename_without_extension("verbs"), "verbs");
    assert_eq!(get_filename_without_extension(".hidden"), ".hidden");
    assert_eq!(get_filename_without_extension(".."), "..");
    assert_eq!(get_filename_without_extension(""), "");
}

#[test]
fn stem_agrees_with_the_standard_library() {
    for name in ["common.txt", "a.b.c", ".hidden", ".hidden.txt", "x.", "..a", "plain", "a..b"] {
        let expected = std::path::Path::new(name).file_stem().unwrap().to_str().unwrap();
        assert_eq!(get_filename_without_extension(name), expected);
    }
}

#[test]
fn extension_is_set_or_replaced() {
    assert_eq!(set_extension("common", "txt"), "common.txt");
    assert_eq!(set_extension("common.md", "txt"), "common.txt");
    assert_eq!(set_extension("a.b.c", "txt"), "a.b.txt");
    assert_eq!(set_extension(".hidden", "txt"), ".hidden.txt");
}

#[test]
fn empty_extension_leaves_the_stem() {
    assert_eq!(set_extension("common.md", ""), "common");
    assert_eq!(set_extension("common", ""), "common");
}

#[test]
fn set_extension_agrees_with_the_standard_library() {
    for name in ["common", "common.md", "a.b.c", ".hidden", "x."] {
        for ext in ["txt", "", "tar.gz"] {
            let mut path = std::path::PathBuf::from(name);
            path.set_extension(ext);
            assert_eq!(set_extension(name, ext), path.to_str().unwrap());
        }
    }
}

#[test]
fn tool_directory_and_private_names_are_ignored() {
    let config = generate_config(Vec::new());
    assert!(ignore_path(&config, "pqwordshelper"));
    assert!(ignore_path(&config, "_backup"));
    assert!(ignore_path(&config, "_"));
    assert!(ignore_path(&config, "_notes.txt"));
}

#[test]
fn other_extensions_are_ignored() {
    let config = generate_config(Vec::new());
    assert!(ignore_path(&config, "notes.md"));
    assert!(ignore_path(&config, "common.TXT"));
    assert!(ignore_path(&config, "common.txt.bak"));
    assert!(ignore_path(&config, "common."));
}

#[test]
fn leaf_files_and_directories_are_kept() {
    let config = generate_config(Vec::new());
    assert!(!ignore_path(&config, "common.txt"));
    assert!(!ignore_path(&config, "verbs"));
    assert!(!ignore_path(&config, ".hidden"));
    assert!(!ignore_path(&config, "a.b.txt"));
    assert!(!ignore_path(&config, "pqwordshelper.txt"));
}
