use pqwordshelper::config::generate_config;
use pqwordshelper::tree::{
    build_valid_keywords, get_all_files_from, get_relevant_root_paths, Entry, EntryKind,
};

fn file(name: &str) -> Entry {
    Entry { name: name.to_string(), kind: EntryKind::File, children: Vec::new() }
}

fn dir(name: &str, children: Vec<Entry>) -> Entry {
    Entry { name: name.to_string(), kind: EntryKind::Directory, children }
}

fn names(list: &[&str]) -> Vec<String> {
    list.iter().map(|s| s.to_string()).collect()
}

fn sample() -> Vec<Entry> {
    vec![
        dir(
            "verbs",
            vec![
                dir("easy", vec![file("common.txt"), file("rare.txt"), file("notes.md")]),
                dir("hard", vec![file("common.txt"), dir("deeper", vec![file("lost.txt")])]),
                file("stray.txt"),
            ],
        ),
        dir("nouns", vec![dir("easy", vec![file("animals.txt")])]),
        dir("_backup", vec![dir("easy", vec![file("old.txt")])]),
        dir("pqwordshelper", vec![dir("src", vec![file("main.txt")])]),
        file("readme.md"),
        file("top.txt"),
    ]
}

#[test]
fn index_holds_the_stems_of_each_depth() {
    let config = generate_config(Vec::new());
    let index = build_valid_keywords(&config, &sample());
    assert_eq!(index.len(), 3);
    assert_eq!(index[0], names(&["nouns", "top", "verbs"]));
    assert_eq!(index[1], names(&["easy", "hard", "stray"]));
    assert_eq!(index[2], names(&["animals", "common", "deeper", "rare"]));
}

#[test]
fn index_of_single_leaf() {
    let config = generate_config(Vec::new());
    let tree = vec![dir("verbs", vec![dir("easy", vec![file("common.txt")])])];
    let index = build_valid_keywords(&config, &tree);
    assert_eq!(index, vec![names(&["verbs"]), names(&["easy"]), names(&["common"])]);
}

#[test]
fn index_of_empty_tree_has_empty_levels() {
    let config = generate_config(Vec::new());
    let index = build_valid_keywords(&config, &Vec::new());
    assert_eq!(index, vec![Vec::<String>::new(), Vec::new(), Vec::new()]);
}

#[test]
fn index_passes_over_what_lies_in_ignored_directories() {
    let config = generate_config(Vec::new());
    let index = build_valid_keywords(&config, &sample());
    assert!(!index[0].contains(&"_backup".to_string()));
    assert!(!index[0].contains(&"pqwordshelper".to_string()));
    assert!(!index[0].contains(&"readme".to_string()));
    assert!(!index[2].contains(&"old".to_string()));
    assert!(!index[2].contains(&"main".to_string()));
    assert!(!index[2].contains(&"notes".to_string()));
}

#[test]
fn index_does_not_reach_below_the_last_level() {
    let config = generate_config(Vec::new());
    let index = build_valid_keywords(&config, &sample());
    for level in &index {
        assert!(!level.contains(&"lost".to_string()));
    }
}

#[test]
fn index_does_not_descend_into_files() {
    let config = generate_config(Vec::new());
    let odd = Entry {
        name: "verbs.txt".to_string(),
        kind: EntryKind::File,
        children: vec![file("ghost.txt")],
    };
    let index = build_valid_keywords(&config, &vec![odd]);
    assert_eq!(index[0], names(&["verbs"]));
    assert!(index[1].is_empty());
}

#[test]
fn index_follows_the_number_of_levels() {
    let mut config = generate_config(Vec::new());
    config.hierarchy_names = names(&["type"]);
    let index = build_valid_keywords(&config, &sample());
    assert_eq!(index, vec![names(&["nouns", "top", "verbs"])]);
}

#[test]
fn all_files_are_listed_in_walk_order() {
    let config = generate_config(Vec::new());
    let files = get_all_files_from(&config, &sample());
    assert_eq!(
        files,
        vec![
            names(&["verbs", "easy", "common.txt"]),
            names(&["verbs", "easy", "rare.txt"]),
            names(&["verbs", "hard", "common.txt"]),
            names(&["verbs", "hard", "deeper", "lost.txt"]),
            names(&["verbs", "stray.txt"]),
            names(&["nouns", "easy", "animals.txt"]),
            names(&["top.txt"]),
        ]
    );
}

#[test]
fn entries_that_are_neither_file_nor_directory_are_not_listed() {
    let config = generate_config(Vec::new());
    let pipe = Entry { name: "pipe.txt".to_string(), kind: EntryKind::Other, children: Vec::new() };
    let files = get_all_files_from(&config, &vec![pipe, file("a.txt")]);
    assert_eq!(files, vec![names(&["a.txt"])]);
}

#[test]
fn every_indexed_leaf_is_a_listed_file() {
    let config = generate_config(Vec::new());
    let tree = sample();
    let index = build_valid_keywords(&config, &tree);
    let files = get_all_files_from(&config, &tree);
    for path in files.iter().filter(|p| p.len() == 3) {
        let stem = pqwordshelper::names::get_filename_without_extension(&path[2]);
        assert!(index[2].contains(&stem));
    }
}

#[test]
fn root_entries_for_the_backup() {
    let config = generate_config(Vec::new());
    let root = names(&["verbs", "_backup", "readme.md", "top.txt", "pqwordshelper", "nouns"]);
    assert_eq!(get_relevant_root_paths(&config, &root), names(&["verbs", "top.txt", "nouns"]));
    assert_eq!(get_relevant_root_paths(&config, &Vec::new()), Vec::<String>::new());
}
