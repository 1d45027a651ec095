use pqwordshelper::config::generate_config;
use pqwordshelper::query::{convert_query_to_path, resolve_values, FileQuery};

fn names(list: &[&str]) -> Vec<String> {
    list.iter().map(|s| s.to_string()).collect()
}

fn query(list: &[&str]) -> FileQuery {
    FileQuery { values: names(list), name: None }
}

#[test]
fn query_resolves_to_the_leaf_file() {
    let config = generate_config(Vec::new());
    let path = convert_query_to_path(&config, &query(&["verbs", "easy", "common"]));
    assert_eq!(path, names(&["verbs", "easy", "common.txt"]));
}

#[test]
fn resolving_overwrites_an_extension_of_the_last_value() {
    let config = generate_config(Vec::new());
    let path = convert_query_to_path(&config, &query(&["verbs", "easy", "common.md"]));
    assert_eq!(path, names(&["verbs", "easy", "common.txt"]));
}

#[test]
fn resolving_leaves_dots_in_earlier_values() {
    let config = generate_config(Vec::new());
    let path = convert_query_to_path(&config, &query(&["v1.0", "easy.x", "common"]));
    assert_eq!(path, names(&["v1.0", "easy.x", "common.txt"]));
}

#[test]
fn resolving_is_deterministic() {
    let config = generate_config(Vec::new());
    let q = query(&["nouns", "hard", "animals"]);
    assert_eq!(convert_query_to_path(&config, &q), convert_query_to_path(&config, &q));
}

#[test]
fn distinct_queries_resolve_to_distinct_paths() {
    let config = generate_config(Vec::new());
    let all = [
        ["verbs", "easy", "common"],
        ["verbs", "easy", "rare"],
        ["verbs", "hard", "common"],
        ["nouns", "easy", "common"],
        ["nouns", "easy", ".common"],
    ];
    for a in &all {
        for b in &all {
            let same = convert_query_to_path(&config, &query(a))
                == convert_query_to_path(&config, &query(b));
            assert_eq!(same, a == b);
        }
    }
}

#[test]
fn last_values_that_differ_only_in_extension_collide() {
    let config = generate_config(Vec::new());
    assert_eq!(
        convert_query_to_path(&config, &query(&["verbs", "easy", "a.b"])),
        convert_query_to_path(&config, &query(&["verbs", "easy", "a.c"]))
    );
}

#[test]
fn values_resolve_for_a_single_level() {
    let mut config = generate_config(Vec::new());
    config.hierarchy_names = names(&["type"]);
    config.keywords_fixed = vec![None];
    assert_eq!(resolve_values(&config, &names(&["verbs"])), names(&["verbs.txt"]));
}
