use pqwordshelper::config::{find_flag, flag_of, generate_config};

fn args(list: &[&str]) -> Vec<String> {
    list.iter().map(|s| s.to_string()).collect()
}

#[test]
fn defaults_without_arguments() {
    let config = generate_config(Vec::new());
    assert_eq!(config.extension, "txt");
    assert_eq!(config.backup_dir, "../_backup");
    assert_eq!(config.base_command, "readfile");
    assert_eq!(config.command, "readfile");
    assert_eq!(config.input_word, "");
    assert!(config.ask_input);
    assert!(config.keywords.is_empty());
    assert_eq!(config.hierarchy_names, args(&["type", "level", "category"]));
    assert_eq!(config.keywords_fixed, vec![None, None, None]);
}

#[test]
fn flags_take_the_argument_behind_them() {
    let config = generate_config(args(&[
        "prog", "-c", "addword", "-w", "jump", "-type", "verbs", "-category", "common",
    ]));
    assert_eq!(config.command, "addword");
    assert_eq!(config.input_word, "jump");
    assert_eq!(
        config.keywords_fixed,
        vec![Some("verbs".to_string()), None, Some("common".to_string())]
    );
}

#[test]
fn the_last_flag_counts() {
    let config = generate_config(args(&["-c", "readfile", "-c", "cleanfiles", "-level", "a", "-level", "b"]));
    assert_eq!(config.command, "cleanfiles");
    assert_eq!(config.keywords_fixed, vec![None, Some("b".to_string()), None]);
}

#[test]
fn a_flag_at_the_end_has_no_value() {
    let config = generate_config(args(&["-w", "jump", "-c"]));
    assert_eq!(config.command, "readfile");
    assert_eq!(config.input_word, "jump");
    let config = generate_config(args(&["-c"]));
    assert_eq!(config.command, "readfile");
}

#[test]
fn a_value_may_itself_be_a_flag() {
    let config = generate_config(args(&["-c", "-w", "x"]));
    assert_eq!(config.command, "-w");
    assert_eq!(config.input_word, "x");
}

#[test]
fn find_flag_finds_the_last_occurrence() {
    let a = args(&["-x", "1", "-y", "2", "-x", "3", "-x"]);
    assert_eq!(find_flag(&a, "-x"), Some("3".to_string()));
    assert_eq!(find_flag(&a, "-y"), Some("2".to_string()));
    assert_eq!(find_flag(&a, "-z"), None);
    assert_eq!(find_flag(&Vec::new(), "-x"), None);
}

#[test]
fn level_flag_is_hyphen_and_name() {
    assert_eq!(flag_of("type"), "-type");
    assert_eq!(flag_of(""), "-");
}
