use pqwordshelper::commands::{
    command_of, create_backup, handle_inputless_commands, is_inputless, BackupStep, BulkAction,
    Command,
};
use pqwordshelper::config::generate_config;

fn names(list: &[&str]) -> Vec<String> {
    list.iter().map(|s| s.to_string()).collect()
}

fn indexed(command: &str) -> pqwordshelper::config::Config {
    let mut config = generate_config(names(&["-c", command]));
    config.keywords = vec![names(&["verbs"]), names(&["easy", "hard"]), names(&["common", "rare"])];
    config
}

#[test]
fn commands_are_known_by_name() {
    assert_eq!(command_of("readfile"), Command::ReadFile);
    assert_eq!(command_of("addword"), Command::AddWord);
    assert_eq!(command_of("createfile"), Command::CreateFile);
    assert_eq!(command_of("printvaluelist"), Command::PrintValueList);
    assert_eq!(command_of("printvaluestring"), Command::PrintValueString);
    assert_eq!(command_of("removeduplicates"), Command::RemoveDuplicates);
    assert_eq!(command_of("cleanfiles"), Command::CleanFiles);
}

#[test]
fn other_names_are_no_command() {
    assert_eq!(command_of(""), Command::Unknown);
    assert_eq!(command_of("ReadFile"), Command::Unknown);
    assert_eq!(command_of("readfile "), Command::Unknown);
    assert_eq!(command_of("dedupe"), Command::Unknown);
}

#[test]
fn each_command_has_one_phase() {
    assert!(is_inputless(Command::PrintValueList));
    assert!(is_inputless(Command::PrintValueString));
    assert!(is_inputless(Command::RemoveDuplicates));
    assert!(is_inputless(Command::CleanFiles));
    assert!(!is_inputless(Command::ReadFile));
    assert!(!is_inputless(Command::AddWord));
    assert!(!is_inputless(Command::CreateFile));
    assert!(!is_inputless(Command::Unknown));
}

#[test]
fn value_list_shows_the_last_level() {
    let mut config = indexed("printvaluelist");
    let action = handle_inputless_commands(&mut config);
    assert_eq!(action, BulkAction::PrintValueList(names(&["common", "rare"])));
    assert!(!config.ask_input);
}

#[test]
fn value_string_joins_with_commas() {
    let mut config = indexed("printvaluestring");
    let action = handle_inputless_commands(&mut config);
    assert_eq!(action, BulkAction::PrintValueString("common,rare".to_string()));
    assert!(!config.ask_input);
    let mut config = indexed("printvaluestring");
    config.keywords[2] = Vec::new();
    assert_eq!(handle_inputless_commands(&mut config), BulkAction::PrintValueString(String::new()));
}

#[test]
fn bulk_commands_skip_the_questions() {
    let mut config = indexed("removeduplicates");
    assert_eq!(handle_inputless_commands(&mut config), BulkAction::RemoveDuplicates);
    assert!(!config.ask_input);
    let mut config = indexed("cleanfiles");
    assert_eq!(handle_inputless_commands(&mut config), BulkAction::CleanFiles);
    assert!(!config.ask_input);
}

#[test]
fn commands_on_one_file_leave_the_settings() {
    for command in ["readfile", "addword", "createfile", "nonsense"] {
        let mut config = indexed(command);
        assert_eq!(handle_inputless_commands(&mut config), BulkAction::Nothing);
        assert!(config.ask_input);
        assert_eq!(config.command, command);
        assert_eq!(config.keywords.len(), 3);
    }
}

#[test]
fn bulk_commands_need_no_index() {
    let mut config = generate_config(names(&["-c", "cleanfiles"]));
    assert_eq!(handle_inputless_commands(&mut config), BulkAction::CleanFiles);
}

#[test]
fn backup_replaces_an_earlier_one() {
    let config = generate_config(Vec::new());
    let root = names(&["verbs", "_old", "nouns", "readme.md"]);
    let steps = create_backup(&config, &root, true);
    assert_eq!(
        steps,
        vec![
            BackupStep::RemoveDirectory("../_backup".to_string()),
            BackupStep::CreateDirectory("../_backup".to_string()),
            BackupStep::CopyInto {
                entries: names(&["verbs", "nouns"]),
                target: "../_backup".to_string()
            },
        ]
    );
}

#[test]
fn first_backup_removes_nothing() {
    let config = generate_config(Vec::new());
    let steps = create_backup(&config, &names(&["verbs"]), false);
    assert_eq!(
        steps,
        vec![
            BackupStep::CreateDirectory("../_backup".to_string()),
            BackupStep::CopyInto { entries: names(&["verbs"]), target: "../_backup".to_string() },
        ]
    );
}
