//! The commands, what those that need no file do, and the backup that comes
//! before all of them.

use vstd::prelude::*;
use crate::config::{texts, Config};
use crate::lines::{join_chars, join_with};
use crate::names::ignored;
use crate::sorting::views;
use crate::text::{chars_of, same_chars, string_of};
use crate::tree::{copy_names, get_relevant_root_paths};

verus! {

/// What a run can be asked to do.
#[derive(Clone, Copy, Debug, PartialEq, Eq, Structural)]
pub enum Command {
    /// Show a leaf file.
    ReadFile,
    /// Append an entry to a leaf file.
    AddWord,
    /// Create a leaf file.
    CreateFile,
    /// Show the values of the last level as a list.
    PrintValueList,
    /// Show the values of the last level in one line, with commas between.
    PrintValueString,
    /// Remove repeated entries from every leaf file.
    RemoveDuplicates,
    /// Drop blank lines from every leaf file and sort it.
    CleanFiles,
    /// A name that is no command: a file is asked for and nothing is done to
    /// it.
    Unknown,
}

/// The command that a name stands for.
pub open spec fn command_named(name: Seq<char>) -> Command {
    if name == "readfile"@ {
        Command::ReadFile
    } else if name == "addword"@ {
        Command::AddWord
    } else if name == "createfile"@ {
        Command::CreateFile
    } else if name == "printvaluelist"@ {
        Command::PrintValueList
    } else if name == "printvaluestring"@ {
        Command::PrintValueString
    } else if name == "removeduplicates"@ {
        Command::RemoveDuplicates
    } else if name == "cleanfiles"@ {
        Command::CleanFiles
    } else {
        Command::Unknown
    }
}

/// The command works on the whole tree and asks for no file. Every other
/// command asks for one.
pub open spec fn inputless(command: Command) -> bool {
    command is PrintValueList || command is PrintValueString || command is RemoveDuplicates
        || command is CleanFiles
}

/// Whether `name` is the word `word`.
fn is_word(name: &Vec<char>, word: &str) -> (r: bool)
    ensures
        r == (name@ == word@),
{
    let w = chars_of(word);
    same_chars(name, &w)
}

/// The command that a name stands for.
pub fn command_of(name: &str) -> (command: Command)
    ensures
        command == command_named(name@),
{
    let n = chars_of(name);
    if is_word(&n, "readfile") {
        Command::ReadFile
    } else if is_word(&n, "addword") {
        Command::AddWord
    } else if is_word(&n, "createfile") {
        Command::CreateFile
    } else if is_word(&n, "printvaluelist") {
        Command::PrintValueList
    } else if is_word(&n, "printvaluestring") {
        Command::PrintValueString
    } else if is_word(&n, "removeduplicates") {
        Command::RemoveDuplicates
    } else if is_word(&n, "cleanfiles") {
        Command::CleanFiles
    } else {
        Command::Unknown
    }
}

/// Whether the command works on the whole tree.
pub fn is_inputless(command: Command) -> (r: bool)
    ensures
        r == inputless(command),
{
    match command {
        Command::PrintValueList => true,
        Command::PrintValueString => true,
        Command::RemoveDuplicates => true,
        Command::CleanFiles => true,
        _ => false,
    }
}

/// What is to be done for a command that works on the whole tree.
#[derive(Debug, PartialEq, Eq)]
pub enum BulkAction {
    /// Nothing: the command asks for a file.
    Nothing,
    /// Show these values as a list.
    PrintValueList(Vec<String>),
    /// Show this line.
    PrintValueString(String),
    /// Remove the repeated entries of every leaf file.
    RemoveDuplicates,
    /// Clean every leaf file.
    CleanFiles,
}

/// The values of the last level in the keyword index.
pub open spec fn last_level_values(config: Config) -> Seq<Seq<char>>
    recommends
        config.keywords@.len() >= 1,
{
    texts(config.keywords@.last()@)
}

/// `action` is what `command` asks for, given the settings `config`.
pub open spec fn bulk_action_for(config: Config, command: Command, action: BulkAction) -> bool {
    match command {
        Command::PrintValueList => action matches BulkAction::PrintValueList(values) && texts(
            values@,
        ) == last_level_values(config),
        Command::PrintValueString => action matches BulkAction::PrintValueString(line) && line@
            == join_with(last_level_values(config), ','),
        Command::RemoveDuplicates => action is RemoveDuplicates,
        Command::CleanFiles => action is CleanFiles,
        _ => action is Nothing,
    }
}

/// The character vectors of the given strings.
pub fn chars_of_all(values: &Vec<String>) -> (out: Vec<Vec<char>>)
    ensures
        views(out@) == texts(values@),
{
    let mut out: Vec<Vec<char>> = Vec::new();
    let mut i: usize = 0;
    while i < values.len()
        invariant
            i <= values.len(),
            out@.len() == i,
            forall|k: int| 0 <= k < i ==> (#[trigger] out@[k])@ == values@[k]@,
        decreases values.len() - i,
    {
        out.push(chars_of(values[i].as_str()));
        i += 1;
    }
    proof {
        assert(views(out@) =~= texts(values@));
    }
    out
}

/// Decides what a command that works on the whole tree asks for, and notes in
/// the settings that after such a command no file is asked for. A command that
/// asks for a file leaves the settings as they are.
pub fn handle_inputless_commands(config: &mut Config) -> (action: BulkAction)
    requires
        command_named(old(config).command@) is PrintValueList || command_named(
            old(config).command@,
        ) is PrintValueString ==> old(config).wf() && old(config).indexed(),
    ensures
        bulk_action_for(*old(config), command_named(old(config).command@), action),
        final(config).ask_input == (old(config).ask_input && !inputless(
            command_named(old(config).command@),
        )),
        *final(config) == (Config { ask_input: final(config).ask_input, ..*old(config) }),
{
    let command = command_of(config.command.as_str());
    let action = match command {
        Command::PrintValueList => {
            let last: usize = config.keywords.len() - 1;
            BulkAction::PrintValueList(copy_names(&config.keywords[last]))
        },
        Command::PrintValueString => {
            let last: usize = config.keywords.len() - 1;
            let values = chars_of_all(&config.keywords[last]);
            let line = join_chars(&values, ',');
            BulkAction::PrintValueString(string_of(&line))
        },
        Command::RemoveDuplicates => BulkAction::RemoveDuplicates,
        Command::CleanFiles => BulkAction::CleanFiles,
        _ => BulkAction::Nothing,
    };
    if is_inputless(command) {
        config.ask_input = false;
    }
    action
}

/// One step of making the backup.
#[derive(Debug, PartialEq, Eq)]
pub enum BackupStep {
    /// Remove this directory with all that is in it.
    RemoveDirectory(String),
    /// Create this directory.
    CreateDirectory(String),
    /// Copy these entries of the root, with all that is below them, into this
    /// directory.
    CopyInto { entries: Vec<String>, target: String },
}

/// `steps` make the backup: an earlier backup is removed, the directory is
/// made anew, and every entry of the root that is not ignored is copied into
/// it.
pub open spec fn backup_steps_for(
    config: Config,
    root_names: Seq<Seq<char>>,
    backup_exists: bool,
    steps: Seq<BackupStep>,
) -> bool {
    let offset: int = if backup_exists {
        1
    } else {
        0
    };
    &&& steps.len() == offset + 2
    &&& backup_exists ==> (steps[0] matches BackupStep::RemoveDirectory(d) && d@
        == config.backup_dir@)
    &&& steps[offset] matches BackupStep::CreateDirectory(d) && d@ == config.backup_dir@
    &&& steps[offset + 1] matches BackupStep::CopyInto { entries, target } && target@
        == config.backup_dir@ && texts(entries@) == root_names.filter(
        |n: Seq<char>| !ignored(n, config.extension@),
    )
}

/// The steps that make the backup of the tree whose root holds the entries
/// `root_names`. The directory of the backup is given relative to the root.
pub fn create_backup(config: &Config, root_names: &Vec<String>, backup_exists: bool) -> (steps:
    Vec<BackupStep>)
    ensures
        backup_steps_for(*config, texts(root_names@), backup_exists, steps@),
{
    let entries = get_relevant_root_paths(config, root_names);
    let mut steps: Vec<BackupStep> = Vec::new();
    if backup_exists {
        steps.push(BackupStep::RemoveDirectory(config.backup_dir.clone()));
    }
    steps.push(BackupStep::CreateDirectory(config.backup_dir.clone()));
    steps.push(BackupStep::CopyInto { entries, target: config.backup_dir.clone() });
    steps
}

} // verus!
