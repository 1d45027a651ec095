//! The settings of one run.

use vstd::prelude::*;
use crate::text::{chars_of, same_text, string_of};

verus! {

/// The settings of one run: fixed from the start but for the keyword index,
/// which is filled in once the tree was read, the entry to append and the flag
/// that says whether questions are still to be asked.
pub struct Config {
    /// The extension of the leaf files, without the dot.
    pub extension: String,
    /// Where the backup goes, relative to the root.
    pub backup_dir: String,
    /// The command that is run when none is named.
    pub base_command: String,
    /// The names of the levels, from the root down.
    pub hierarchy_names: Vec<String>,
    /// The command of this run.
    pub command: String,
    /// The entry to append.
    pub input_word: String,
    /// Whether the run goes on to ask for a file.
    pub ask_input: bool,
    /// The values found in the tree, level by level; empty until the tree was
    /// read.
    pub keywords: Vec<Vec<String>>,
    /// The values given beforehand, level by level.
    pub keywords_fixed: Vec<Option<String>>,
}

/// The texts of a sequence of strings.
pub open spec fn texts(v: Seq<String>) -> Seq<Seq<char>> {
    Seq::new(v.len(), |i: int| v[i]@)
}

impl Config {
    /// There is at least one level, and a place for a fixed value for each.
    pub open spec fn wf(&self) -> bool {
        &&& self.hierarchy_names@.len() >= 1
        &&& self.keywords_fixed@.len() == self.hierarchy_names@.len()
    }

    /// The keyword index has been filled in: one list of values for each level.
    pub open spec fn indexed(&self) -> bool {
        self.keywords@.len() == self.hierarchy_names@.len()
    }
}

/// The argument that stands behind the last `flag` among `args` that has an
/// argument behind it, if there is one.
pub open spec fn flag_value(args: Seq<Seq<char>>, flag: Seq<char>) -> Option<Seq<char>>
    decreases args.len(),
{
    if args.len() < 2 {
        None
    } else if args[args.len() - 2] == flag {
        Some(args[args.len() - 1])
    } else {
        flag_value(args.drop_last(), flag)
    }
}

/// The flag that fixes the value of the level `name`: a hyphen and the name.
pub open spec fn level_flag(name: Seq<char>) -> Seq<char> {
    seq!['-'] + name
}

/// The names of the levels of the tree, from the root down.
pub open spec fn default_hierarchy() -> Seq<Seq<char>> {
    seq!["type"@, "level"@, "category"@]
}

/// The settings that the arguments `args` ask for.
pub open spec fn config_for(config: Config, args: Seq<Seq<char>>) -> bool {
    &&& config.extension@ == "txt"@
    &&& config.backup_dir@ == "../_backup"@
    &&& config.base_command@ == "readfile"@
    &&& texts(config.hierarchy_names@) == default_hierarchy()
    &&& config.command@ == match flag_value(args, "-c"@) {
        Some(v) => v,
        None => "readfile"@,
    }
    &&& config.input_word@ == match flag_value(args, "-w"@) {
        Some(v) => v,
        None => Seq::<char>::empty(),
    }
    &&& config.ask_input
    &&& config.keywords@.len() == 0
    &&& config.keywords_fixed@.len() == 3
    &&& forall|i: int|
        0 <= i < 3 ==> fixed_value(#[trigger] config.keywords_fixed@[i]) == flag_value(
            args,
            level_flag(default_hierarchy()[i]),
        )
}

/// The text of a value that may be missing.
pub open spec fn fixed_value(v: Option<String>) -> Option<Seq<char>> {
    match v {
        Some(s) => Some(s@),
        None => None,
    }
}

/// The argument behind the last `flag` among `args`.
pub fn find_flag(args: &Vec<String>, flag: &str) -> (out: Option<String>)
    ensures
        fixed_value(out) == flag_value(texts(args@), flag@),
{
    if args.len() < 2 {
        return None;
    }
    let mut i: usize = args.len() - 1;
    proof {
        assert(texts(args@).take(args.len() as int) =~= texts(args@));
    }
    while i > 0
        invariant
            i < args.len(),
            flag_value(texts(args@), flag@) == flag_value(texts(args@).take(i + 1), flag@),
        decreases i,
    {
        proof {
            assert(texts(args@).take(i + 1).drop_last() =~= texts(args@).take(i as int));
        }
        if same_text(args[i - 1].as_str(), flag) {
            return Some(args[i].clone());
        }
        i -= 1;
    }
    None
}

/// The flag that fixes the value of the level `name`.
pub fn flag_of(name: &str) -> (out: String)
    ensures
        out@ == level_flag(name@),
{
    let mut flag: Vec<char> = Vec::new();
    flag.push('-');
    let mut rest = chars_of(name);
    flag.append(&mut rest);
    proof {
        assert(flag@ =~= level_flag(name@));
    }
    string_of(&flag)
}

/// Reads the settings of a run from its arguments. `-c` names the command
/// (`readfile` if there is none), `-w` the entry to append, and `-type`,
/// `-level` and `-category` fix the value of a level; each takes the argument
/// behind it, and the last one given counts.
pub fn generate_config(args: Vec<String>) -> (config: Config)
    ensures
        config_for(config, texts(args@)),
        config.wf(),
{
    let mut hierarchy_names: Vec<String> = Vec::new();
    hierarchy_names.push("type".to_owned());
    hierarchy_names.push("level".to_owned());
    hierarchy_names.push("category".to_owned());
    proof {
        assert(texts(hierarchy_names@) =~= default_hierarchy());
    }
    let command = match find_flag(&args, "-c") {
        Some(v) => v,
        None => "readfile".to_owned(),
    };
    let input_word = match find_flag(&args, "-w") {
        Some(v) => v,
        None => String::new(),
    };
    let mut keywords_fixed: Vec<Option<String>> = Vec::new();
    let mut i: usize = 0;
    while i < 3
        invariant
            i <= 3,
            hierarchy_names@.len() == 3,
            texts(hierarchy_names@) == default_hierarchy(),
            keywords_fixed@.len() == i,
            forall|k: int|
                0 <= k < i ==> fixed_value(#[trigger] keywords_fixed@[k]) == flag_value(
                    texts(args@),
                    level_flag(default_hierarchy()[k]),
                ),
        decreases 3 - i,
    {
        let flag = flag_of(hierarchy_names[i].as_str());
        proof {
            assert(texts(hierarchy_names@)[i as int] == hierarchy_names@[i as int]@);
        }
        let value = find_flag(&args, flag.as_str());
        keywords_fixed.push(value);
        i += 1;
    }
    Config {
        extension: "txt".to_owned(),
        backup_dir: "../_backup".to_owned(),
        base_command: "readfile".to_owned(),
        hierarchy_names,
        command,
        input_word,
        ask_input: true,
        keywords: Vec::new(),
        keywords_fixed,
    }
}

} // verus!
