//! File names: stem, extension, and which entries of the tree are passed over.

use vstd::prelude::*;
use crate::config::Config;
use crate::text::{chars_of, same_chars, string_of};

verus! {

/// The dot that parts a stem from an extension.
pub open spec fn dot() -> char {
    '.'
}

/// The place of the last dot in `name`, or -1 if it has none.
pub open spec fn last_dot(name: Seq<char>) -> int
    decreases name.len(),
{
    if name.len() == 0 {
        -1
    } else if name.last() == dot() {
        name.len() - 1
    } else {
        last_dot(name.drop_last())
    }
}

/// The name falls into a stem and an extension: it has a dot that is not its
/// first character, and it is not the name `..` of the parent directory.
pub open spec fn has_extension(name: Seq<char>) -> bool {
    last_dot(name) > 0 && name != seq![dot(), dot()]
}

/// The name up to its last dot; the whole name if it has no extension.
pub open spec fn file_stem(name: Seq<char>) -> Seq<char> {
    if has_extension(name) {
        name.take(last_dot(name))
    } else {
        name
    }
}

/// What follows the last dot of the name, if it has an extension.
pub open spec fn extension_of(name: Seq<char>) -> Option<Seq<char>> {
    if has_extension(name) {
        Some(name.skip(last_dot(name) + 1))
    } else {
        None
    }
}

/// The name with its extension set to `extension`: the stem, and behind it a
/// dot and the extension unless that is empty.
pub open spec fn with_extension(name: Seq<char>, extension: Seq<char>) -> Seq<char> {
    if extension.len() == 0 {
        file_stem(name)
    } else {
        file_stem(name) + seq![dot()] + extension
    }
}

/// The name of the tool's own directory.
pub open spec fn tool_directory() -> Seq<char> {
    "pqwordshelper"@
}

/// The entries that every walk of the tree passes over: the tool's own
/// directory, names that begin with an underscore, and names with an extension
/// other than `extension`.
pub open spec fn ignored(name: Seq<char>, extension: Seq<char>) -> bool {
    ||| name == tool_directory()
    ||| (name.len() > 0 && name[0] == '_')
    ||| (extension_of(name) is Some && extension_of(name)->0 != extension)
}

/// Where `last_dot` points there is a dot, and none behind it.
pub proof fn lemma_last_dot(name: Seq<char>)
    ensures
        -1 <= last_dot(name) < name.len(),
        last_dot(name) >= 0 ==> name[last_dot(name)] == dot(),
        forall|i: int| last_dot(name) < i < name.len() ==> #[trigger] name[i] != dot(),
    decreases name.len(),
{
    if name.len() > 0 && name.last() != dot() {
        lemma_last_dot(name.drop_last());
        assert forall|i: int| last_dot(name) < i < name.len() implies #[trigger] name[i]
            != dot() by {
            if i < name.len() - 1 {
                assert(name.drop_last()[i] == name[i]);
            }
        }
    }
}

/// The place of the last dot in `name`.
pub fn find_last_dot(name: &Vec<char>) -> (r: Option<usize>)
    ensures
        r is Some ==> r->0 as int == last_dot(name@),
        r is None ==> last_dot(name@) == -1,
{
    let mut i: usize = name.len();
    proof {
        assert(name@.take(name.len() as int) =~= name@);
    }
    while i > 0
        invariant
            i <= name.len(),
            last_dot(name@) == last_dot(name@.take(i as int)),
        decreases i,
    {
        proof {
            assert(name@.take(i as int).drop_last() =~= name@.take(i - 1));
        }
        if name[i - 1] == '.' {
            return Some(i - 1);
        }
        i -= 1;
    }
    None
}

/// Where the stem of `name` ends, if the name has an extension.
pub fn stem_end(name: &Vec<char>) -> (r: Option<usize>)
    ensures
        r is Some <==> has_extension(name@),
        r is Some ==> r->0 as int == last_dot(name@),
        r is Some ==> (r->0 as int) < name@.len(),
{
    proof {
        lemma_last_dot(name@);
    }
    match find_last_dot(name) {
        None => None,
        Some(at) => {
            if at == 0 {
                None
            } else if name.len() == 2 && name[0] == '.' {
                proof {
                    assert(name@ =~= seq![dot(), dot()]);
                }
                None
            } else {
                proof {
                    if name@ == seq![dot(), dot()] {
                        assert(name@[0] == dot());
                    }
                }
                Some(at)
            }
        },
    }
}

/// The characters of `v` from `from` up to `to`.
pub fn slice_of(v: &Vec<char>, from: usize, to: usize) -> (out: Vec<char>)
    requires
        from <= to <= v@.len(),
    ensures
        out@ == v@.subrange(from as int, to as int),
{
    let mut out: Vec<char> = Vec::new();
    let mut i: usize = from;
    while i < to
        invariant
            from <= i <= to,
            to <= v@.len(),
            out@ == v@.subrange(from as int, i as int),
        decreases to - i,
    {
        out.push(v[i]);
        proof {
            assert(v@.subrange(from as int, i + 1) =~= v@.subrange(from as int, i as int).push(
                v@[i as int],
            ));
        }
        i += 1;
    }
    out
}

/// The stem of a file name.
pub fn stem_chars(name: &Vec<char>) -> (out: Vec<char>)
    ensures
        out@ == file_stem(name@),
{
    match stem_end(name) {
        None => {
            let out = slice_of(name, 0, name.len());
            proof {
                assert(name@.subrange(0, name@.len() as int) =~= name@);
            }
            out
        },
        Some(at) => slice_of(name, 0, at),
    }
}

/// The extension of a file name, if it has one.
pub fn extension_chars(name: &Vec<char>) -> (out: Option<Vec<char>>)
    ensures
        out is Some <==> extension_of(name@) is Some,
        out is Some ==> out->0@ == extension_of(name@)->0,
{
    let end: usize = name.len();
    match stem_end(name) {
        None => None,
        Some(at) => Some(slice_of(name, at + 1, end)),
    }
}

/// The file name without its extension.
pub fn get_filename_without_extension(filename: &str) -> (out: String)
    ensures
        out@ == file_stem(filename@),
{
    let name = chars_of(filename);
    let stem = stem_chars(&name);
    string_of(&stem)
}

/// The file name with its extension set to `extension`.
pub fn set_extension(name: &str, extension: &str) -> (out: String)
    ensures
        out@ == with_extension(name@, extension@),
{
    let name_chars = chars_of(name);
    let mut out = stem_chars(&name_chars);
    let mut ext = chars_of(extension);
    if ext.len() > 0 {
        out.push('.');
        out.append(&mut ext);
    }
    string_of(&out)
}

/// Whether an entry with this name is passed over.
pub fn ignored_name(name: &Vec<char>, extension: &Vec<char>) -> (r: bool)
    ensures
        r == ignored(name@, extension@),
{
    let tool = chars_of("pqwordshelper");
    if same_chars(name, &tool) {
        return true;
    }
    if name.len() > 0 && name[0] == '_' {
        return true;
    }
    match extension_chars(name) {
        None => false,
        Some(ext) => !same_chars(&ext, extension),
    }
}

/// Whether the walks of the tree pass over an entry with this name.
pub fn ignore_path(config: &Config, name: &str) -> (r: bool)
    ensures
        r == ignored(name@, config.extension@),
{
    let name_chars = chars_of(name);
    let ext = chars_of(config.extension.as_str());
    ignored_name(&name_chars, &ext)
}

} // verus!
