//! The directory tree as a value, and what the walks of it find.

use vstd::prelude::*;
use crate::config::{texts, Config};
use crate::distinct::{distinct_lines, drop_repeats, lemma_distinct_lines, strictly_ascending};
use crate::names::{file_stem, ignored, ignored_name, stem_chars};
use crate::sorting::{lemma_views_push, sort_lines, views};
use crate::text::{chars_of, string_of};

verus! {

/// What kind of thing a directory entry is.
#[derive(Clone, Copy, Debug)]
pub enum EntryKind {
    /// A directory.
    Directory,
    /// A regular file.
    File,
    /// Neither of the two.
    Other,
}

/// An entry of a directory, with the entries below it if it is a directory.
pub struct Entry {
    /// The name of the entry in its directory.
    pub name: String,
    /// What the entry is.
    pub kind: EntryKind,
    /// The entries of the directory, in the order in which they were listed.
    pub children: Vec<Entry>,
}

/// The stems of the entries found `depth` directories below `entries`, in the
/// order of the walk. An ignored entry is passed over with all that is below
/// it.
pub open spec fn stems_at(entries: Seq<Entry>, extension: Seq<char>, depth: nat) -> Seq<
    Seq<char>,
>
    decreases depth, entries.len(),
{
    if entries.len() == 0 {
        Seq::empty()
    } else {
        stems_at(entries.drop_last(), extension, depth) + stems_below(
            entries.last(),
            extension,
            depth,
        )
    }
}

/// What one entry adds to `stems_at`.
pub open spec fn stems_below(entry: Entry, extension: Seq<char>, depth: nat) -> Seq<Seq<char>>
    decreases depth, 0nat,
{
    if ignored(entry.name@, extension) {
        Seq::empty()
    } else if depth == 0 {
        seq![file_stem(entry.name@)]
    } else if entry.kind is Directory {
        stems_at(entry.children@, extension, (depth - 1) as nat)
    } else {
        Seq::empty()
    }
}

/// `value` is the stem of an entry that is there, `depth` directories below
/// `entries`, and neither it nor a directory on the way to it is ignored.
pub open spec fn present_at(
    entries: Seq<Entry>,
    extension: Seq<char>,
    depth: nat,
    value: Seq<char>,
) -> bool
    decreases depth,
{
    exists|i: int|
        0 <= i < entries.len() && !ignored(entries[i].name@, extension) && if depth == 0 {
            file_stem(#[trigger] entries[i].name@) == value
        } else {
            entries[i].kind is Directory && present_at(
                entries[i].children@,
                extension,
                (depth - 1) as nat,
                value,
            )
        }
}

/// What the walk records at a depth is what is present at that depth.
pub proof fn lemma_stems_present(
    entries: Seq<Entry>,
    extension: Seq<char>,
    depth: nat,
    value: Seq<char>,
)
    ensures
        stems_at(entries, extension, depth).contains(value) <==> present_at(
            entries,
            extension,
            depth,
            value,
        ),
    decreases depth, entries.len(),
{
    if entries.len() == 0 {
    } else {
        let front = entries.drop_last();
        let e = entries.last();
        lemma_stems_present(front, extension, depth, value);
        if depth > 0 && e.kind is Directory {
            lemma_stems_present(e.children@, extension, (depth - 1) as nat, value);
        }
        let a = stems_at(front, extension, depth);
        let b = stems_below(e, extension, depth);
        let here = !ignored(e.name@, extension) && if depth == 0 {
            file_stem(e.name@) == value
        } else {
            e.kind is Directory && present_at(e.children@, extension, (depth - 1) as nat, value)
        };
        assert(b.contains(value) <==> here) by {
            if b.contains(value) {
                let k = choose|k: int| 0 <= k < b.len() && b[k] == value;
            }
            if here && depth == 0 {
                assert(b[0] == value);
            }
        }
        assert((a + b).contains(value) <==> a.contains(value) || b.contains(value)) by {
            if (a + b).contains(value) {
                let k = choose|k: int| 0 <= k < (a + b).len() && (a + b)[k] == value;
                if k < a.len() {
                    assert(a[k] == value);
                } else {
                    assert(b[k - a.len()] == value);
                }
            }
            if a.contains(value) {
                let k = choose|k: int| 0 <= k < a.len() && a[k] == value;
                assert((a + b)[k] == value);
            }
            if b.contains(value) {
                let k = choose|k: int| 0 <= k < b.len() && b[k] == value;
                assert((a + b)[k + a.len()] == value);
            }
        }
        if present_at(entries, extension, depth, value) {
            let i = choose|i: int|
                0 <= i < entries.len() && !ignored(entries[i].name@, extension) && if depth == 0 {
                    file_stem(#[trigger] entries[i].name@) == value
                } else {
                    entries[i].kind is Directory && present_at(
                        entries[i].children@,
                        extension,
                        (depth - 1) as nat,
                        value,
                    )
                };
            if i < front.len() {
                assert(front[i] == entries[i]);
                assert(present_at(front, extension, depth, value));
            }
        }
        if present_at(front, extension, depth, value) {
            let i = choose|i: int|
                0 <= i < front.len() && !ignored(front[i].name@, extension) && if depth == 0 {
                    file_stem(#[trigger] front[i].name@) == value
                } else {
                    front[i].kind is Directory && present_at(
                        front[i].children@,
                        extension,
                        (depth - 1) as nat,
                        value,
                    )
                };
            assert(entries[i] == front[i]);
        }
        if here {
            assert(entries[entries.len() - 1] == e);
        }
    }
}

/// Adds to `out` the stems found `depth` directories below `entries`.
fn collect_stems(
    entries: &Vec<Entry>,
    extension: &Vec<char>,
    depth: usize,
    out: &mut Vec<Vec<char>>,
)
    ensures
        views(final(out)@) == views(old(out)@) + stems_at(entries@, extension@, depth as nat),
    decreases depth,
{
    let ghost before = views(out@);
    let mut i: usize = 0;
    proof {
        assert(entries@.take(0) =~= Seq::<Entry>::empty());
        assert(before + Seq::<Seq<char>>::empty() =~= before);
    }
    while i < entries.len()
        invariant
            i <= entries.len(),
            views(out@) == before + stems_at(entries@.take(i as int), extension@, depth as nat),
        decreases entries.len() - i,
    {
        let entry = &entries[i];
        let ghost sofar = views(out@);
        proof {
            assert(entries@.take(i + 1).drop_last() =~= entries@.take(i as int));
            assert(entries@.take(i + 1).last() == *entry);
        }
        let name = chars_of(entry.name.as_str());
        if !ignored_name(&name, extension) {
            if depth == 0 {
                let stem = stem_chars(&name);
                proof {
                    lemma_views_push(out@, stem);
                }
                out.push(stem);
                proof {
                    assert(sofar.push(stem@) =~= sofar + seq![stem@]);
                }
            } else {
                match entry.kind {
                    EntryKind::Directory => {
                        collect_stems(&entry.children, extension, depth - 1, out);
                    },
                    _ => {},
                }
            }
        }
        proof {
            let add = stems_below(*entry, extension@, depth as nat);
            assert(views(out@) == sofar + add) by {
                assert(sofar + Seq::<Seq<char>>::empty() =~= sofar);
            }
            assert(before + stems_at(entries@.take(i + 1), extension@, depth as nat) =~= sofar
                + add);
        }
        i += 1;
    }
    proof {
        assert(entries@.take(entries.len() as int) =~= entries@);
    }
}

/// The strings of the given character vectors.
pub fn strings_of(lines: &Vec<Vec<char>>) -> (out: Vec<String>)
    ensures
        texts(out@) == views(lines@),
{
    let mut out: Vec<String> = Vec::new();
    let mut i: usize = 0;
    while i < lines.len()
        invariant
            i <= lines.len(),
            out@.len() == i,
            forall|k: int| 0 <= k < i ==> (#[trigger] out@[k])@ == lines@[k]@,
        decreases lines.len() - i,
    {
        out.push(string_of(&lines[i]));
        i += 1;
    }
    proof {
        assert(texts(out@) =~= views(lines@));
    }
    out
}

/// The keyword index of the tree whose root holds `entries`: for each level the
/// stems of the entries found that many directories down, sorted, each once.
/// A value is in the index of a level exactly if an entry with that stem is
/// there at that depth, not ignored and reached through directories that are
/// not ignored.
pub fn build_valid_keywords(config: &Config, entries: &Vec<Entry>) -> (index: Vec<Vec<String>>)
    ensures
        index@.len() == config.hierarchy_names@.len(),
        forall|level: int|
            0 <= level < index@.len() ==> texts(#[trigger] index@[level]@) == distinct_lines(
                stems_at(entries@, config.extension@, level as nat),
            ),
        forall|level: int, value: Seq<char>|
            0 <= level < index@.len() ==> (texts(index@[level]@).contains(value) <==> present_at(
                entries@,
                config.extension@,
                level as nat,
                value,
            )),
        forall|level: int|
            0 <= level < index@.len() ==> strictly_ascending(texts(#[trigger] index@[level]@)),
{
    let extension = chars_of(config.extension.as_str());
    let mut index: Vec<Vec<String>> = Vec::new();
    let mut level: usize = 0;
    while level < config.hierarchy_names.len()
        invariant
            level <= config.hierarchy_names.len(),
            extension@ == config.extension@,
            index@.len() == level,
            forall|l: int|
                0 <= l < level ==> texts(#[trigger] index@[l]@) == distinct_lines(
                    stems_at(entries@, config.extension@, l as nat),
                ),
        decreases config.hierarchy_names.len() - level,
    {
        let mut found: Vec<Vec<char>> = Vec::new();
        proof {
            assert(views(found@) =~= Seq::<Seq<char>>::empty());
        }
        collect_stems(entries, &extension, level, &mut found);
        proof {
            assert(Seq::<Seq<char>>::empty() + stems_at(entries@, extension@, level as nat)
                =~= stems_at(entries@, extension@, level as nat));
        }
        let sorted = sort_lines(found);
        let unique = drop_repeats(sorted);
        index.push(strings_of(&unique));
        level += 1;
    }
    proof {
        assert forall|l: int| 0 <= l < index@.len() implies strictly_ascending(
            texts(#[trigger] index@[l]@),
        ) by {
            lemma_distinct_lines(stems_at(entries@, config.extension@, l as nat));
        }
        assert forall|l: int, value: Seq<char>| 0 <= l < index@.len() implies (texts(
            index@[l]@,
        ).contains(value) <==> present_at(entries@, config.extension@, l as nat, value)) by {
            let found = stems_at(entries@, config.extension@, l as nat);
            lemma_distinct_lines(found);
            lemma_stems_present(entries@, config.extension@, l as nat, value);
            assert(distinct_lines(found).to_set().contains(value) <==> found.to_set().contains(
                value,
            ));
        }
    }
    index
}

/// The paths that a vector of name vectors stands for.
pub open spec fn paths(v: Seq<Vec<String>>) -> Seq<Seq<Seq<char>>> {
    Seq::new(v.len(), |i: int| texts(v[i]@))
}

/// The regular files below `entries`, each as the names that lead to it from
/// `prefix` on, in the order of the walk. An ignored entry is passed over with
/// all that is below it.
pub open spec fn files_under(
    prefix: Seq<Seq<char>>,
    entries: Seq<Entry>,
    extension: Seq<char>,
) -> Seq<Seq<Seq<char>>>
    decreases entries,
{
    if entries.len() == 0 {
        Seq::empty()
    } else {
        files_under(prefix, entries.drop_last(), extension) + files_of(
            prefix,
            entries.last(),
            extension,
        )
    }
}

/// What one entry adds to `files_under`.
pub open spec fn files_of(prefix: Seq<Seq<char>>, entry: Entry, extension: Seq<char>) -> Seq<
    Seq<Seq<char>>,
>
    decreases entry,
{
    if ignored(entry.name@, extension) {
        Seq::empty()
    } else {
        match entry.kind {
            EntryKind::Directory => files_under(
                prefix.push(entry.name@),
                entry.children@,
                extension,
            ),
            EntryKind::File => seq![prefix.push(entry.name@)],
            EntryKind::Other => Seq::empty(),
        }
    }
}

/// A copy of the names.
pub fn copy_names(names: &Vec<String>) -> (out: Vec<String>)
    ensures
        out@ == names@,
{
    let mut out: Vec<String> = Vec::new();
    let mut i: usize = 0;
    while i < names.len()
        invariant
            i <= names.len(),
            out@ == names@.take(i as int),
        decreases names.len() - i,
    {
        out.push(names[i].clone());
        proof {
            assert(names@.take(i + 1) =~= names@.take(i as int).push(names@[i as int]));
        }
        i += 1;
    }
    proof {
        assert(names@.take(names.len() as int) =~= names@);
    }
    out
}

/// Adds to `out` the regular files below `entries`.
fn collect_files(
    prefix: &Vec<String>,
    entries: &Vec<Entry>,
    extension: &Vec<char>,
    out: &mut Vec<Vec<String>>,
)
    ensures
        paths(final(out)@) == paths(old(out)@) + files_under(
            texts(prefix@),
            entries@,
            extension@,
        ),
    decreases entries,
{
    let ghost before = paths(out@);
    let mut i: usize = 0;
    proof {
        assert(entries@.take(0) =~= Seq::<Entry>::empty());
        assert(before + Seq::<Seq<Seq<char>>>::empty() =~= before);
    }
    while i < entries.len()
        invariant
            i <= entries.len(),
            paths(out@) == before + files_under(
                texts(prefix@),
                entries@.take(i as int),
                extension@,
            ),
        decreases entries.len() - i,
    {
        let entry = &entries[i];
        let ghost sofar = paths(out@);
        proof {
            assert(entries@.take(i + 1).drop_last() =~= entries@.take(i as int));
            assert(entries@.take(i + 1).last() == *entry);
            assert(sofar + Seq::<Seq<Seq<char>>>::empty() =~= sofar);
        }
        let name = chars_of(entry.name.as_str());
        if !ignored_name(&name, extension) {
            match entry.kind {
                EntryKind::Directory => {
                    let mut longer = copy_names(prefix);
                    longer.push(entry.name.clone());
                    proof {
                        assert(texts(longer@) =~= texts(prefix@).push(entry.name@));
                    }
                    collect_files(&longer, &entry.children, extension, out);
                },
                EntryKind::File => {
                    let mut path = copy_names(prefix);
                    path.push(entry.name.clone());
                    proof {
                        assert(texts(path@) =~= texts(prefix@).push(entry.name@));
                    }
                    let ghost old_out = out@;
                    out.push(path);
                    proof {
                        assert(paths(out@) =~= paths(old_out).push(texts(path@)));
                        assert(sofar.push(texts(path@)) =~= sofar + seq![texts(path@)]);
                    }
                },
                EntryKind::Other => {},
            }
        }
        proof {
            let add = files_of(texts(prefix@), *entry, extension@);
            assert(paths(out@) == sofar + add);
            assert(before + files_under(texts(prefix@), entries@.take(i + 1), extension@)
                =~= sofar + add);
        }
        i += 1;
    }
    proof {
        assert(entries@.take(entries.len() as int) =~= entries@);
    }
}

/// The leaf files of the tree whose root holds `entries`: every regular file
/// that is not ignored and lies in no ignored directory, as the names that lead
/// to it from the root, in the order of the walk.
pub fn get_all_files_from(config: &Config, entries: &Vec<Entry>) -> (files: Vec<Vec<String>>)
    ensures
        paths(files@) == files_under(Seq::empty(), entries@, config.extension@),
{
    let extension = chars_of(config.extension.as_str());
    let prefix: Vec<String> = Vec::new();
    let mut files: Vec<Vec<String>> = Vec::new();
    proof {
        assert(texts(prefix@) =~= Seq::<Seq<char>>::empty());
        assert(paths(files@) =~= Seq::<Seq<Seq<char>>>::empty());
    }
    collect_files(&prefix, entries, &extension, &mut files);
    proof {
        assert(Seq::<Seq<Seq<char>>>::empty() + files_under(
            Seq::empty(),
            entries@,
            config.extension@,
        ) =~= files_under(Seq::empty(), entries@, config.extension@));
    }
    files
}

/// The names among `names`, the entries of the root, that are not ignored, in
/// their order: what a backup copies.
pub fn get_relevant_root_paths(config: &Config, names: &Vec<String>) -> (kept: Vec<String>)
    ensures
        texts(kept@) == texts(names@).filter(|n: Seq<char>| !ignored(n, config.extension@)),
{
    let extension = chars_of(config.extension.as_str());
    let ghost all = texts(names@);
    let ghost keep = |n: Seq<char>| !ignored(n, config.extension@);
    let mut kept: Vec<String> = Vec::new();
    let mut i: usize = 0;
    proof {
        reveal(Seq::filter);
        assert(all.take(0) =~= Seq::<Seq<char>>::empty());
        assert(texts(kept@) =~= Seq::<Seq<char>>::empty());
    }
    while i < names.len()
        invariant
            i <= names.len(),
            extension@ == config.extension@,
            all == texts(names@),
            keep == (|n: Seq<char>| !ignored(n, config.extension@)),
            texts(kept@) == all.take(i as int).filter(keep),
        decreases names.len() - i,
    {
        proof {
            reveal(Seq::filter);
            assert(all.take(i + 1).drop_last() =~= all.take(i as int));
            assert(all.take(i + 1).last() == names@[i as int]@);
        }
        let name = chars_of(names[i].as_str());
        if !ignored_name(&name, &extension) {
            let ghost old_kept = kept@;
            kept.push(names[i].clone());
            proof {
                assert(texts(kept@) =~= texts(old_kept).push(names@[i as int]@));
            }
        }
        i += 1;
    }
    proof {
        assert(all.take(names.len() as int) =~= all);
    }
    kept
}

} // verus!
