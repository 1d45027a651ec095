//! A query names one value for each level; it resolves to the path of one leaf
//! file below the root.

use vstd::prelude::*;
use crate::config::{texts, Config};
use crate::names::{dot, extension_of, file_stem, set_extension, with_extension};
use crate::tree::copy_names;

verus! {

/// One value for each level, in the order of the levels, and the free text that
/// some commands ask for besides.
pub struct FileQuery {
    /// The value chosen for each level.
    pub values: Vec<String>,
    /// The entry to append, or the name of a new leaf, where the command has
    /// one.
    pub name: Option<String>,
}

/// The path that the values resolve to, as the names that lead to the file
/// from the root: the values in order, the last of them with its extension set
/// to `extension`.
pub open spec fn resolved(values: Seq<Seq<char>>, extension: Seq<char>) -> Seq<Seq<char>>
    recommends
        values.len() >= 1,
{
    values.drop_last().push(with_extension(values.last(), extension))
}

/// The path of the leaf file that the query names, below the root. Whether the
/// file is there is not looked at.
pub fn convert_query_to_path(config: &Config, file_query: &FileQuery) -> (path: Vec<String>)
    requires
        config.hierarchy_names@.len() >= 1,
        file_query.values@.len() == config.hierarchy_names@.len(),
    ensures
        texts(path@) == resolved(texts(file_query.values@), config.extension@),
        path@.len() == config.hierarchy_names@.len(),
{
    resolve_values(config, &file_query.values)
}

/// The path that the values resolve to: the values in order, the last of them
/// with the extension of the leaf files.
pub fn resolve_values(config: &Config, values: &Vec<String>) -> (path: Vec<String>)
    requires
        values@.len() >= 1,
    ensures
        texts(path@) == resolved(texts(values@), config.extension@),
        path@.len() == values@.len(),
{
    let mut path = copy_names(values);
    let last = path.pop().unwrap();
    let leaf = set_extension(last.as_str(), config.extension.as_str());
    path.push(leaf);
    proof {
        assert(texts(path@) =~= resolved(texts(values@), config.extension@));
    }
    path
}

/// Resolving is deterministic: the same values and the same extension give the
/// same path.
pub proof fn lemma_resolved_deterministic(
    a: Seq<Seq<char>>,
    b: Seq<Seq<char>>,
    extension: Seq<char>,
)
    requires
        a == b,
    ensures
        resolved(a, extension) == resolved(b, extension),
{
}

/// Two texts that are equal once the same text is put behind each are equal.
pub proof fn lemma_cancel_suffix(a: Seq<char>, b: Seq<char>, tail: Seq<char>)
    requires
        a + tail == b + tail,
    ensures
        a == b,
{
    let x = a + tail;
    let y = b + tail;
    assert(x.len() == a.len() + tail.len());
    assert(y.len() == b.len() + tail.len());
    assert(a.len() == b.len());
    assert forall|i: int| 0 <= i < a.len() implies a[i] == b[i] by {
        assert(x[i] == a[i]);
        assert(y[i] == b[i]);
    }
    assert(a =~= b);
}

/// Two names get the same name by `with_extension` exactly if they have the
/// same stem.
pub proof fn lemma_with_extension_same(a: Seq<char>, b: Seq<char>, extension: Seq<char>)
    ensures
        with_extension(a, extension) == with_extension(b, extension) <==> file_stem(a)
            == file_stem(b),
{
    if extension.len() > 0 && with_extension(a, extension) == with_extension(b, extension) {
        let tail = seq![dot()] + extension;
        assert(file_stem(a) + seq![dot()] + extension =~= file_stem(a) + tail);
        assert(file_stem(b) + seq![dot()] + extension =~= file_stem(b) + tail);
        lemma_cancel_suffix(file_stem(a), file_stem(b), tail);
    }
}

/// Two queries resolve to the same path exactly if they agree on every level
/// but the last and their last values have the same stem.
pub proof fn lemma_resolved_same(a: Seq<Seq<char>>, b: Seq<Seq<char>>, extension: Seq<char>)
    requires
        a.len() >= 1,
        b.len() >= 1,
    ensures
        resolved(a, extension) == resolved(b, extension) <==> (a.drop_last() == b.drop_last()
            && file_stem(a.last()) == file_stem(b.last())),
{
    lemma_with_extension_same(a.last(), b.last(), extension);
    let ra = resolved(a, extension);
    let rb = resolved(b, extension);
    if ra == rb {
        assert(ra.len() == rb.len());
        assert(ra.last() == rb.last());
        assert(ra.drop_last() =~= a.drop_last());
        assert(rb.drop_last() =~= b.drop_last());
    }
}

/// Resolving is injective: two different queries resolve to different paths,
/// unless they differ in nothing but what their last values lose with their
/// extension.
pub proof fn lemma_resolved_injective(a: Seq<Seq<char>>, b: Seq<Seq<char>>, extension: Seq<char>)
    requires
        a.len() >= 1,
        b.len() >= 1,
        a != b,
        a.drop_last() == b.drop_last() ==> file_stem(a.last()) != file_stem(b.last()),
    ensures
        resolved(a, extension) != resolved(b, extension),
{
    lemma_resolved_same(a, b, extension);
}

/// Queries whose last value has no extension lose nothing: two different ones
/// resolve to different paths.
pub proof fn lemma_resolved_injective_plain(
    a: Seq<Seq<char>>,
    b: Seq<Seq<char>>,
    extension: Seq<char>,
)
    requires
        a.len() >= 1,
        b.len() >= 1,
        extension_of(a.last()) is None,
        extension_of(b.last()) is None,
        a != b,
    ensures
        resolved(a, extension) != resolved(b, extension),
{
    lemma_resolved_same(a, b, extension);
    assert(a =~= a.drop_last().push(a.last()));
    assert(b =~= b.drop_last().push(b.last()));
}

} // verus!
