//! The last component and the extension of a path, as `std::path::Path`
//! reads them, with what std documents of them on every platform.
use vstd::prelude::*;

#[allow(unused_imports)]
use crate::text::split_on;

verus! {

/// The part of `s` after its last `c` (all of `s` if it holds no `c`).
pub open spec fn after_last(s: Seq<char>, c: char) -> Seq<char>
    decreases s.len(),
{
    if s.len() == 0 {
        s
    } else if s.last() == c {
        seq![]
    } else {
        after_last(s.drop_last(), c).push(s.last())
    }
}

/// A path that every platform splits the same way, at `/` alone: it holds
/// no backslash and no `:` (no Windows separator or prefix) and does not
/// start with `//` (no UNC prefix).
pub open spec fn portable_path(p: Seq<char>) -> bool {
    &&& !p.contains('\\')
    &&& !p.contains(':')
    &&& !(p.len() >= 2 && p[0] == '/' && p[1] == '/')
}

/// A normal path component: not empty, `.` or `..`.
pub open spec fn is_normal_component(n: Seq<char>) -> bool {
    n.len() > 0 && n != seq!['.'] && n != seq!['.', '.']
}

/// A portable path whose part after the last `/` is a normal component;
/// that part is its file name on every platform.
pub open spec fn plain_path(p: Seq<char>) -> bool {
    portable_path(p) && is_normal_component(after_last(p, '/'))
}

/// The parts of a portable path that name something, in order: the pieces
/// between its `/`s, without the empty ones (repeated, leading and trailing
/// separators) and without `.`.
pub open spec fn path_parts(p: Seq<char>) -> Seq<Seq<char>> {
    split_on(p, '/').filter(|c: Seq<char>| c.len() > 0 && c != seq!['.'])
}

/// The file name of a portable path: its last part, unless it has none or
/// the last one is `..`.
pub open spec fn portable_file_name(p: Seq<char>) -> Option<Seq<char>> {
    let parts = path_parts(p);
    if parts.len() > 0 && parts.last() != seq!['.', '.'] {
        Some(parts.last())
    } else {
        None
    }
}

/// The extension of a portable path: that of its file name, if it has one.
pub open spec fn portable_extension(p: Seq<char>) -> Option<Seq<char>> {
    match portable_file_name(p) {
        Some(n) => extension_of_name(n),
        None => None,
    }
}

/// A path that has no file name on every platform: the empty path, the
/// root `/`, and a portable path that ends in `..`.
pub open spec fn has_no_file_name(p: Seq<char>) -> bool {
    ||| p.len() == 0
    ||| p == seq!['/']
    ||| (portable_path(p) && after_last(p, '/') == seq!['.', '.'])
}

/// `f` is what `Path::file_name` may give for `p`: a name it gives is not
/// empty; for a portable path it is its last part unless that is `..`; for
/// a plain path that is the part after the last `/`; a path with no file
/// name gives none.
pub open spec fn file_name_fits(p: Seq<char>, f: Option<Seq<char>>) -> bool {
    &&& (f matches Some(n) ==> n.len() > 0)
    &&& (portable_path(p) ==> f == portable_file_name(p))
    &&& (plain_path(p) ==> f == Some(after_last(p, '/')))
    &&& (has_no_file_name(p) ==> f is None)
}

/// Does `n` hold a `.` after its first character?
pub open spec fn has_inner_dot(n: Seq<char>) -> bool {
    exists|i: int| 1 <= i < n.len() && n[i] == '.'
}

/// The extension of a file name: the part after its last `.`, where a `.`
/// stands after the first character; none otherwise (no `.`, or a name
/// like `.md` whose only `.` comes first).
pub open spec fn extension_of_name(n: Seq<char>) -> Option<Seq<char>> {
    if has_inner_dot(n) {
        Some(after_last(n, '.'))
    } else {
        None
    }
}

/// `e` is what `Path::extension` may give for `p`: for a portable or plain
/// path, the extension of its file name; for a path with no file name, none.
pub open spec fn extension_fits(p: Seq<char>, e: Option<Seq<char>>) -> bool {
    &&& (portable_path(p) ==> e == portable_extension(p))
    &&& (plain_path(p) ==> e == extension_of_name(after_last(p, '/')))
    &&& (has_no_file_name(p) ==> e is None)
}

/// The text of an optional path part, empty where there is none (as
/// `unwrap_or_default` gives it).
pub open spec fn or_empty(o: Option<Seq<char>>) -> Seq<char> {
    match o {
        Some(s) => s,
        None => seq![],
    }
}

/// The last component of `path`, as `Path::file_name` gives it. std
/// documents that a name it finds is a normal component (so not empty), that
/// `/`, the empty path and a path ending in `..` have none, and that
/// components ignore repeated and trailing separators and drop `.` but at
/// the start; every platform splits a portable path at `/` alone. How a path
/// with backslashes, `:` or a leading `//` (a UNC prefix on Windows) splits
/// depends on the platform, which is left unsaid.
#[verifier::external_body]
pub(crate) fn path_file_name(path: &str) -> (r: Option<String>)
    ensures
        file_name_fits(path@, r.deep_view()),
{
    std::path::Path::new(path).file_name().and_then(|value| value.to_str()).map(
        |value| value.to_string(),
    )
}

/// The extension of `path`, as `Path::extension` gives it: std documents it
/// as none without a file name, none without an embedded `.` or when the
/// name's only `.` comes first, and otherwise the part after the last `.`.
/// On paths that are not portable the file name itself depends on the
/// platform, which is left unsaid.
#[verifier::external_body]
pub(crate) fn path_extension(path: &str) -> (r: Option<String>)
    ensures
        extension_fits(path@, r.deep_view()),
{
    std::path::Path::new(path).extension().and_then(|value| value.to_str()).map(
        |value| value.to_string(),
    )
}

/// The text of an optional path part, empty where there is none.
pub fn text_or_empty(o: Option<String>) -> (s: String)
    ensures
        s@ == or_empty(o.deep_view()),
{
    match o {
        Some(s) => s,
        None => String::new(),
    }
}

} // verus!
