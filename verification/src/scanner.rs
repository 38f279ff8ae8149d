//! Which files are indexed, and what is read from them: the file kind by
//! extension, the exclusion of directories, the alias and title of a
//! Markdown file and the target of a URL shortcut.
use vstd::prelude::*;

use crate::error::AppError;
use crate::models::{FileKind, IndexedFile, WorkspaceConfig};
use crate::paths::{path_extension, path_file_name, text_or_empty};
#[allow(unused_imports)]
use crate::paths::{
    after_last, extension_fits, extension_of_name, file_name_fits, or_empty, plain_path,
    portable_extension, portable_file_name, portable_path,
};
use crate::text::{
    chars_of, eq_ignore_ascii_case, join_strings, range_eq, range_starts_with, split_lines,
    split_range, str_eq, string_of_range, to_ascii_lowercase, trim_range, trim_start_range, Pat,
};
#[allow(unused_imports)]
use crate::text::{
    ascii_lower, eq_ignore_case, join, lemma_lines_after_break, lines, pieces, ranges_within,
    split_on, starts_with, trim, trim_start, trim_ws,
};

verus! {

// ---------------------------------------------------------------------------
// Alias values
// ---------------------------------------------------------------------------
/// One alias taken from a comma-separated piece: surrounding whitespace and
/// quotes are removed.
pub open spec fn clean_alias(part: Seq<char>) -> Seq<char> {
    trim_ws(trim(trim(trim_ws(part), Pat::Ch('"')), Pat::Ch('\'')))
}

/// A frontmatter value with its surrounding brackets and quotes removed.
pub open spec fn normalize_alias_value(value: Seq<char>) -> Seq<char> {
    trim(trim(trim(trim(trim_ws(value), Pat::Ch('[')), Pat::Ch(']')), Pat::Ch('"')), Pat::Ch('\''))
}

/// The non-empty cleaned aliases of the given pieces, in order.
pub open spec fn cleaned_aliases(parts: Seq<Seq<char>>) -> Seq<Seq<char>>
    decreases parts.len(),
{
    if parts.len() == 0 {
        seq![]
    } else {
        let a = clean_alias(parts.last());
        cleaned_aliases(parts.drop_last()) + if a.len() > 0 {
            seq![a]
        } else {
            seq![]
        }
    }
}

/// The aliases that one frontmatter value lists: `a`, `a, b`, `[a, "b"]`.
pub open spec fn alias_values(value: Seq<char>) -> Seq<Seq<char>> {
    cleaned_aliases(split_on(normalize_alias_value(value), ','))
}

/// Appends the aliases listed in `v[lo..hi]` to `aliases`.
fn collect_alias_range(v: &Vec<char>, lo: usize, hi: usize, aliases: &mut Vec<String>)
    requires
        lo <= hi <= v@.len(),
    ensures
        final(aliases).deep_view() == old(aliases).deep_view() + alias_values(
            v@.subrange(lo as int, hi as int),
        ),
{
    let (a0, b0) = trim_range(v, lo, hi, Pat::Ws);
    let (a1, b1) = trim_range(v, a0, b0, Pat::Ch('['));
    let (a2, b2) = trim_range(v, a1, b1, Pat::Ch(']'));
    let (a3, b3) = trim_range(v, a2, b2, Pat::Ch('"'));
    let (a4, b4) = trim_range(v, a3, b3, Pat::Ch('\''));
    let parts = split_range(v, a4, b4, ',');
    let ghost ps = pieces(v@, parts@);
    let ghost start = aliases.deep_view();
    let mut i: usize = 0;
    while i < parts.len()
        invariant
            ranges_within(parts@, v@.len() as int),
            ps == pieces(v@, parts@),
            i <= parts@.len(),
            aliases.deep_view() == start + cleaned_aliases(ps.take(i as int)),
        decreases parts@.len() - i,
    {
        let (p, q) = parts[i];
        assert(ranges_within(parts@, v@.len() as int));
        assert(p <= q <= v@.len()) by {
            assert(parts@[i as int].0 <= parts@[i as int].1 <= v@.len());
        }
        let (c0, d0) = trim_range(v, p, q, Pat::Ws);
        let (c1, d1) = trim_range(v, c0, d0, Pat::Ch('"'));
        let (c2, d2) = trim_range(v, c1, d1, Pat::Ch('\''));
        let (c3, d3) = trim_range(v, c2, d2, Pat::Ws);
        proof {
            assert(ps[i as int] == v@.subrange(p as int, q as int));
            assert(ps.take(i + 1).drop_last() == ps.take(i as int));
            assert(ps.take(i + 1).last() == ps[i as int]);
        }
        if c3 < d3 {
            let ghost before = aliases.deep_view();
            aliases.push(string_of_range(v, c3, d3));
            proof {
                assert(aliases.deep_view() =~= before.push(v@.subrange(c3 as int, d3 as int)));
            }
        }
        i += 1;
    }
    proof {
        assert(ps.take(parts@.len() as int) == ps);
    }
}

/// Appends the aliases that the frontmatter value `value` lists to `aliases`.
pub fn collect_alias_values(value: &str, aliases: &mut Vec<String>)
    ensures
        final(aliases).deep_view() == old(aliases).deep_view() + alias_values(value@),
{
    let v = chars_of(value);
    collect_alias_range(&v, 0, v.len(), aliases);
    assert(v@.subrange(0, v@.len() as int) == v@);
}

// ---------------------------------------------------------------------------
// Frontmatter aliases
// ---------------------------------------------------------------------------
/// The state of a scan over frontmatter lines: whether the closing `---`
/// was seen, whether list items of `aliases:` are being read, and the
/// aliases found so far.
pub open spec fn alias_step(
    st: (bool, bool, Seq<Seq<char>>),
    line: Seq<char>,
) -> (bool, bool, Seq<Seq<char>>) {
    let t = trim_ws(line);
    if st.0 {
        st
    } else if t == "---"@ {
        (true, st.1, st.2)
    } else if starts_with(t, "alias:"@) {
        (false, false, st.2 + alias_values(t.skip("alias:"@.len() as int)))
    } else if starts_with(t, "aliases:"@) {
        (false, true, st.2 + alias_values(t.skip("aliases:"@.len() as int)))
    } else if st.1 && starts_with(t, "-"@) {
        (false, true, st.2 + alias_values(t.skip("-"@.len() as int)))
    } else if st.1 && t.len() > 0 {
        (false, false, st.2)
    } else {
        st
    }
}

/// The scan state after the given frontmatter lines.
pub open spec fn alias_scan(ls: Seq<Seq<char>>) -> (bool, bool, Seq<Seq<char>>)
    decreases ls.len(),
{
    if ls.len() == 0 {
        (false, false, seq![])
    } else {
        alias_step(alias_scan(ls.drop_last()), ls.last())
    }
}

/// The aliases of a Markdown document: its first line must be `---`; up to
/// the next `---` line, `alias:` gives aliases, and `aliases:` gives aliases
/// followed by those of the `- item` lines under it. They are joined with
/// single spaces; a document without any has none.
pub open spec fn markdown_alias(content: Seq<char>) -> Option<Seq<char>> {
    let ls = lines(content);
    if ls.len() == 0 || trim_ws(ls[0]) != "---"@ {
        None
    } else {
        let found = alias_scan(ls.drop_first()).2;
        if found.len() == 0 {
            None
        } else {
            Some(join(found, " "@))
        }
    }
}

/// Once the closing line is seen, later lines change nothing.
proof fn lemma_alias_scan_done(ls: Seq<Seq<char>>, k: int)
    requires
        0 <= k <= ls.len(),
        alias_scan(ls.take(k)).0,
    ensures
        alias_scan(ls) == alias_scan(ls.take(k)),
    decreases ls.len() - k,
{
    if k == ls.len() {
        assert(ls.take(k) == ls);
    } else {
        assert(ls.take(k + 1).drop_last() == ls.take(k));
        lemma_alias_scan_done(ls, k + 1);
    }
}

/// The aliases that the frontmatter of a Markdown document lists, joined by spaces.
pub fn extract_markdown_alias(content: &str) -> (r: Option<String>)
    ensures
        r.deep_view() == markdown_alias(content@),
{
    let v = chars_of(content);
    let ls = split_lines(&v);
    let ghost lp = pieces(v@, ls@);
    if ls.len() == 0 {
        return None;
    }
    let dashes = chars_of("---");
    let alias_key = chars_of("alias:");
    let aliases_key = chars_of("aliases:");
    let dash = chars_of("-");
    assert(ranges_within(ls@, v@.len() as int));
    assert(ls@[0].0 <= ls@[0].1 <= v@.len());
    let (a, b) = trim_range(&v, ls[0].0, ls[0].1, Pat::Ws);
    proof {
        assert(lp[0] == v@.subrange(ls@[0].0 as int, ls@[0].1 as int));
    }
    if !range_eq(&v, a, b, &dashes) {
        return None;
    }
    let ghost rest = lp.drop_first();
    let mut aliases: Vec<String> = Vec::new();
    let mut collecting = false;
    let mut done = false;
    let mut i: usize = 1;
    assert(rest.take(0) == Seq::<Seq<char>>::empty());
    assert(aliases.deep_view() =~= Seq::<Seq<char>>::empty());
    while i < ls.len() && !done
        invariant
            v@ == content@,
            lp == pieces(v@, ls@),
            lp == lines(v@),
            rest == lp.drop_first(),
            ranges_within(ls@, v@.len() as int),
            1 <= i <= ls@.len(),
            dashes@ == "---"@,
            alias_key@ == "alias:"@,
            aliases_key@ == "aliases:"@,
            dash@ == "-"@,
            alias_scan(rest.take(i - 1)) == (done, collecting, aliases.deep_view()),
        decreases ls@.len() - i,
    {
        assert(ls@[i as int].0 <= ls@[i as int].1 <= v@.len());
        let (a, b) = trim_range(&v, ls[i].0, ls[i].1, Pat::Ws);
        let ghost line = lp[i as int];
        let ghost t = v@.subrange(a as int, b as int);
        proof {
            assert(line == v@.subrange(ls@[i as int].0 as int, ls@[i as int].1 as int));
            assert(t == trim_ws(line));
            assert(rest.take(i as int).drop_last() == rest.take(i - 1));
            assert(rest.take(i as int).last() == line);
            assert(alias_scan(rest.take(i as int)) == alias_step(alias_scan(rest.take(i - 1)), line));
        }
        if range_eq(&v, a, b, &dashes) {
            done = true;
        } else if range_starts_with(&v, a, b, &alias_key) {
            collecting = false;
            proof {
                assert(t.skip(alias_key@.len() as int) == v@.subrange(a + alias_key@.len(), b as int));
            }
            collect_alias_range(&v, a + alias_key.len(), b, &mut aliases);
        } else if range_starts_with(&v, a, b, &aliases_key) {
            collecting = true;
            proof {
                assert(t.skip(aliases_key@.len() as int) == v@.subrange(a + aliases_key@.len(), b as int));
            }
            collect_alias_range(&v, a + aliases_key.len(), b, &mut aliases);
        } else if collecting {
            if range_starts_with(&v, a, b, &dash) {
                proof {
                    assert(t.skip(dash@.len() as int) == v@.subrange(a + dash@.len(), b as int));
                }
                collect_alias_range(&v, a + dash.len(), b, &mut aliases);
            } else if a < b {
                collecting = false;
            }
        }
        i += 1;
    }
    proof {
        if done {
            lemma_alias_scan_done(rest, i - 1);
        } else {
            assert(rest.take(i - 1) == rest);
        }
    }
    if aliases.len() == 0 {
        None
    } else {
        Some(join_strings(&aliases, " "))
    }
}

// ---------------------------------------------------------------------------
// Title
// ---------------------------------------------------------------------------
/// The title that one line gives: a line that starts with `#` (after
/// whitespace) gives the text after its leading `#`s, trimmed, if that is
/// not empty.
pub open spec fn heading_title(line: Seq<char>) -> Option<Seq<char>> {
    let t = trim_ws(line);
    if t.len() > 0 && t[0] == '#' {
        let title = trim_ws(trim_start(t, Pat::Ch('#')));
        if title.len() > 0 {
            Some(title)
        } else {
            None
        }
    } else {
        None
    }
}

/// The title of the first line that gives one.
pub open spec fn first_heading(ls: Seq<Seq<char>>) -> Option<Seq<char>>
    decreases ls.len(),
{
    if ls.len() == 0 {
        None
    } else {
        match heading_title(ls[0]) {
            Some(t) => Some(t),
            None => first_heading(ls.drop_first()),
        }
    }
}

/// The title of a Markdown document: that of its first heading line.
pub open spec fn markdown_title(content: Seq<char>) -> Option<Seq<char>> {
    first_heading(lines(content))
}

/// The title of a Markdown document: the text of its first heading.
pub fn extract_markdown_title(content: &str) -> (r: Option<String>)
    ensures
        r.deep_view() == markdown_title(content@),
{
    let v = chars_of(content);
    let ls = split_lines(&v);
    let ghost lp = pieces(v@, ls@);
    let mut i: usize = 0;
    assert(lp.skip(0) == lp);
    while i < ls.len()
        invariant
            v@ == content@,
            lp == pieces(v@, ls@),
            lp == lines(v@),
            ranges_within(ls@, v@.len() as int),
            i <= ls@.len(),
            first_heading(lp) == first_heading(lp.skip(i as int)),
        decreases ls@.len() - i,
    {
        assert(ls@[i as int].0 <= ls@[i as int].1 <= v@.len());
        let (a, b) = trim_range(&v, ls[i].0, ls[i].1, Pat::Ws);
        let ghost line = lp[i as int];
        let ghost t = v@.subrange(a as int, b as int);
        proof {
            assert(line == v@.subrange(ls@[i as int].0 as int, ls@[i as int].1 as int));
            assert(t == trim_ws(line));
            assert(lp.skip(i as int)[0] == line);
            assert(lp.skip(i as int).drop_first() == lp.skip(i + 1));
        }
        if a < b && v[a] == '#' {
            let s0 = trim_start_range(&v, a, b, Pat::Ch('#'));
            let (s1, e1) = trim_range(&v, s0, b, Pat::Ws);
            if s1 < e1 {
                return Some(string_of_range(&v, s1, e1));
            }
        }
        i += 1;
    }
    proof {
        assert(lp.skip(ls@.len() as int) =~= Seq::<Seq<char>>::empty());
    }
    None
}

/// Lines that give no title are passed over.
proof fn lemma_first_heading_skips(l1: Seq<Seq<char>>, l2: Seq<Seq<char>>)
    requires
        forall|i: int| 0 <= i < l1.len() ==> (#[trigger] heading_title(l1[i])) is None,
    ensures
        first_heading(l1 + l2) == first_heading(l2),
    decreases l1.len(),
{
    if l1.len() > 0 {
        assert(heading_title(l1[0]) is None);
        assert((l1 + l2)[0] == l1[0]);
        assert((l1 + l2).drop_first() == l1.drop_first() + l2);
        assert forall|i: int| 0 <= i < l1.drop_first().len() implies (#[trigger] heading_title(
            l1.drop_first()[i],
        )) is None by {
            assert(l1.drop_first()[i] == l1[i + 1]);
        }
        lemma_first_heading_skips(l1.drop_first(), l2);
    } else {
        assert(l1 + l2 == l2);
    }
}

/// `first_heading` is the title of the first line that gives one.
proof fn lemma_first_heading_is_first(ls: Seq<Seq<char>>)
    ensures
        first_heading(ls) matches Some(t) ==> exists|i: int|
            0 <= i < ls.len() && #[trigger] heading_title(ls[i]) == Some(t) && forall|j: int|
                0 <= j < i ==> (#[trigger] heading_title(ls[j])) is None,
        first_heading(ls) is None ==> forall|i: int|
            0 <= i < ls.len() ==> (#[trigger] heading_title(ls[i])) is None,
    decreases ls.len(),
{
    if ls.len() > 0 {
        let tail = ls.drop_first();
        lemma_first_heading_is_first(tail);
        if heading_title(ls[0]) is None {
            if first_heading(ls) is Some {
                let t = first_heading(ls)->0;
                let i = choose|i: int|
                    0 <= i < tail.len() && #[trigger] heading_title(tail[i]) == Some(t) && forall|j: int|
                        0 <= j < i ==> (#[trigger] heading_title(tail[j])) is None;
                assert(tail[i] == ls[i + 1]);
                assert forall|j: int| 0 <= j < i + 1 implies (#[trigger] heading_title(ls[j])) is None by {
                    if j > 0 {
                        assert(ls[j] == tail[j - 1]);
                    }
                }
                assert(heading_title(ls[i + 1]) == Some(t));
            } else {
                assert forall|i: int| 0 <= i < ls.len() implies (#[trigger] heading_title(ls[i])) is None by {
                    if i > 0 {
                        assert(ls[i] == tail[i - 1]);
                    }
                }
            }
        } else {
            assert(heading_title(ls[0]) == first_heading(ls));
        }
    }
}

/// The title of a Markdown document is that of its first line that gives
/// one, whatever lines (blank lines, frontmatter, text) come before it; a
/// document none of whose lines gives a title has none.
pub proof fn lemma_title_is_first_heading_line(content: Seq<char>)
    ensures
        markdown_title(content) matches Some(t) ==> exists|i: int|
            0 <= i < lines(content).len() && #[trigger] heading_title(lines(content)[i]) == Some(t)
                && forall|j: int|
                0 <= j < i ==> (#[trigger] heading_title(lines(content)[j])) is None,
        markdown_title(content) is None ==> forall|i: int|
            0 <= i < lines(content).len() ==> (#[trigger] heading_title(lines(content)[i])) is None,
{
    lemma_first_heading_is_first(lines(content));
}

/// Lines that give no title do not change the title: a document made of a
/// part `a` none of whose lines gives a title, a line break, and the rest
/// `b` has the title of `b`.
pub proof fn lemma_title_skips_lines_without_heading(a: Seq<char>, b: Seq<char>)
    requires
        forall|i: int|
            0 <= i < lines(a + seq!['\n']).len() ==> (#[trigger] heading_title(
                lines(a + seq!['\n'])[i],
            )) is None,
    ensures
        markdown_title(a + seq!['\n'] + b) == markdown_title(b),
{
    lemma_lines_after_break(a, b);
    lemma_first_heading_skips(lines(a + seq!['\n']), lines(b));
}

// ---------------------------------------------------------------------------
// URL shortcuts
// ---------------------------------------------------------------------------
/// The target of a URL shortcut: the rest of its first line that starts
/// with `URL=`, trimmed.
pub open spec fn url_target(ls: Seq<Seq<char>>) -> Option<Seq<char>>
    decreases ls.len(),
{
    if ls.len() == 0 {
        None
    } else if starts_with(ls[0], "URL="@) {
        Some(trim_ws(ls[0].skip("URL="@.len() as int)))
    } else {
        url_target(ls.drop_first())
    }
}

/// The target of a URL shortcut, given the lines read from it before a read
/// failed (`read_error`) or the file ended: a target among those lines is
/// found; otherwise the failure, if any, is the result.
pub fn extract_url_target(lines: &Vec<String>, read_error: Option<std::io::Error>) -> (r: Result<
    Option<String>,
    AppError,
>)
    ensures
        url_target(lines.deep_view()) is Some ==> (r matches Ok(Some(t)) && Some(t@) == url_target(
            lines.deep_view(),
        )),
        url_target(lines.deep_view()) is None ==> (match read_error {
            Some(e) => r == Err::<Option<String>, AppError>(AppError::Io(e)),
            None => r matches Ok(None),
        }),
{
    let key = chars_of("URL=");
    let ghost ls = lines.deep_view();
    let mut i: usize = 0;
    assert(ls.skip(0) == ls);
    while i < lines.len()
        invariant
            ls == lines.deep_view(),
            key@ == "URL="@,
            i <= lines@.len(),
            url_target(ls) == url_target(ls.skip(i as int)),
        decreases lines@.len() - i,
    {
        let v = chars_of(lines[i].as_str());
        proof {
            assert(ls[i as int] == v@);
            assert(ls.skip(i as int)[0] == v@);
            assert(ls.skip(i as int).drop_first() == ls.skip(i + 1));
            assert(v@.subrange(0, v@.len() as int) == v@);
        }
        if range_starts_with(&v, 0, v.len(), &key) {
            let (a, b) = trim_range(&v, key.len(), v.len(), Pat::Ws);
            proof {
                assert(v@.skip(key@.len() as int) == v@.subrange(key@.len() as int, v@.len() as int));
            }
            return Ok(Some(string_of_range(&v, a, b)));
        }
        i += 1;
    }
    proof {
        assert(ls.skip(lines@.len() as int) =~= Seq::<Seq<char>>::empty());
    }
    match read_error {
        Some(e) => Err(AppError::Io(e)),
        None => Ok(None),
    }
}

// ---------------------------------------------------------------------------
// File kinds
// ---------------------------------------------------------------------------
/// The extensions of plain-text files.
pub open spec fn is_text_ext(e: Seq<char>) -> bool {
    ||| e == "txt"@
    ||| e == "html"@
    ||| e == "htm"@
    ||| e == "json"@
    ||| e == "xml"@
    ||| e == "yaml"@
    ||| e == "yml"@
    ||| e == "csv"@
    ||| e == "log"@
}

/// Is `extension` (in lower case) that of a plain-text file?
pub fn is_text_extension(extension: &str) -> (r: bool)
    ensures
        r == is_text_ext(extension@),
{
    str_eq(extension, "txt") || str_eq(extension, "html") || str_eq(extension, "htm") || str_eq(
        extension,
        "json",
    ) || str_eq(extension, "xml") || str_eq(extension, "yaml") || str_eq(extension, "yml")
        || str_eq(extension, "csv") || str_eq(extension, "log")
}

/// The kind of a file with the given lower-case extension, if it is indexed.
pub open spec fn kind_of_extension(e: Seq<char>) -> Option<FileKind> {
    if e == "md"@ {
        Some(FileKind::Markdown)
    } else if e == "exe"@ {
        Some(FileKind::Executable)
    } else if e == "url"@ {
        Some(FileKind::Url)
    } else if is_text_ext(e) {
        Some(FileKind::Text)
    } else {
        None
    }
}

/// The kind of a file with the given extension, in any ASCII case.
pub fn file_kind_for_extension(extension: &str) -> (r: Option<FileKind>)
    ensures
        r == kind_of_extension(ascii_lower(extension@)),
{
    let lower = to_ascii_lowercase(extension);
    let e = lower.as_str();
    if str_eq(e, "md") {
        Some(FileKind::Markdown)
    } else if str_eq(e, "exe") {
        Some(FileKind::Executable)
    } else if str_eq(e, "url") {
        Some(FileKind::Url)
    } else if is_text_extension(e) {
        Some(FileKind::Text)
    } else {
        None
    }
}


/// Which files are indexed, by extension in any ASCII case: `md` files as
/// Markdown, `exe` files as executables, `url` files as URL shortcuts, and
/// `txt`, `html`, `htm`, `json`, `xml`, `yaml`, `yml`, `csv` and `log` files
/// as text; a file with any other extension is not indexed.
pub proof fn lemma_kinds_by_extension(e: Seq<char>)
    ensures
        ascii_lower(e) == "md"@ ==> kind_of_extension(ascii_lower(e)) == Some(FileKind::Markdown),
        ascii_lower(e) == "exe"@ ==> kind_of_extension(ascii_lower(e)) == Some(
            FileKind::Executable,
        ),
        ascii_lower(e) == "url"@ ==> kind_of_extension(ascii_lower(e)) == Some(FileKind::Url),
        ({
            let l = ascii_lower(e);
            l == "txt"@ || l == "html"@ || l == "htm"@ || l == "json"@ || l == "xml"@ || l
                == "yaml"@ || l == "yml"@ || l == "csv"@ || l == "log"@
        }) ==> kind_of_extension(ascii_lower(e)) == Some(FileKind::Text),
        kind_of_extension(ascii_lower(e)) is Some ==> ({
            let l = ascii_lower(e);
            l == "md"@ || l == "exe"@ || l == "url"@ || l == "txt"@ || l == "html"@ || l == "htm"@
                || l == "json"@ || l == "xml"@ || l == "yaml"@ || l == "yml"@ || l == "csv"@ || l
                == "log"@
        }),
{
    reveal_strlit("md");
    reveal_strlit("exe");
    reveal_strlit("url");
    reveal_strlit("txt");
    reveal_strlit("html");
    reveal_strlit("htm");
    reveal_strlit("json");
    reveal_strlit("xml");
    reveal_strlit("yaml");
    reveal_strlit("yml");
    reveal_strlit("csv");
    reveal_strlit("log");
    assert("exe"@ != "md"@) by {
        assert("exe"@.len() != "md"@.len());
    }
    assert("url"@ != "md"@) by {
        assert("url"@.len() != "md"@.len());
    }
    assert("url"@ != "exe"@) by {
        assert("url"@[0] != "exe"@[0]);
    }
    let l = ascii_lower(e);
    if l == "txt"@ || l == "html"@ || l == "htm"@ || l == "json"@ || l == "xml"@ || l == "yaml"@
        || l == "yml"@ || l == "csv"@ || l == "log"@ {
        assert(l[0] != 'm' && l[0] != 'e' && l[0] != 'u');
        assert(l != "md"@) by {
            assert("md"@[0] == 'm');
        }
        assert(l != "exe"@) by {
            assert("exe"@[0] == 'e');
        }
        assert(l != "url"@) by {
            assert("url"@[0] == 'u');
        }
    }
}

// ---------------------------------------------------------------------------
// Excluded directories
// ---------------------------------------------------------------------------
/// An entry below the workspace root is skipped when a component of its
/// path relative to the root equals an exclude pattern, ignoring ASCII case.
/// The root itself (depth 0), and an entry whose path is not below the root
/// (`relative` is `None`), are never skipped.
pub open spec fn skip_entry(
    depth: nat,
    relative: Option<Seq<Seq<char>>>,
    patterns: Seq<Seq<char>>,
) -> bool {
    &&& depth != 0
    &&& relative is Some
    &&& exists|i: int, j: int|
        0 <= i < relative->0.len() && 0 <= j < patterns.len() && #[trigger] eq_ignore_case(
            relative->0[i],
            patterns[j],
        )
}

/// Does any of `patterns` equal `name`, ignoring ASCII case?
fn matches_any_pattern(name: &str, patterns: &Vec<String>) -> (r: bool)
    ensures
        r == exists|j: int| 0 <= j < patterns@.len() && #[trigger] eq_ignore_case(name@, patterns@[j]@),
{
    let mut j: usize = 0;
    while j < patterns.len()
        invariant
            j <= patterns@.len(),
            forall|k: int| 0 <= k < j ==> !#[trigger] eq_ignore_case(name@, patterns@[k]@),
        decreases patterns@.len() - j,
    {
        if eq_ignore_ascii_case(patterns[j].as_str(), name) {
            proof {
                assert(ascii_lower(patterns@[j as int]@) == ascii_lower(name@));
                assert(eq_ignore_case(name@, patterns@[j as int]@));
            }
            return true;
        }
        proof {
            assert(!eq_ignore_case(name@, patterns@[j as int]@));
        }
        j += 1;
    }
    false
}

/// Is an entry at `depth` below the workspace root, with the path components
/// `relative` below the root, excluded from scanning?
pub fn should_skip_entry(
    depth: usize,
    relative: &Option<Vec<String>>,
    exclude_patterns: &Vec<String>,
) -> (r: bool)
    ensures
        r == skip_entry(depth as nat, relative.deep_view(), exclude_patterns.deep_view()),
{
    if depth == 0 {
        return false;
    }
    match relative {
        None => false,
        Some(components) => {
            let ghost cs = components.deep_view();
            let ghost ps = exclude_patterns.deep_view();
            let mut i: usize = 0;
            while i < components.len()
                invariant
                    cs == components.deep_view(),
                    ps == exclude_patterns.deep_view(),
                    relative.deep_view() == Some(cs),
                    depth != 0,
                    i <= components@.len(),
                    forall|a: int, b: int|
                        0 <= a < i && 0 <= b < ps.len() ==> !#[trigger] eq_ignore_case(
                            cs[a],
                            ps[b],
                        ),
                decreases components@.len() - i,
            {
                if matches_any_pattern(components[i].as_str(), exclude_patterns) {
                    proof {
                        let j = choose|j: int|
                            0 <= j < exclude_patterns@.len() && #[trigger] eq_ignore_case(
                                components@[i as int]@,
                                exclude_patterns@[j]@,
                            );
                        assert(cs[i as int] == components@[i as int]@);
                        assert(ps[j] == exclude_patterns@[j]@);
                        assert(eq_ignore_case(cs[i as int], ps[j]));
                        assert(exists|a: int, b: int|
                            0 <= a < cs.len() && 0 <= b < ps.len() && #[trigger] eq_ignore_case(
                                cs[a],
                                ps[b],
                            ));
                        assert(Some(cs)->0 == cs);
                    }
                    return true;
                }
                proof {
                    assert forall|b: int| 0 <= b < ps.len() implies !#[trigger] eq_ignore_case(
                        cs[i as int],
                        ps[b],
                    ) by {
                        assert(cs[i as int] == components@[i as int]@);
                        assert(ps[b] == exclude_patterns@[b]@);
                    }
                }
                i += 1;
            }
            assert(relative.deep_view() == Some(cs));
            false
        },
    }
}


/// An entry below the workspace root is skipped exactly when one of its
/// components equals one of the patterns once both are in ASCII lower case;
/// a component that merely starts or ends with a pattern does not count.
/// The root itself and an entry not below it are never skipped.
pub proof fn lemma_skip_only_on_equal_component(
    depth: nat,
    components: Seq<Seq<char>>,
    patterns: Seq<Seq<char>>,
)
    ensures
        skip_entry(depth, Some(components), patterns) <==> (depth != 0 && exists|i: int, j: int|
            0 <= i < components.len() && 0 <= j < patterns.len() && ascii_lower(
                #[trigger] components[i],
            ) == ascii_lower(#[trigger] patterns[j])),
        !skip_entry(0, Some(components), patterns),
        !skip_entry(depth, None, patterns),
{
    if skip_entry(depth, Some(components), patterns) {
        let (i, j) = choose|i: int, j: int|
            0 <= i < components.len() && 0 <= j < patterns.len() && #[trigger] eq_ignore_case(
                components[i],
                patterns[j],
            );
        assert(ascii_lower(components[i]) == ascii_lower(patterns[j]));
    }
    if depth != 0 && exists|i: int, j: int|
        0 <= i < components.len() && 0 <= j < patterns.len() && ascii_lower(
            #[trigger] components[i],
        ) == ascii_lower(#[trigger] patterns[j]) {
        let (i, j) = choose|i: int, j: int|
            0 <= i < components.len() && 0 <= j < patterns.len() && ascii_lower(
                #[trigger] components[i],
            ) == ascii_lower(#[trigger] patterns[j]);
        assert(eq_ignore_case(components[i], patterns[j]));
        assert(Some(components)->0 == components);
    }
}

// ---------------------------------------------------------------------------
// File records
// ---------------------------------------------------------------------------
/// What was read from a file: the whole text (Markdown and text files), the
/// lines read before the end or before a read failed (URL shortcuts), or
/// nothing (executables).
pub enum FileBody {
    Text(String),
    Lines(Vec<String>, Option<std::io::Error>),
    Unread,
}

/// The whole text that was read, if any.
pub open spec fn body_text(b: FileBody) -> Option<Seq<char>> {
    match b {
        FileBody::Text(c) => Some(c@),
        _ => None,
    }
}

/// The lines that were read, if any.
pub open spec fn body_lines(b: FileBody) -> Option<Seq<Seq<char>>> {
    match b {
        FileBody::Lines(ls, _) => Some(ls.deep_view()),
        _ => None,
    }
}

/// Did reading the lines fail before the end?
pub open spec fn body_failed(b: FileBody) -> bool {
    match b {
        FileBody::Lines(_, e) => e is Some,
        _ => false,
    }
}

/// The read failure that ended the lines, if any.
pub open spec fn body_error(b: FileBody) -> Option<std::io::Error> {
    match b {
        FileBody::Lines(_, e) => e,
        _ => None,
    }
}

/// The alias of a file of kind `k` with text `text`.
pub open spec fn alias_of(k: FileKind, text: Option<Seq<char>>) -> Option<Seq<char>> {
    if k == FileKind::Markdown && text is Some {
        markdown_alias(text->0)
    } else {
        None
    }
}

/// The title of a file: the first heading of a Markdown text, else the file name.
pub open spec fn title_of(k: FileKind, text: Option<Seq<char>>, name: Seq<char>) -> Option<
    Seq<char>,
> {
    if k == FileKind::Markdown && text is Some && markdown_title(text->0) is Some {
        markdown_title(text->0)
    } else {
        Some(name)
    }
}

/// The indexed text of a file: that of Markdown and text files only.
pub open spec fn content_of(k: FileKind, text: Option<Seq<char>>) -> Option<Seq<char>> {
    if k == FileKind::Markdown || k == FileKind::Text {
        text
    } else {
        None
    }
}

/// The target of a file: that of a URL shortcut only.
pub open spec fn target_of(k: FileKind, ls: Option<Seq<Seq<char>>>) -> Option<Seq<char>> {
    if k == FileKind::Url && ls is Some {
        url_target(ls->0)
    } else {
        None
    }
}

/// `f` is the record of the file at `path` of kind `k` in `ws`.
pub open spec fn is_record_of(
    f: IndexedFile,
    ws: WorkspaceConfig,
    path: Seq<char>,
    name: Seq<char>,
    ext: Seq<char>,
    k: FileKind,
    size: i64,
    modified_at: i64,
    body: FileBody,
) -> bool {
    &&& f.workspace_id@ == ws.id@
    &&& f.workspace_kind == ws.kind
    &&& f.file_kind == k
    &&& f.path@ == path
    &&& f.file_name@ == name
    &&& f.extension@ == ext
    &&& f.size == size
    &&& f.modified_at == modified_at
    &&& f.alias.deep_view() == alias_of(k, body_text(body))
    &&& f.title.deep_view() == title_of(k, body_text(body), name)
    &&& f.content.deep_view() == content_of(k, body_text(body))
    &&& f.target_url.deep_view() == target_of(k, body_lines(body))
}

/// `r` is what parsing gives for the file at `path`, named `name`, with
/// extension `extension`, size `size`, modification time `modified_at` and
/// the contents `body`: nothing for an extension that is not indexed; the
/// read failure where the lines of a URL shortcut hold no target and reading
/// them failed; otherwise the file's record.
pub open spec fn parse_result_fits(
    r: Result<Option<IndexedFile>, AppError>,
    ws: WorkspaceConfig,
    path: Seq<char>,
    name: Seq<char>,
    extension: Seq<char>,
    size: i64,
    modified_at: i64,
    body: FileBody,
) -> bool {
    let ext = ascii_lower(extension);
    match kind_of_extension(ext) {
        None => r matches Ok(None),
        Some(k) => if k == FileKind::Url && body_lines(body) is Some && url_target(
            body_lines(body)->0,
        ) is None && body_failed(body) {
            r == Err::<Option<IndexedFile>, AppError>(AppError::Io(body_error(body)->0))
        } else {
            r matches Ok(Some(f)) && is_record_of(
                f,
                ws,
                path,
                name,
                ext,
                k,
                size,
                modified_at,
                body,
            )
        },
    }
}

/// The record of a supported file, built from what was read of it: `None`
/// for an extension that is not indexed; an error only where the lines of
/// a URL shortcut hold no target and reading them failed.
pub fn parse_supported_file(
    workspace: &WorkspaceConfig,
    path: &str,
    file_name: &str,
    extension: &str,
    size: i64,
    modified_at: i64,
    body: FileBody,
) -> (r: Result<Option<IndexedFile>, AppError>)
    ensures
        parse_result_fits(r, *workspace, path@, file_name@, extension@, size, modified_at, body),
{
    let ghost body0 = body;
    let lower = to_ascii_lowercase(extension);
    let kind = match file_kind_for_extension(extension) {
        Some(k) => k,
        None => return Ok(None),
    };
    let name = String::from_str(file_name);
    let mut alias: Option<String> = None;
    let mut title: Option<String> = Some(name.clone());
    let mut content: Option<String> = None;
    let mut target_url: Option<String> = None;
    match body {
        FileBody::Text(text) => {
            match kind {
                FileKind::Markdown => {
                    alias = extract_markdown_alias(text.as_str());
                    match extract_markdown_title(text.as_str()) {
                        Some(t) => {
                            title = Some(t);
                        },
                        None => {},
                    }
                    content = Some(text);
                },
                FileKind::Text => {
                    content = Some(text);
                },
                _ => {},
            }
        },
        FileBody::Lines(ls, read_error) => {
            match kind {
                FileKind::Url => {
                    target_url = extract_url_target(&ls, read_error)?;
                },
                _ => {},
            }
        },
        FileBody::Unread => {},
    }
    let file = IndexedFile {
        workspace_id: workspace.id.clone(),
        workspace_kind: workspace.kind,
        file_kind: kind,
        path: String::from_str(path),
        file_name: name,
        extension: lower,
        alias,
        title,
        content,
        target_url,
        size,
        modified_at,
    };
    Ok(Some(file))
}

/// The kind of the file at `path`, by its extension as `Path::extension`
/// reads it (in any ASCII case): `None` for a file that is not indexed.
pub fn file_kind_at(path: &str) -> (r: Option<FileKind>)
    ensures
        exists|e: Option<Seq<char>>|
            #[trigger] extension_fits(path@, e) && r == kind_of_extension(ascii_lower(or_empty(e))),
        portable_path(path@) ==> r == kind_of_extension(
            ascii_lower(or_empty(portable_extension(path@))),
        ),
        plain_path(path@) ==> r == kind_of_extension(
            ascii_lower(or_empty(extension_of_name(after_last(path@, '/')))),
        ),
{
    let e = path_extension(path);
    let ghost ev = e.deep_view();
    let extension = text_or_empty(e);
    let r = file_kind_for_extension(extension.as_str());
    assert(extension_fits(path@, ev) && r == kind_of_extension(ascii_lower(or_empty(ev))));
    r
}

/// The record of the supported file at `path`, built from what was read of
/// it, with its name and extension as `Path::file_name` and
/// `Path::extension` read them (empty where the path has none).
pub fn parse_supported_file_at(
    workspace: &WorkspaceConfig,
    path: &str,
    size: i64,
    modified_at: i64,
    body: FileBody,
) -> (r: Result<Option<IndexedFile>, AppError>)
    ensures
        exists|f: Option<Seq<char>>, e: Option<Seq<char>>|
            #![trigger file_name_fits(path@, f), extension_fits(path@, e)]
            file_name_fits(path@, f) && extension_fits(path@, e) && parse_result_fits(
                r,
                *workspace,
                path@,
                or_empty(f),
                or_empty(e),
                size,
                modified_at,
                body,
            ),
        portable_path(path@) ==> parse_result_fits(
            r,
            *workspace,
            path@,
            or_empty(portable_file_name(path@)),
            or_empty(portable_extension(path@)),
            size,
            modified_at,
            body,
        ),
        plain_path(path@) ==> parse_result_fits(
            r,
            *workspace,
            path@,
            after_last(path@, '/'),
            or_empty(extension_of_name(after_last(path@, '/'))),
            size,
            modified_at,
            body,
        ),
{
    let f = path_file_name(path);
    let e = path_extension(path);
    let ghost fv = f.deep_view();
    let ghost ev = e.deep_view();
    let name = text_or_empty(f);
    let extension = text_or_empty(e);
    let r = parse_supported_file(
        workspace,
        path,
        name.as_str(),
        extension.as_str(),
        size,
        modified_at,
        body,
    );
    assert(file_name_fits(path@, fv) && extension_fits(path@, ev));
    r
}

} // verus!
