//! The full-text query that a search runs, and the answer to a preview
//! request.
use vstd::prelude::*;

use crate::clock::{clock_millis, seconds_from};
#[allow(unused_imports)]
use crate::clock::seconds_of;
use crate::error::AppError;
use crate::models::{FilePreviewDto, WorkspaceConfig, AppConfig};
use crate::text::{chars_of, join_strings, split_words};
#[allow(unused_imports)]
use crate::text::{
    join, lemma_trim_empty_iff_no_words, lemma_words_concat, pieces, ranges_within, trim_ws, words,
};

verus! {

/// Removes the full-text rows of a workspace's files.
pub const DELETE_WORKSPACE_FTS_SQL: &'static str =
    "DELETE FROM files_fts WHERE rowid IN (SELECT id FROM files WHERE workspace_id = ?1)";

/// Removes the file rows of a workspace.
pub const DELETE_WORKSPACE_FILES_SQL: &'static str = "DELETE FROM files WHERE workspace_id = ?1";

/// Finds the row of a path.
pub const SELECT_ID_BY_PATH_SQL: &'static str = "SELECT id FROM files WHERE path = ?1";

/// Removes the full-text row of a file.
pub const DELETE_FTS_BY_ROWID_SQL: &'static str = "DELETE FROM files_fts WHERE rowid = ?1";

/// Removes the row of a file.
pub const DELETE_FILE_BY_ID_SQL: &'static str = "DELETE FROM files WHERE id = ?1";

/// Inserts the row of a file, or updates the row that has its path.
pub const UPSERT_FILE_SQL: &'static str = "
INSERT INTO files (
    workspace_id, path, file_name, extension, file_kind, workspace_kind,
    alias, title, content, target_url, size, modified_at, indexed_at
) VALUES (?1, ?2, ?3, ?4, ?5, ?6, ?7, ?8, ?9, ?10, ?11, ?12, ?13)
ON CONFLICT(path) DO UPDATE SET
    workspace_id = excluded.workspace_id,
    file_name = excluded.file_name,
    extension = excluded.extension,
    file_kind = excluded.file_kind,
    workspace_kind = excluded.workspace_kind,
    alias = excluded.alias,
    title = excluded.title,
    content = excluded.content,
    target_url = excluded.target_url,
    size = excluded.size,
    modified_at = excluded.modified_at,
    indexed_at = excluded.indexed_at
";

/// The search: full-text matches ranked by BM25 with the weights alias 10,
/// file name 7, title 4 and content 1, best first, ties broken by the most
/// recent modification; at most `?2` rows.
pub const SEARCH_SQL: &'static str = "
SELECT
    files.path,
    files.file_name,
    files.alias,
    files.title,
    files.file_kind,
    files.workspace_kind,
    files.target_url,
    bm25(files_fts, 10.0, 7.0, 4.0, 1.0) AS score
FROM files_fts
JOIN files ON files.id = files_fts.rowid
WHERE files_fts MATCH ?1
ORDER BY score, files.modified_at DESC
LIMIT ?2
";

/// The preview record of a Markdown or text file at a path.
pub const READ_PREVIEW_SQL: &'static str = "
SELECT path, file_name, alias, title, file_kind, workspace_kind, target_url, content
FROM files
WHERE path = ?1 AND file_kind IN ('markdown', 'text')
";

/// `w` with every `"` replaced by a space.
pub open spec fn unquote(w: Seq<char>) -> Seq<char> {
    w.map_values(|c: char| if c == '"' { ' ' } else { c })
}

/// One search term: a quoted prefix query.
pub open spec fn fts_term(w: Seq<char>) -> Seq<char> {
    "\""@ + unquote(w) + "\"*"@
}

/// The full-text query for a keyword: each whitespace-separated word as a
/// quoted prefix term, all terms required.
pub open spec fn fts_query(keyword: Seq<char>) -> Seq<char> {
    join(words(keyword).map_values(|w: Seq<char>| fts_term(w)), " AND "@)
}

fn fts_term_of(v: &Vec<char>, lo: usize, hi: usize) -> (out: String)
    requires
        lo <= hi <= v@.len(),
    ensures
        out@ == fts_term(v@.subrange(lo as int, hi as int)),
{
    let mut out = String::from_str("\"");
    let ghost start = out@;
    let mut i = lo;
    while i < hi
        invariant
            lo <= i <= hi <= v@.len(),
            start == "\""@,
            out@ == start + unquote(v@.subrange(lo as int, i as int)),
        decreases hi - i,
    {
        let c = v[i];
        if c == '"' {
            out.push(' ');
        } else {
            out.push(c);
        }
        proof {
            assert(unquote(v@.subrange(lo as int, i + 1)) =~= unquote(
                v@.subrange(lo as int, i as int),
            ).push(if c == '"' { ' ' } else { c }));
        }
        i += 1;
    }
    out.append("\"*");
    out
}

/// The full-text query for a search keyword.
pub fn build_fts_query(keyword: &str) -> (q: String)
    ensures
        q@ == fts_query(keyword@),
{
    let v = chars_of(keyword);
    let ws = split_words(&v);
    let ghost wp = pieces(v@, ws@);
    let mut terms: Vec<String> = Vec::new();
    let mut i: usize = 0;
    while i < ws.len()
        invariant
            v@ == keyword@,
            wp == pieces(v@, ws@),
            wp == words(v@),
            ranges_within(ws@, v@.len() as int),
            i <= ws@.len(),
            terms.deep_view() == wp.take(i as int).map_values(|w: Seq<char>| fts_term(w)),
        decreases ws@.len() - i,
    {
        assert(ranges_within(ws@, v@.len() as int));
        assert(ws@[i as int].0 <= ws@[i as int].1 <= v@.len());
        let t = fts_term_of(&v, ws[i].0, ws[i].1);
        let ghost before = terms.deep_view();
        terms.push(t);
        proof {
            assert(wp[i as int] == v@.subrange(ws@[i as int].0 as int, ws@[i as int].1 as int));
            assert(terms.deep_view() =~= before.push(t@));
            assert(wp.take(i + 1).map_values(|w: Seq<char>| fts_term(w)) =~= wp.take(
                i as int,
            ).map_values(|w: Seq<char>| fts_term(w)).push(fts_term(wp[i as int])));
        }
        i += 1;
    }
    assert(wp.take(ws@.len() as int) == wp);
    join_strings(&terms, " AND ")
}

/// The current time in whole seconds since the Unix epoch, or 0 if the
/// system clock is set before the epoch.
pub fn current_unix_ts() -> (ts: i64)
    ensures
        exists|reading: Option<u128>| ts == #[trigger] seconds_of(reading),
{
    seconds_from(clock_millis())
}

/// The message of a preview request for a file that the index holds no
/// previewable record of.
pub open spec fn no_preview_message() -> Seq<char> {
    "未找到可预览的文件"@
}

/// The answer to a preview request, given the record that the lookup found,
/// if any.
pub fn read_preview(found: Option<FilePreviewDto>) -> (r: Result<FilePreviewDto, AppError>)
    ensures
        found is Some ==> r == Ok::<FilePreviewDto, AppError>(found->0),
        found is None ==> (r matches Err(AppError::Message(m)) && m@ == no_preview_message()),
{
    match found {
        Some(p) => Ok(p),
        None => Err(AppError::message_str("未找到可预览的文件")),
    }
}

/// The workspaces that are scanned into the index: the enabled ones, in
/// configuration order.
pub open spec fn enabled_workspaces(ws: Seq<WorkspaceConfig>) -> Seq<WorkspaceConfig> {
    ws.filter(|w: WorkspaceConfig| w.enabled)
}

/// The workspaces that are scanned into the index at start-up.
pub fn workspaces_to_index(config: &AppConfig) -> (out: Vec<WorkspaceConfig>)
    ensures
        out@ == enabled_workspaces(config.workspaces@),
{
    let mut out: Vec<WorkspaceConfig> = Vec::new();
    let mut i: usize = 0;
    while i < config.workspaces.len()
        invariant
            i <= config.workspaces@.len(),
            out@ == enabled_workspaces(config.workspaces@.take(i as int)),
        decreases config.workspaces@.len() - i,
    {
        let w = &config.workspaces[i];
        if w.enabled {
            out.push(w.clone());
        }
        proof {
            reveal_with_fuel(Seq::filter, 1);
            assert(config.workspaces@.take(i + 1).drop_last() == config.workspaces@.take(i as int));
        }
        i += 1;
    }
    assert(config.workspaces@.take(config.workspaces@.len() as int) == config.workspaces@);
    out
}

/// The query of a keyword is empty exactly when the keyword has no words.
pub proof fn lemma_query_empty_iff_no_words(keyword: Seq<char>)
    ensures
        fts_query(keyword).len() == 0 <==> words(keyword).len() == 0,
{
    let ts = words(keyword).map_values(|w: Seq<char>| fts_term(w));
    if ts.len() > 0 {
        reveal_strlit("\"*");
        assert(fts_term(words(keyword).last()).len() > 0);
        assert(ts.last() == fts_term(words(keyword).last()));
        lemma_join_nonempty(ts, " AND "@);
    }
}

proof fn lemma_join_nonempty(parts: Seq<Seq<char>>, sep: Seq<char>)
    requires
        parts.len() > 0,
        parts.last().len() > 0,
    ensures
        join(parts, sep).len() > 0,
{
    if parts.len() == 1 {
        assert(parts[0] == parts.last());
    }
}

/// Exactly the enabled workspaces are indexed.
pub proof fn lemma_only_enabled_indexed(ws: Seq<WorkspaceConfig>)
    ensures
        forall|i: int|
            0 <= i < enabled_workspaces(ws).len() ==> (#[trigger] enabled_workspaces(ws)[i]).enabled,
        forall|i: int| 0 <= i < ws.len() && ws[i].enabled ==> enabled_workspaces(ws).contains(#[trigger] ws[i]),
        forall|w: WorkspaceConfig| enabled_workspaces(ws).contains(w) ==> ws.contains(w),
{
    broadcast use vstd::seq_lib::group_filter_ensures;
    broadcast use vstd::seq::Seq::lemma_filter_contains_rev;
}

proof fn lemma_join_concat(xs: Seq<Seq<char>>, ys: Seq<Seq<char>>, sep: Seq<char>)
    requires
        xs.len() > 0,
        ys.len() > 0,
    ensures
        join(xs + ys, sep) == join(xs, sep) + sep + join(ys, sep),
    decreases ys.len(),
{
    let zs = xs + ys;
    if ys.len() == 1 {
        assert(zs.drop_last() =~= xs);
        assert(zs.last() == ys[0]);
    } else {
        assert(zs.drop_last() =~= xs + ys.drop_last());
        assert(zs.last() == ys.last());
        lemma_join_concat(xs, ys.drop_last(), sep);
        assert(join(zs, sep) =~= join(xs, sep) + sep + join(ys, sep));
    }
}

/// The query of two keywords joined by a space is the query of the first,
/// `AND`, and the query of the second, when neither keyword is blank.
pub proof fn lemma_query_of_two_parts(a: Seq<char>, b: Seq<char>)
    requires
        trim_ws(a).len() > 0,
        trim_ws(b).len() > 0,
    ensures
        fts_query(a + " "@ + b) == fts_query(a) + " AND "@ + fts_query(b),
{
    reveal_strlit(" ");
    assert(" "@ =~= seq![' ']);
    assert(a + " "@ + b =~= a.push(' ') + b);
    lemma_words_concat(a, ' ', b);
    lemma_trim_empty_iff_no_words(a);
    lemma_trim_empty_iff_no_words(b);
    let f = |w: Seq<char>| fts_term(w);
    assert((words(a) + words(b)).map_values(f) =~= words(a).map_values(f) + words(b).map_values(
        f,
    ));
    lemma_join_concat(words(a).map_values(f), words(b).map_values(f), " AND "@);
}

} // verus!
