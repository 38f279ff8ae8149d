//! What the front end's requests become before the index is consulted:
//! the search request, the preview key and the text of an error.
use vstd::prelude::*;

use crate::error::AppError;
use crate::indexer::build_fts_query;
#[allow(unused_imports)]
use crate::indexer::fts_query;
use crate::text::trim_to_string;
#[allow(unused_imports)]
use crate::text::{lemma_trim_empty_iff_no_words, lemma_trim_keeps_words, trim_ws, words};

verus! {

/// The number of results a search returns when the request names none.
pub const DEFAULT_SEARCH_LIMIT: u32 = 20;

/// A search to run against the index.
pub struct SearchRequest {
    pub query: String,
    pub limit: usize,
}

/// The search for `keyword`, trimmed, with at most `limit` results (20 by
/// default); none for a keyword that is empty or all whitespace.
pub fn search_request(keyword: &str, limit: Option<u32>) -> (r: Option<SearchRequest>)
    ensures
        trim_ws(keyword@).len() == 0 <==> r is None,
        r matches Some(q) ==> q.query@ == fts_query(trim_ws(keyword@)) && q.limit == match limit {
            Some(n) => n,
            None => DEFAULT_SEARCH_LIMIT,
        },
{
    let trimmed = trim_to_string(keyword);
    if trimmed.as_str().is_empty() {
        return None;
    }
    let query = build_fts_query(trimmed.as_str());
    let n = match limit {
        Some(n) => n,
        None => DEFAULT_SEARCH_LIMIT,
    };
    Some(SearchRequest { query, limit: n as usize })
}

/// A search ignores whitespace around the keyword.
pub proof fn lemma_search_ignores_surrounding_whitespace(keyword: Seq<char>)
    ensures
        fts_query(trim_ws(keyword)) == fts_query(keyword),
        trim_ws(keyword).len() == 0 <==> words(keyword).len() == 0,
{
    lemma_trim_keeps_words(keyword);
    lemma_trim_empty_iff_no_words(keyword);
}

/// The path that a preview request names: the request's text, trimmed.
pub fn preview_path(path: &str) -> (p: String)
    ensures
        p@ == trim_ws(path@),
{
    trim_to_string(path)
}

/// The text that the front end shows for an error.
pub fn to_message(error: AppError) -> (s: String)
    ensures
        error matches AppError::Message(m) ==> s@ == m@,
        crate::text::starts_with(s@, error.prefix()),
{
    error.describe()
}

} // verus!
