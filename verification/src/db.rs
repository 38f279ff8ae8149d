//! The schema of the index database and the decision of its one migration.
use vstd::prelude::*;

use crate::text::str_eq;

verus! {

/// The table of indexed files and its indexes.
pub const SCHEMA_SQL: &'static str = "
CREATE TABLE IF NOT EXISTS files (
    id INTEGER PRIMARY KEY,
    workspace_id TEXT NOT NULL,
    path TEXT NOT NULL UNIQUE,
    file_name TEXT NOT NULL,
    extension TEXT NOT NULL,
    file_kind TEXT NOT NULL,
    workspace_kind TEXT NOT NULL,
    alias TEXT,
    title TEXT,
    content TEXT,
    target_url TEXT,
    size INTEGER NOT NULL DEFAULT 0,
    modified_at INTEGER NOT NULL DEFAULT 0,
    indexed_at INTEGER NOT NULL DEFAULT 0
);

CREATE INDEX IF NOT EXISTS idx_files_workspace_id ON files(workspace_id);
CREATE INDEX IF NOT EXISTS idx_files_kind ON files(file_kind);
CREATE INDEX IF NOT EXISTS idx_files_name ON files(file_name);
";

/// Lists the columns of the `files` table.
pub const TABLE_INFO_SQL: &'static str = "PRAGMA table_info(files)";

/// Adds the alias column to a table created before it existed.
pub const ADD_ALIAS_COLUMN_SQL: &'static str = "ALTER TABLE files ADD COLUMN alias TEXT";

/// Recreates the full-text table over alias, file name, title and content.
pub const RECREATE_FTS_SQL: &'static str = "
DROP TABLE IF EXISTS files_fts;

CREATE VIRTUAL TABLE files_fts USING fts5(
    alias,
    file_name,
    title,
    content
);
";

/// Reads the searchable columns of every file, to refill the full-text table.
pub const SELECT_FTS_SOURCE_SQL: &'static str = "SELECT id, alias, file_name, title, content FROM files";

/// Inserts the searchable columns of one file into the full-text table.
pub const INSERT_FTS_SQL: &'static str =
    "INSERT INTO files_fts(rowid, alias, file_name, title, content) VALUES (?1, ?2, ?3, ?4, ?5)";

/// Marks the schema version.
pub const SCHEMA_VERSION_SQL: &'static str = "PRAGMA user_version = 2;";

/// The connection settings: write-ahead log, foreign keys, normal sync and
/// in-memory temporary storage.
pub const CONNECTION_PRAGMAS_SQL: &'static str = "
PRAGMA journal_mode = WAL;
PRAGMA foreign_keys = ON;
PRAGMA synchronous = NORMAL;
PRAGMA temp_store = MEMORY;
";

/// Does a `files` table with the given column names lack the alias column?
pub fn needs_alias_column(columns: &Vec<String>) -> (r: bool)
    ensures
        r == !columns.deep_view().contains("alias"@),
{
    let ghost cs = columns.deep_view();
    let mut i: usize = 0;
    while i < columns.len()
        invariant
            cs == columns.deep_view(),
            i <= cs.len(),
            forall|j: int| 0 <= j < i ==> cs[j] != "alias"@,
        decreases cs.len() - i,
    {
        if str_eq(columns[i].as_str(), "alias") {
            assert(cs[i as int] == "alias"@);
            return false;
        }
        i += 1;
    }
    proof {
        assert(!cs.contains("alias"@)) by {
            if cs.contains("alias"@) {
                let j = choose|j: int| 0 <= j < cs.len() && cs[j] == "alias"@;
                assert(cs[j] != "alias"@);
            }
        }
    }
    true
}

} // verus!
