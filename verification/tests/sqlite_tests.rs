use doclinker::commands::search_request;
use doclinker::db::{INSERT_FTS_SQL, RECREATE_FTS_SQL, SCHEMA_SQL};
use doclinker::indexer::{
    DELETE_FILE_BY_ID_SQL, DELETE_FTS_BY_ROWID_SQL, READ_PREVIEW_SQL, SEARCH_SQL,
    SELECT_ID_BY_PATH_SQL, UPSERT_FILE_SQL,
};
use rusqlite::{Connection, OptionalExtension};

struct Row<'a> {
    path: &'a str,
    kind: &'a str,
    alias: Option<&'a str>,
    title: Option<&'a str>,
    content: Option<&'a str>,
    modified_at: i64,
}

fn open() -> Connection {
    let conn = Connection::open_in_memory().unwrap();
    conn.execute_batch(SCHEMA_SQL).unwrap();
    conn.execute_batch(RECREATE_FTS_SQL).unwrap();
    conn
}

fn insert(conn: &Connection, row: &Row) {
    let file_name = row.path.rsplit('/').next().unwrap();
    conn.execute(
        UPSERT_FILE_SQL,
        ("ws", row.path, file_name, "md", row.kind, "doc", row.alias, row.title, row.content, None::<String>, 1i64, row.modified_at, 0i64,),
    )
    .unwrap();
    let id: i64 = conn.query_row(SELECT_ID_BY_PATH_SQL, (row.path,), |r| r.get(0)).unwrap();
    conn.execute(DELETE_FTS_BY_ROWID_SQL, (id,)).unwrap();
    conn.execute(INSERT_FTS_SQL, (id, row.alias, file_name, row.title, row.content,)).unwrap();
}

fn search(conn: &Connection, keyword: &str) -> Vec<String> {
    let request = search_request(keyword, None).unwrap();
    let mut stmt = conn.prepare(SEARCH_SQL).unwrap();
    let rows = stmt
        .query_map((request.query, request.limit as i64,), |r| r.get::<_, String>(0))
        .unwrap();
    rows.map(|r| r.unwrap()).collect()
}

#[test]
fn ranking_prefers_alias_then_name_then_title_then_content() {
    let conn = open();
    let base = Row { path: "", kind: "markdown", alias: None, title: None, content: None, modified_at: 1 };
    insert(&conn, &Row { path: "/d/c.md", content: Some("kubernetes"), ..base });
    insert(&conn, &Row { path: "/d/t.md", title: Some("kubernetes"), ..base });
    insert(&conn, &Row { path: "/d/kubernetes.md", ..base });
    insert(&conn, &Row { path: "/d/a.md", alias: Some("kubernetes"), ..base });
    assert_eq!(search(&conn, "kube"), vec!["/d/a.md", "/d/kubernetes.md", "/d/t.md", "/d/c.md"]);
}

#[test]
fn equal_scores_rank_recent_first_and_all_words_are_required() {
    let conn = open();
    let base = Row { path: "", kind: "markdown", alias: None, title: None, content: None, modified_at: 1 };
    insert(&conn, &Row { path: "/d/old.md", content: Some("deploy guide"), modified_at: 10, ..base });
    insert(&conn, &Row { path: "/d/new.md", content: Some("deploy guide"), modified_at: 20, ..base });
    insert(&conn, &Row { path: "/d/other.md", content: Some("deploy only"), modified_at: 30, ..base });
    assert_eq!(search(&conn, "deploy guide"), vec!["/d/new.md", "/d/old.md"]);
    assert_eq!(search(&conn, " \"dep"), vec!["/d/other.md", "/d/new.md", "/d/old.md"]);
}

#[test]
fn upsert_replaces_and_delete_removes() {
    let conn = open();
    let base = Row { path: "/d/n.md", kind: "markdown", alias: None, title: None, content: Some("alpha"), modified_at: 1 };
    insert(&conn, &base);
    insert(&conn, &Row { content: Some("beta"), ..base });
    assert!(search(&conn, "alpha").is_empty());
    assert_eq!(search(&conn, "beta"), vec!["/d/n.md"]);
    let id: i64 = conn.query_row(SELECT_ID_BY_PATH_SQL, ("/d/n.md",), |r| r.get(0)).unwrap();
    conn.execute(DELETE_FTS_BY_ROWID_SQL, (id,)).unwrap();
    conn.execute(DELETE_FILE_BY_ID_SQL, (id,)).unwrap();
    assert!(search(&conn, "beta").is_empty());
}

#[test]
fn preview_only_for_markdown_and_text() {
    let conn = open();
    let base = Row { path: "/d/a.md", kind: "markdown", alias: None, title: None, content: Some("x"), modified_at: 1 };
    insert(&conn, &base);
    insert(&conn, &Row { path: "/d/t.exe", kind: "executable", content: None, ..base });
    let found = |path: &str| -> bool {
        conn.query_row(READ_PREVIEW_SQL, (path,), |r| r.get::<_, String>(0))
            .optional()
            .unwrap()
            .is_some()
    };
    assert!(found("/d/a.md"));
    assert!(!found("/d/t.exe"));
    assert!(!found("/d/missing.md"));
}
