use doclinker::commands::{preview_path, search_request, to_message, DEFAULT_SEARCH_LIMIT};
use doclinker::error::AppError;
use doclinker::indexer::{build_fts_query, current_unix_ts, read_preview, workspaces_to_index};
use doclinker::models::{AppConfig, FilePreviewDto, WorkspaceConfig, WorkspaceKind};

#[test]
fn fts_query_of_words() {
    assert_eq!(build_fts_query("deploy"), "\"deploy\"*");
    assert_eq!(build_fts_query("  deploy   guide "), "\"deploy\"* AND \"guide\"*");
    assert_eq!(build_fts_query("say\"hi\""), "\"say hi \"*");
    assert_eq!(build_fts_query("a\tb\u{3000}c"), "\"a\"* AND \"b\"* AND \"c\"*");
    assert_eq!(build_fts_query(""), "");
    assert_eq!(build_fts_query(" \n\t "), "");
}

#[test]
fn search_requests() {
    assert!(search_request("", None).is_none());
    assert!(search_request("   \t", Some(5)).is_none());
    let r = search_request("  notes ", None).unwrap();
    assert_eq!(r.query, "\"notes\"*");
    assert_eq!(r.limit, 20);
    assert_eq!(DEFAULT_SEARCH_LIMIT, 20);
    let r = search_request("a b", Some(3)).unwrap();
    assert_eq!(r.query, "\"a\"* AND \"b\"*");
    assert_eq!(r.limit, 3);
}

#[test]
fn preview_paths_are_trimmed() {
    assert_eq!(preview_path("  /docs/a.md \n"), "/docs/a.md");
}

#[test]
fn preview_found_or_missing() {
    let dto = FilePreviewDto {
        path: "/a.md".into(),
        file_name: "a.md".into(),
        alias: None,
        title: Some("A".into()),
        file_kind: "markdown".into(),
        workspace_kind: "doc".into(),
        target_url: None,
        content: Some("x".into()),
    };
    let got = read_preview(Some(dto)).unwrap();
    assert_eq!(got.path, "/a.md");
    let e = read_preview(None).unwrap_err();
    assert_eq!(to_message(e), "未找到可预览的文件");
}

#[test]
fn error_messages() {
    assert_eq!(to_message(AppError::message("boom".to_string())), "boom");
    let io = std::io::Error::new(std::io::ErrorKind::NotFound, "gone");
    assert_eq!(to_message(AppError::from(io)), "IO 错误: gone");
    let json = serde_json::from_str::<u32>("x").unwrap_err();
    assert!(to_message(AppError::from(json)).starts_with("JSON 错误: "));
    assert!(to_message(AppError::from(rusqlite::Error::InvalidQuery)).starts_with("SQLite 错误: "));
}

#[test]
fn only_enabled_workspaces_are_indexed() {
    let mut config = AppConfig::default();
    for (id, enabled) in [("a", true), ("b", false), ("c", true)] {
        config.workspaces.push(WorkspaceConfig {
            id: id.into(),
            name: id.into(),
            path: format!("/{id}"),
            kind: WorkspaceKind::Doc,
            enabled,
        });
    }
    let ids: Vec<String> = workspaces_to_index(&config).into_iter().map(|w| w.id).collect();
    assert_eq!(ids, vec!["a", "c"]);
}

#[test]
fn clock_is_after_epoch() {
    assert!(current_unix_ts() > 1_600_000_000);
}

#[test]
fn query_of_two_parts_joins_the_parts() {
    for (a, b) in [("deploy", "guide"), ("  x y", "\"z\" "), ("k8s", "\tnotes")] {
        assert_eq!(
            build_fts_query(&format!("{a} {b}")),
            format!("{} AND {}", build_fts_query(a), build_fts_query(b))
        );
    }
}
