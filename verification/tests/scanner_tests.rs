use doclinker::error::AppError;
use doclinker::models::{FileKind, WorkspaceConfig, WorkspaceKind};
use doclinker::scanner::{
    collect_alias_values, extract_markdown_alias, extract_markdown_title, extract_url_target,
    file_kind_at, file_kind_for_extension, is_text_extension, parse_supported_file,
    parse_supported_file_at, should_skip_entry, FileBody,
};

fn workspace() -> WorkspaceConfig {
    WorkspaceConfig {
        id: "ws-1".to_string(),
        name: "Docs".to_string(),
        path: "/docs".to_string(),
        kind: WorkspaceKind::Doc,
        enabled: true,
    }
}

fn strings(items: &[&str]) -> Vec<String> {
    items.iter().map(|s| s.to_string()).collect()
}

#[test]
fn alias_single_value() {
    let doc = "---\nalias: deploy guide\n---\n# Title\n";
    assert_eq!(extract_markdown_alias(doc), Some("deploy guide".to_string()));
}

#[test]
fn alias_inline_list_with_quotes() {
    let doc = "---\naliases: [\"one\", 'two', three]\n---\nbody";
    assert_eq!(extract_markdown_alias(doc), Some("one two three".to_string()));
}

#[test]
fn alias_block_list() {
    let doc = "---\ntitle: x\naliases:\n  - first\n  - \"second\"\n\n  - third\nother: y\n- not this\n---\n";
    assert_eq!(extract_markdown_alias(doc), Some("first second third".to_string()));
}

#[test]
fn alias_block_list_stops_at_closing_line() {
    let doc = "---\naliases:\n- a\n---\n- b\nalias: c\n";
    assert_eq!(extract_markdown_alias(doc), Some("a".to_string()));
}

#[test]
fn alias_needs_frontmatter_on_first_line() {
    assert_eq!(extract_markdown_alias("# Heading\n---\nalias: x\n---\n"), None);
    assert_eq!(extract_markdown_alias(""), None);
    assert_eq!(extract_markdown_alias("---\ntitle: only\n---\n"), None);
}

#[test]
fn alias_with_crlf_lines_and_indented_fence() {
    let doc = "  ---  \r\nalias: a, b\r\n---\r\n";
    assert_eq!(extract_markdown_alias(doc), Some("a b".to_string()));
}

#[test]
fn alias_later_alias_key_ends_list() {
    let doc = "---\naliases: x\n- y\nalias: z\n- w\n---";
    assert_eq!(extract_markdown_alias(doc), Some("x y z".to_string()));
}

#[test]
fn collect_alias_values_appends_cleaned_values() {
    let mut aliases = vec!["keep".to_string()];
    collect_alias_values(" [ \"a\" , , 'b c' ] ", &mut aliases);
    assert_eq!(aliases, strings(&["keep", "a", "b c"]));
    let mut none: Vec<String> = Vec::new();
    collect_alias_values("   ", &mut none);
    assert!(none.is_empty());
}

#[test]
fn title_from_first_heading() {
    assert_eq!(extract_markdown_title("intro\n## Setup  \n# Other"), Some("Setup".to_string()));
    assert_eq!(extract_markdown_title("#\n ###   \n#Real"), Some("Real".to_string()));
    assert_eq!(extract_markdown_title("no heading\nat all"), None);
    assert_eq!(extract_markdown_title("  #  Spaced title  \r\n"), Some("Spaced title".to_string()));
}

#[test]
fn url_target_first_matching_line() {
    let lines = strings(&["[InternetShortcut]", "URL= https://example.com/a ", "URL=https://b"]);
    match extract_url_target(&lines, None) {
        Ok(Some(t)) => assert_eq!(t, "https://example.com/a"),
        _ => panic!("expected a target"),
    }
}

#[test]
fn url_target_absent_or_failed() {
    let lines = strings(&["[InternetShortcut]", " URL=indented"]);
    assert!(matches!(extract_url_target(&lines, None), Ok(None)));
    let err = std::io::Error::new(std::io::ErrorKind::InvalidData, "bad utf-8");
    assert!(matches!(extract_url_target(&lines, Some(err)), Err(AppError::Io(_))));
    let found = strings(&["URL=x"]);
    let err = std::io::Error::new(std::io::ErrorKind::InvalidData, "bad utf-8");
    assert!(matches!(extract_url_target(&found, Some(err)), Ok(Some(_))));
}

#[test]
fn text_extensions() {
    for e in ["txt", "html", "htm", "json", "xml", "yaml", "yml", "csv", "log"] {
        assert!(is_text_extension(e), "{e}");
    }
    for e in ["md", "TXT", "rs", "", "exe"] {
        assert!(!is_text_extension(e), "{e}");
    }
}

#[test]
fn file_kinds_by_extension() {
    assert_eq!(file_kind_for_extension("md"), Some(FileKind::Markdown));
    assert_eq!(file_kind_for_extension("MD"), Some(FileKind::Markdown));
    assert_eq!(file_kind_for_extension("Exe"), Some(FileKind::Executable));
    assert_eq!(file_kind_for_extension("url"), Some(FileKind::Url));
    assert_eq!(file_kind_for_extension("YAML"), Some(FileKind::Text));
    assert_eq!(file_kind_for_extension("png"), None);
    assert_eq!(file_kind_for_extension(""), None);
}

#[test]
fn skip_excluded_components() {
    let patterns = strings(&["node_modules", ".git"]);
    let nested = Some(strings(&["src", "Node_Modules", "pkg"]));
    assert!(should_skip_entry(2, &nested, &patterns));
    let plain = Some(strings(&["src", "lib.rs"]));
    assert!(!should_skip_entry(2, &plain, &patterns));
    assert!(!should_skip_entry(0, &nested, &patterns));
    assert!(!should_skip_entry(3, &None, &patterns));
}

#[test]
fn parse_markdown_file() {
    let body = FileBody::Text("---\nalias: dg\n---\n# Deploy\ntext".to_string());
    let file = parse_supported_file(&workspace(), "/docs/deploy.MD", "deploy.MD", "MD", 42, 7, body)
        .ok()
        .flatten()
        .expect("markdown is indexed");
    assert_eq!(file.workspace_id, "ws-1");
    assert_eq!(file.workspace_kind, WorkspaceKind::Doc);
    assert_eq!(file.file_kind, FileKind::Markdown);
    assert_eq!(file.path, "/docs/deploy.MD");
    assert_eq!(file.file_name, "deploy.MD");
    assert_eq!(file.extension, "md");
    assert_eq!(file.alias.as_deref(), Some("dg"));
    assert_eq!(file.title.as_deref(), Some("Deploy"));
    assert!(file.content.as_deref().unwrap().ends_with("text"));
    assert_eq!(file.target_url, None);
    assert_eq!(file.size, 42);
    assert_eq!(file.modified_at, 7);
}

#[test]
fn parse_markdown_without_heading_uses_file_name() {
    let body = FileBody::Text("plain".to_string());
    let file = parse_supported_file(&workspace(), "/docs/a.md", "a.md", "md", 1, 2, body)
        .ok()
        .flatten()
        .unwrap();
    assert_eq!(file.title.as_deref(), Some("a.md"));
    assert_eq!(file.alias, None);
}

#[test]
fn parse_other_kinds() {
    let text = parse_supported_file(&workspace(), "/docs/n.txt", "n.txt", "txt", 1, 2, FileBody::Text("# not a title".to_string()))
        .ok()
        .flatten()
        .unwrap();
    assert_eq!(text.file_kind, FileKind::Text);
    assert_eq!(text.title.as_deref(), Some("n.txt"));
    assert_eq!(text.content.as_deref(), Some("# not a title"));
    let exe = parse_supported_file(&workspace(), "/docs/t.exe", "t.exe", "exe", 1, 2, FileBody::Unread)
        .ok()
        .flatten()
        .unwrap();
    assert_eq!(exe.file_kind, FileKind::Executable);
    assert_eq!(exe.content, None);
    let url = parse_supported_file(
        &workspace(),
        "/docs/s.url",
        "s.url",
        "url",
        1,
        2,
        FileBody::Lines(strings(&["[InternetShortcut]", "URL=https://x.y"]), None),
    )
    .ok()
    .flatten()
    .unwrap();
    assert_eq!(url.target_url.as_deref(), Some("https://x.y"));
    assert!(matches!(
        parse_supported_file(&workspace(), "/docs/i.png", "i.png", "png", 1, 2, FileBody::Unread),
        Ok(None)
    ));
    let err = std::io::Error::new(std::io::ErrorKind::Other, "read failed");
    assert!(matches!(
        parse_supported_file(&workspace(), "/docs/s.url", "s.url", "url", 1, 2, FileBody::Lines(vec![], Some(err))),
        Err(AppError::Io(_))
    ));
}

#[test]
fn url_target_read_error_is_passed_on() {
    let lines = strings(&["[InternetShortcut]"]);
    let err = std::io::Error::new(std::io::ErrorKind::PermissionDenied, "denied here");
    match extract_url_target(&lines, Some(err)) {
        Err(AppError::Io(e)) => {
            assert_eq!(e.kind(), std::io::ErrorKind::PermissionDenied);
            assert_eq!(e.to_string(), "denied here");
        }
        _ => panic!("expected the read error"),
    }
}

#[test]
fn file_kind_by_path() {
    assert_eq!(file_kind_at("/w/a.MD"), Some(FileKind::Markdown));
    assert_eq!(file_kind_at("/w/run.exe"), Some(FileKind::Executable));
    assert_eq!(file_kind_at("/w/a.b/notes.txt"), Some(FileKind::Text));
    assert_eq!(file_kind_at("/w/.md"), None);
    assert_eq!(file_kind_at("/w/README"), None);
    assert_eq!(file_kind_at("/w/image.png"), None);
}

#[test]
fn parse_by_path() {
    let ws = WorkspaceConfig {
        id: "ws-1".to_string(),
        name: "W".to_string(),
        path: "/w".to_string(),
        kind: WorkspaceKind::Doc,
        enabled: true,
    };
    let dotfile = parse_supported_file_at(&ws, "/w/.md", 3, 4, FileBody::Text("# T".to_string()));
    assert!(matches!(dotfile, Ok(None)));
    let file = parse_supported_file_at(&workspace(), "/docs/x.md", 5, 6, FileBody::Text("# X\nbody".to_string()))
        .ok()
        .flatten()
        .expect("markdown is indexed");
    assert_eq!(file.file_name, "x.md");
    assert_eq!(file.extension, "md");
    assert_eq!(file.title.as_deref(), Some("X"));
    assert_eq!(file.path, "/docs/x.md");
    let err = std::io::Error::new(std::io::ErrorKind::Other, "gone");
    match parse_supported_file_at(&workspace(), "/docs/s.url", 1, 2, FileBody::Lines(vec![], Some(err))) {
        Err(AppError::Io(e)) => assert_eq!(e.to_string(), "gone"),
        _ => panic!("expected the read error"),
    }
}

#[test]
fn file_kind_by_portable_path() {
    assert_eq!(file_kind_at("/w/x.md/"), Some(FileKind::Markdown));
    assert_eq!(file_kind_at("/w/x.url/."), Some(FileKind::Url));
    assert_eq!(file_kind_at("/w/x.md/.."), None);
    assert_eq!(file_kind_at("/"), None);
}
