use doclinker::config::{
    append_workspace, append_workspace_named, append_workspace_with, check_workspace_path, generate_workspace_id,
    infer_workspace_name, workspace_id_for, workspace_name_from,
};
use doclinker::error::AppError;
use doclinker::models::{AddWorkspaceInput, AppConfig, WorkspaceKind};

fn message(e: AppError) -> String {
    match e {
        AppError::Message(m) => m,
        other => panic!("unexpected error {other:?}"),
    }
}

#[test]
fn missing_and_non_directory_paths_are_refused() {
    let e = check_workspace_path("/no/such", false, false).unwrap_err();
    assert_eq!(message(e), "工作空间路径不存在: /no/such");
    let e = check_workspace_path("/etc/hosts", true, false).unwrap_err();
    assert_eq!(message(e), "工作空间路径不是目录: /etc/hosts");
    assert!(check_workspace_path("/tmp", true, true).is_ok());
}

#[test]
fn workspace_ids_are_decimal_millis() {
    assert_eq!(workspace_id_for(0), "ws-0");
    assert_eq!(workspace_id_for(9), "ws-9");
    assert_eq!(workspace_id_for(10), "ws-10");
    assert_eq!(workspace_id_for(1_700_000_000_123), "ws-1700000000123");
    assert_eq!(workspace_id_for(u128::MAX), format!("ws-{}", u128::MAX));
    let id = generate_workspace_id();
    assert!(id.starts_with("ws-"));
    assert!(id[3..].chars().all(|c| c.is_ascii_digit()));
    assert!(id.len() > 3);
}

#[test]
fn default_workspace_names() {
    assert_eq!(workspace_name_from("/a/notes", Some("notes".to_string())), "notes");
    assert_eq!(workspace_name_from("/", Some(String::new())), "/");
    assert_eq!(workspace_name_from("/", None), "/");
    assert_eq!(infer_workspace_name("/home/me/notes"), "notes");
    assert_eq!(infer_workspace_name("/"), "/");
}

#[test]
fn append_adds_enabled_workspace() {
    let mut config = AppConfig::default();
    let input = AddWorkspaceInput { path: "ignored".into(), kind: WorkspaceKind::Project, name: None };
    let w = append_workspace_with(&mut config, input, "/src/app", Some("app".into()), 1234).unwrap();
    assert_eq!(w.id, "ws-1234");
    assert_eq!(w.name, "app");
    assert_eq!(w.path, "/src/app");
    assert_eq!(w.kind, WorkspaceKind::Project);
    assert!(w.enabled);
    assert_eq!(config.workspaces.len(), 1);
    assert_eq!(config.workspaces[0].id, "ws-1234");
}

#[test]
fn append_uses_given_name() {
    let mut config = AppConfig::default();
    let input = AddWorkspaceInput { path: "x".into(), kind: WorkspaceKind::Doc, name: Some("Notes".into()) };
    let w = append_workspace(&mut config, input, "/home/me/notes").unwrap();
    assert_eq!(w.name, "Notes");
    assert!(w.id.starts_with("ws-"));
    assert_eq!(config.workspaces.len(), 1);
}

#[test]
fn append_same_path_twice_is_refused() {
    let mut config = AppConfig::default();
    let first = AddWorkspaceInput { path: "a".into(), kind: WorkspaceKind::Scripts, name: None };
    append_workspace(&mut config, first, "C:\\Tools").unwrap();
    let second = AddWorkspaceInput { path: "b".into(), kind: WorkspaceKind::Doc, name: None };
    let e = append_workspace(&mut config, second, "c:\\TOOLS").unwrap_err();
    assert_eq!(message(e), "该工作空间已存在");
    assert_eq!(config.workspaces.len(), 1);
    assert_eq!(config.workspaces[0].kind, WorkspaceKind::Scripts);
}

#[test]
fn default_config() {
    let c = AppConfig::default();
    assert_eq!(c.version, 1);
    assert!(c.workspaces.is_empty());
    assert_eq!(c.exclude_patterns, vec!["node_modules", ".git", "dist", "target"]);
    assert!(!c.launch_on_startup);
}

#[test]
fn default_names_of_plain_paths() {
    assert_eq!(infer_workspace_name("/home/u/notes"), "notes");
    assert_eq!(infer_workspace_name("docs/guides"), "guides");
    assert_eq!(infer_workspace_name("/srv/a.b/c d"), "c d");
}

#[test]
fn append_names_after_normalized_path() {
    let mut config = AppConfig::default();
    let input = AddWorkspaceInput { path: "~/raw/request".into(), kind: WorkspaceKind::Doc, name: None };
    let w = append_workspace(&mut config, input, "/home/u/notes").unwrap();
    assert_eq!(w.name, "notes");
    let input = AddWorkspaceInput { path: "x".into(), kind: WorkspaceKind::Doc, name: None };
    let w = append_workspace_named(&mut config, input, "/odd/path", None).unwrap();
    assert_eq!(w.name, "/odd/path");
    assert!(w.id.starts_with("ws-"));
    assert_eq!(config.workspaces.len(), 2);
}

#[test]
fn root_path_is_its_own_name() {
    assert_eq!(infer_workspace_name("/"), "/");
    let mut config = AppConfig::default();
    let input = AddWorkspaceInput { path: "/".into(), kind: WorkspaceKind::Doc, name: None };
    let w = append_workspace(&mut config, input, "/").unwrap();
    assert_eq!(w.name, "/");
    assert_eq!(w.path, "/");
    assert_eq!(config.workspaces.len(), 1);
}

#[test]
fn default_names_of_portable_paths() {
    assert_eq!(infer_workspace_name("/home/u/notes/"), "notes");
    assert_eq!(infer_workspace_name("/home/u/notes/."), "notes");
    assert_eq!(infer_workspace_name("home//u"), "u");
    assert_eq!(infer_workspace_name("/home/.."), "/home/..");
    assert_eq!(infer_workspace_name(""), "");
    assert_eq!(infer_workspace_name("."), ".");
}
