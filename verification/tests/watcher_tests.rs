use doclinker::models::{AppConfig, WorkspaceConfig, WorkspaceKind};
use doclinker::watcher::{
    desired_watch_paths, find_workspace_for_path, flush_target, handle_raw_event, FsEvent,
    FsEventKind, PendingChanges, WatchAction, DEBOUNCE_MS, POLL_INTERVAL_MS,
};

fn config() -> AppConfig {
    let mut c = AppConfig::default();
    let items = [("off", "/data", false), ("docs", "/data/docs", true), ("all", "/data", true), ("dup", "/data/docs", true)];
    for (id, path, enabled) in items {
        c.workspaces.push(WorkspaceConfig {
            id: id.into(),
            name: id.into(),
            path: path.into(),
            kind: WorkspaceKind::Doc,
            enabled,
        });
    }
    c
}

fn event(kind: FsEventKind, paths: &[&str]) -> FsEvent {
    FsEvent { kind, paths: paths.iter().map(|s| s.to_string()).collect() }
}

#[test]
fn workspace_of_path_is_first_enabled_prefix() {
    let c = config();
    assert_eq!(find_workspace_for_path(&c, "/data/docs/a.md").unwrap().id, "docs");
    assert_eq!(find_workspace_for_path(&c, "/data/other.md").unwrap().id, "all");
    assert!(find_workspace_for_path(&c, "/elsewhere/a.md").is_none());
    assert!(flush_target(&c, "/data/docs", true).is_none());
    assert_eq!(flush_target(&c, "/data/docs/x.txt", false).unwrap().id, "docs");
}

#[test]
fn watched_paths_are_enabled_and_unique() {
    assert_eq!(desired_watch_paths(&config()), vec!["/data/docs", "/data"]);
}

#[test]
fn debounce_waits_for_quiet() {
    assert_eq!(DEBOUNCE_MS, 500);
    assert_eq!(POLL_INTERVAL_MS, 200);
    let mut q = PendingChanges::new();
    q.record("/a".into(), 1000);
    q.record("/b".into(), 1200);
    q.record("/a".into(), 1300);
    assert_eq!(q.len(), 2);
    assert!(q.take_ready(1699, DEBOUNCE_MS).is_empty());
    assert_eq!(q.take_ready(1700, DEBOUNCE_MS), vec!["/b"]);
    assert_eq!(q.len(), 1);
    assert_eq!(q.take_ready(1800, DEBOUNCE_MS), vec!["/a"]);
    assert_eq!(q.len(), 0);
    q.record("/c".into(), 5000);
    assert!(q.take_ready(10, DEBOUNCE_MS).is_empty());
}

#[test]
fn events_become_actions_or_queue_entries() {
    let c = config();
    let mut q = PendingChanges::new();
    let acts = handle_raw_event(&c, &mut q, event(FsEventKind::RenameBoth, &["/data/docs/a.md", "/data/docs/b.md"]), 1);
    assert_eq!(acts.len(), 1);
    match &acts[0] {
        WatchAction::Rename { workspace, old_path, new_path } => {
            assert_eq!(workspace.id, "docs");
            assert_eq!(old_path, "/data/docs/a.md");
            assert_eq!(new_path, "/data/docs/b.md");
        }
        _ => panic!("expected a rename"),
    }
    let acts = handle_raw_event(&c, &mut q, event(FsEventKind::RenameBoth, &["/x/a", "/y/b"]), 1);
    assert!(acts.is_empty());
    let acts = handle_raw_event(&c, &mut q, event(FsEventKind::Remove, &["/p", "/q"]), 2);
    assert_eq!(acts.len(), 2);
    assert!(matches!(&acts[1], WatchAction::Remove { path } if path == "/q"));
    assert_eq!(q.len(), 0);
    let acts = handle_raw_event(&c, &mut q, event(FsEventKind::CreateOrModify, &["/n1", "/n2"]), 3);
    assert!(acts.is_empty());
    assert_eq!(q.len(), 2);
    let acts = handle_raw_event(&c, &mut q, event(FsEventKind::RenameBoth, &["/n3"]), 4);
    assert!(acts.is_empty());
    assert_eq!(q.len(), 3);
    let acts = handle_raw_event(&c, &mut q, event(FsEventKind::Other, &["/n4"]), 5);
    assert!(acts.is_empty());
    assert_eq!(q.len(), 3);
    assert_eq!(q.take_ready(503, DEBOUNCE_MS), vec!["/n1", "/n2"]);
}
