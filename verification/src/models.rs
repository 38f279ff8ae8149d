//! Configuration records, workspace and file kinds, and the records that
//! the index stores and hands out.
use vstd::prelude::*;

verus! {

/// What a workspace holds.
#[derive(Debug, Clone, Copy, PartialEq, Eq, Structural)]
pub enum WorkspaceKind {
    Project,
    Doc,
    Scripts,
}

impl WorkspaceKind {
    /// The name under which the kind is stored and configured.
    pub open spec fn name(self) -> Seq<char> {
        match self {
            WorkspaceKind::Project => "project"@,
            WorkspaceKind::Doc => "doc"@,
            WorkspaceKind::Scripts => "scripts"@,
        }
    }

    pub fn as_str(&self) -> (s: &'static str)
        ensures
            s@ == self.name(),
    {
        match self {
            WorkspaceKind::Project => "project",
            WorkspaceKind::Doc => "doc",
            WorkspaceKind::Scripts => "scripts",
        }
    }
}

/// One configured workspace.
#[derive(Debug)]
pub struct WorkspaceConfig {
    pub id: String,
    pub name: String,
    pub path: String,
    pub kind: WorkspaceKind,
    pub enabled: bool,
}

impl Clone for WorkspaceConfig {
    fn clone(&self) -> (r: Self)
        ensures
            r == *self,
    {
        WorkspaceConfig {
            id: self.id.clone(),
            name: self.name.clone(),
            path: self.path.clone(),
            kind: self.kind,
            enabled: self.enabled,
        }
    }
}

/// The application configuration.
#[derive(Debug)]
pub struct AppConfig {
    pub version: u32,
    pub workspaces: Vec<WorkspaceConfig>,
    pub exclude_patterns: Vec<String>,
    pub launch_on_startup: bool,
}

/// The directory names that a new configuration excludes from scanning.
pub open spec fn default_exclude_patterns() -> Seq<Seq<char>> {
    seq!["node_modules"@, ".git"@, "dist"@, "target"@]
}

impl Default for AppConfig {
    fn default() -> (c: Self)
        ensures
            c.version == 1,
            c.workspaces@.len() == 0,
            c.exclude_patterns.deep_view() == default_exclude_patterns(),
            !c.launch_on_startup,
    {
        let mut exclude_patterns: Vec<String> = Vec::new();
        exclude_patterns.push(String::from_str("node_modules"));
        exclude_patterns.push(String::from_str(".git"));
        exclude_patterns.push(String::from_str("dist"));
        exclude_patterns.push(String::from_str("target"));
        assert(exclude_patterns.deep_view() =~= default_exclude_patterns());
        AppConfig { version: 1, workspaces: Vec::new(), exclude_patterns, launch_on_startup: false }
    }
}

/// The kinds of file that are indexed.
#[derive(Debug, Clone, Copy, PartialEq, Eq, Structural)]
pub enum FileKind {
    Markdown,
    Text,
    Executable,
    Url,
}

impl FileKind {
    /// The name under which the kind is stored.
    pub open spec fn name(self) -> Seq<char> {
        match self {
            FileKind::Markdown => "markdown"@,
            FileKind::Text => "text"@,
            FileKind::Executable => "executable"@,
            FileKind::Url => "url"@,
        }
    }

    pub fn as_str(&self) -> (s: &'static str)
        ensures
            s@ == self.name(),
    {
        match self {
            FileKind::Markdown => "markdown",
            FileKind::Text => "text",
            FileKind::Executable => "executable",
            FileKind::Url => "url",
        }
    }
}

/// One file as the index records it.
#[derive(Debug)]
pub struct IndexedFile {
    pub workspace_id: String,
    pub workspace_kind: WorkspaceKind,
    pub file_kind: FileKind,
    pub path: String,
    pub file_name: String,
    pub extension: String,
    pub alias: Option<String>,
    pub title: Option<String>,
    pub content: Option<String>,
    pub target_url: Option<String>,
    pub size: i64,
    pub modified_at: i64,
}

/// What the preview of an indexed file shows.
#[derive(Debug)]
pub struct FilePreviewDto {
    pub path: String,
    pub file_name: String,
    pub alias: Option<String>,
    pub title: Option<String>,
    pub file_kind: String,
    pub workspace_kind: String,
    pub target_url: Option<String>,
    pub content: Option<String>,
}

/// A request to add a workspace.
#[derive(Debug)]
pub struct AddWorkspaceInput {
    pub path: String,
    pub kind: WorkspaceKind,
    pub name: Option<String>,
}

/// Distinct kinds are stored under distinct names, so a stored name
/// identifies its kind.
pub proof fn lemma_kind_names_distinct(a: WorkspaceKind, b: WorkspaceKind, f: FileKind, g: FileKind)
    ensures
        a.name() == b.name() ==> a == b,
        f.name() == g.name() ==> f == g,
{
    reveal_strlit("project");
    reveal_strlit("doc");
    reveal_strlit("scripts");
    reveal_strlit("markdown");
    reveal_strlit("text");
    reveal_strlit("executable");
    reveal_strlit("url");
    if a != b && a.name() == b.name() {
        assert(a.name().len() == b.name().len());
        assert(a.name()[0] == b.name()[0]);
    }
    if f != g && f.name() == g.name() {
        assert(f.name().len() == g.name().len());
        assert(f.name()[0] == g.name()[0]);
    }
}

} // verus!
