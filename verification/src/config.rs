//! Adding workspaces to the configuration: the checks on a workspace path,
//! the refusal of a path that is already configured, the default name and
//! the identifier of a new workspace.
use vstd::prelude::*;

use crate::clock::{clock_millis, millis_from};
use crate::error::AppError;
use crate::models::{AddWorkspaceInput, AppConfig, WorkspaceConfig};
use crate::paths::path_file_name;
#[allow(unused_imports)]
use crate::paths::{
    after_last, file_name_fits, has_no_file_name, plain_path, portable_file_name, portable_path,
};
use crate::text::eq_ignore_ascii_case;
#[allow(unused_imports)]
use crate::text::{ascii_lower, eq_ignore_case};

verus! {

// ---------------------------------------------------------------------------
// Workspace paths
// ---------------------------------------------------------------------------
/// The message for a workspace path that does not exist.
pub open spec fn missing_path_message(path: Seq<char>) -> Seq<char> {
    "工作空间路径不存在: "@ + path
}

/// The message for a workspace path that is not a directory.
pub open spec fn not_a_directory_message(path: Seq<char>) -> Seq<char> {
    "工作空间路径不是目录: "@ + path
}

/// Whether a workspace path may be added, given whether it exists and
/// whether it is a directory: a missing path and a path that is not a
/// directory are refused, each with its own message.
pub fn check_workspace_path(path: &str, exists: bool, is_dir: bool) -> (r: Result<(), AppError>)
    ensures
        !exists ==> (r matches Err(AppError::Message(m)) && m@ == missing_path_message(path@)),
        exists && !is_dir ==> (r matches Err(AppError::Message(m)) && m@
            == not_a_directory_message(path@)),
        exists && is_dir ==> r is Ok,
{
    if !exists {
        return Err(AppError::message(String::from_str("工作空间路径不存在: ").concat(path)));
    }
    if !is_dir {
        return Err(AppError::message(String::from_str("工作空间路径不是目录: ").concat(path)));
    }
    Ok(())
}

// ---------------------------------------------------------------------------
// Names and identifiers
// ---------------------------------------------------------------------------
/// The default name of a workspace at `path` whose last path component is
/// `file_name`: that component if it is not empty, else the whole path.
pub open spec fn default_name(path: Seq<char>, file_name: Option<Seq<char>>) -> Seq<char> {
    match file_name {
        Some(n) => if n.len() > 0 {
            n
        } else {
            path
        },
        None => path,
    }
}

/// The default name of a workspace at `path` whose last component is `file_name`.
pub fn workspace_name_from(path: &str, file_name: Option<String>) -> (name: String)
    ensures
        name@ == default_name(path@, file_name.deep_view()),
{
    match file_name {
        Some(n) => {
            if n.as_str().is_empty() {
                String::from_str(path)
            } else {
                n
            }
        },
        None => String::from_str(path),
    }
}

/// The default name of a workspace at `path`: its last path component, or
/// the whole path where it has none.
pub fn infer_workspace_name(path: &str) -> (name: String)
    ensures
        exists|f: Option<Seq<char>>|
            #[trigger] file_name_fits(path@, f) && name@ == default_name(path@, f),
        portable_path(path@) ==> name@ == default_name(path@, portable_file_name(path@)),
        plain_path(path@) ==> name@ == after_last(path@, '/'),
        has_no_file_name(path@) ==> name@ == path@,
{
    let file_name = path_file_name(path);
    let ghost f = file_name.deep_view();
    let name = workspace_name_from(path, file_name);
    assert(file_name_fits(path@, f) && name@ == default_name(path@, f));
    name
}

/// The decimal digit character for `d < 10`.
pub open spec fn digit_char(d: int) -> char {
    (d + 48) as char
}

/// The decimal representation of `n`, without leading zeros.
pub open spec fn decimal(n: nat) -> Seq<char>
    decreases n,
{
    if n < 10 {
        seq![digit_char(n as int)]
    } else {
        decimal(n / 10).push(digit_char((n % 10) as int))
    }
}

/// Appends the decimal representation of `n` to `out`.
fn push_decimal(out: &mut String, n: u128)
    ensures
        final(out)@ == old(out)@ + decimal(n as nat),
    decreases n,
{
    if n >= 10 {
        push_decimal(out, n / 10);
    }
    let d = (n % 10) as u8;
    out.push((d + 48) as char);
    proof {
        if n >= 10 {
            assert(decimal(n as nat) == decimal((n / 10) as nat).push(digit_char((n % 10) as int)));
        }
    }
}

/// The identifier of a workspace created `millis` milliseconds after the
/// Unix epoch.
pub open spec fn workspace_id(millis: u128) -> Seq<char> {
    "ws-"@ + decimal(millis as nat)
}

/// The identifier of a workspace created at `millis`: `ws-` and the decimal digits.
pub fn workspace_id_for(millis: u128) -> (id: String)
    ensures
        id@ == workspace_id(millis),
{
    let mut id = String::from_str("ws-");
    push_decimal(&mut id, millis);
    id
}

/// A new workspace identifier: `ws-` and the current time in milliseconds.
pub fn generate_workspace_id() -> (id: String)
    ensures
        exists|millis: u128| id@ == #[trigger] workspace_id(millis),
{
    let millis = millis_from(clock_millis());
    workspace_id_for(millis)
}

// ---------------------------------------------------------------------------
// Appending a workspace
// ---------------------------------------------------------------------------
/// Some configured workspace has `path`, ignoring ASCII case.
pub open spec fn has_path(ws: Seq<WorkspaceConfig>, path: Seq<char>) -> bool {
    exists|i: int| 0 <= i < ws.len() && #[trigger] eq_ignore_case(ws[i].path@, path)
}

/// The message for a workspace path that is already configured.
pub open spec fn duplicate_message() -> Seq<char> {
    "该工作空间已存在"@
}

/// `w` is the workspace that a request `input` for the directory at `path`
/// creates, with identifier `id` and default name `name`.
pub open spec fn is_new_workspace(
    w: WorkspaceConfig,
    input: AddWorkspaceInput,
    path: Seq<char>,
    id: Seq<char>,
    name: Seq<char>,
) -> bool {
    &&& w.id@ == id
    &&& w.name@ == match input.name {
        Some(n) => n@,
        None => name,
    }
    &&& w.path@ == path
    &&& w.kind == input.kind
    &&& w.enabled
}

fn has_workspace_path(config: &AppConfig, path: &str) -> (r: bool)
    ensures
        r == has_path(config.workspaces@, path@),
{
    let mut i: usize = 0;
    while i < config.workspaces.len()
        invariant
            i <= config.workspaces@.len(),
            forall|j: int|
                0 <= j < i ==> !#[trigger] eq_ignore_case(config.workspaces@[j].path@, path@),
        decreases config.workspaces@.len() - i,
    {
        if eq_ignore_ascii_case(config.workspaces[i].path.as_str(), path) {
            assert(eq_ignore_case(config.workspaces@[i as int].path@, path@));
            return true;
        }
        i += 1;
    }
    false
}

/// Adds a workspace for the directory at `normalized_path`, whose last path
/// component is `file_name`, created at `millis`: refused if a configured
/// workspace has the same path, ignoring ASCII case; otherwise the new,
/// enabled workspace is appended and returned.
pub fn append_workspace_with(
    config: &mut AppConfig,
    input: AddWorkspaceInput,
    normalized_path: &str,
    file_name: Option<String>,
    millis: u128,
) -> (r: Result<WorkspaceConfig, AppError>)
    ensures
        has_path(old(config).workspaces@, normalized_path@) ==> (r matches Err(
            AppError::Message(m),
        ) && m@ == duplicate_message()),
        has_path(old(config).workspaces@, normalized_path@) ==> *final(config) == *old(config),
        !has_path(old(config).workspaces@, normalized_path@) ==> (r matches Ok(w) && {
            &&& is_new_workspace(
                w,
                input,
                normalized_path@,
                workspace_id(millis),
                default_name(normalized_path@, file_name.deep_view()),
            )
            &&& final(config).workspaces@ == old(config).workspaces@.push(w)
        }),
        final(config).version == old(config).version,
        final(config).exclude_patterns == old(config).exclude_patterns,
        final(config).launch_on_startup == old(config).launch_on_startup,
{
    if has_workspace_path(config, normalized_path) {
        return Err(AppError::message_str("该工作空间已存在"));
    }
    let name = match input.name {
        Some(n) => n,
        None => workspace_name_from(normalized_path, file_name),
    };
    let workspace = WorkspaceConfig {
        id: workspace_id_for(millis),
        name,
        path: String::from_str(normalized_path),
        kind: input.kind,
        enabled: true,
    };
    config.workspaces.push(workspace.clone());
    Ok(workspace)
}

/// Adds a workspace for the directory at `normalized_path`, whose last path
/// component the caller found to be `file_name`: as `append_workspace_with`,
/// identified by the current time.
pub fn append_workspace_named(
    config: &mut AppConfig,
    input: AddWorkspaceInput,
    normalized_path: &str,
    file_name: Option<String>,
) -> (r: Result<WorkspaceConfig, AppError>)
    ensures
        has_path(old(config).workspaces@, normalized_path@) ==> (r matches Err(
            AppError::Message(m),
        ) && m@ == duplicate_message()),
        has_path(old(config).workspaces@, normalized_path@) ==> *final(config) == *old(config),
        !has_path(old(config).workspaces@, normalized_path@) ==> (r matches Ok(w) && {
            &&& w.path@ == normalized_path@
            &&& w.kind == input.kind
            &&& w.enabled
            &&& w.name@ == match input.name {
                Some(n) => n@,
                None => default_name(normalized_path@, file_name.deep_view()),
            }
            &&& exists|millis: u128| w.id@ == #[trigger] workspace_id(millis)
            &&& final(config).workspaces@ == old(config).workspaces@.push(w)
        }),
        final(config).version == old(config).version,
        final(config).exclude_patterns == old(config).exclude_patterns,
        final(config).launch_on_startup == old(config).launch_on_startup,
{
    let millis = millis_from(clock_millis());
    let r = append_workspace_with(config, input, normalized_path, file_name, millis);
    proof {
        if r is Ok {
            assert(r->Ok_0.id@ == workspace_id(millis));
        }
    }
    r
}

/// Adds a workspace for the directory at `normalized_path` (a path that
/// `check_workspace_path` accepted, in canonical form): refused if a
/// configured workspace has the same path, ignoring ASCII case; otherwise
/// a new, enabled workspace, named by `input` or after the path's last
/// component and identified by the current time, is appended and returned.
pub fn append_workspace(
    config: &mut AppConfig,
    input: AddWorkspaceInput,
    normalized_path: &str,
) -> (r: Result<WorkspaceConfig, AppError>)
    ensures
        has_path(old(config).workspaces@, normalized_path@) ==> (r matches Err(
            AppError::Message(m),
        ) && m@ == duplicate_message()),
        has_path(old(config).workspaces@, normalized_path@) ==> *final(config) == *old(config),
        !has_path(old(config).workspaces@, normalized_path@) ==> (r matches Ok(w) && {
            &&& w.path@ == normalized_path@
            &&& w.kind == input.kind
            &&& w.enabled
            &&& (input.name matches Some(n) ==> w.name@ == n@)
            &&& (input.name is None ==> exists|f: Option<Seq<char>>|
                #[trigger] file_name_fits(normalized_path@, f) && w.name@ == default_name(
                    normalized_path@,
                    f,
                ))
            &&& (input.name is None && portable_path(normalized_path@) ==> w.name@ == default_name(
                normalized_path@,
                portable_file_name(normalized_path@),
            ))
            &&& (input.name is None && plain_path(normalized_path@) ==> w.name@ == after_last(
                normalized_path@,
                '/',
            ))
            &&& (input.name is None && has_no_file_name(normalized_path@) ==> w.name@
                == normalized_path@)
            &&& exists|millis: u128| w.id@ == #[trigger] workspace_id(millis)
            &&& final(config).workspaces@ == old(config).workspaces@.push(w)
        }),
        final(config).version == old(config).version,
        final(config).exclude_patterns == old(config).exclude_patterns,
        final(config).launch_on_startup == old(config).launch_on_startup,
{
    let file_name = path_file_name(normalized_path);
    let ghost f = file_name.deep_view();
    let r = append_workspace_named(config, input, normalized_path, file_name);
    proof {
        if r is Ok {
            assert(file_name_fits(normalized_path@, f));
        }
    }
    r
}

/// After a workspace for `path` is appended, a second request for the same
/// path, in any ASCII case, is refused.
pub proof fn lemma_added_path_is_refused(
    ws: Seq<WorkspaceConfig>,
    w: WorkspaceConfig,
    other: Seq<char>,
)
    requires
        eq_ignore_case(w.path@, other),
    ensures
        has_path(ws.push(w), other),
{
    assert(ws.push(w)[ws.len() as int] == w);
}

/// A path is refused when any configured workspace, wherever it stands in
/// the list, has that path in any ASCII case; and only then.
pub proof fn lemma_configured_path_is_refused_anywhere(
    before: Seq<WorkspaceConfig>,
    w: WorkspaceConfig,
    after: Seq<WorkspaceConfig>,
    path: Seq<char>,
)
    ensures
        ascii_lower(w.path@) == ascii_lower(path) ==> has_path(before.push(w) + after, path),
        has_path(before.push(w) + after, path) ==> (ascii_lower(w.path@) == ascii_lower(path)
            || (exists|i: int|
            0 <= i < before.len() && ascii_lower(#[trigger] before[i].path@) == ascii_lower(path))
            || (exists|i: int|
            0 <= i < after.len() && ascii_lower(#[trigger] after[i].path@) == ascii_lower(path))),
{
    let ws = before.push(w) + after;
    if ascii_lower(w.path@) == ascii_lower(path) {
        assert(ws[before.len() as int] == w);
        assert(eq_ignore_case(ws[before.len() as int].path@, path));
    }
    if has_path(ws, path) {
        let i = choose|i: int| 0 <= i < ws.len() && #[trigger] eq_ignore_case(ws[i].path@, path);
        assert(ascii_lower(ws[i].path@) == ascii_lower(path));
        if i < before.len() {
            assert(ws[i] == before[i]);
            assert(ascii_lower(before[i].path@) == ascii_lower(path));
        } else if i > before.len() {
            let k = i - before.len() - 1;
            assert(ws[i] == after[k]);
            assert(ascii_lower(after[k].path@) == ascii_lower(path));
        } else {
            assert(ws[i] == w);
        }
    }
}

} // verus!
