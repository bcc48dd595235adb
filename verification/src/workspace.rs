use vstd::prelude::*;
use vstd::string::StringExecFns;
use crate::paths::{join_path, path_exists, path_joined};

verus! {

/// The workspace configuration.
#[derive(Debug)]
pub struct WorkspaceConfig {
    /// Directory to which the compiled HTML goes.
    pub build_dir: Option<String>,
    /// Directory that holds the source HTML files.
    pub src_dir: Option<String>,
}

impl WorkspaceConfig {
    /// The configuration of a workspace without a configuration file:
    /// build directory `./build`, source directory `./src`.
    pub fn new() -> (res: WorkspaceConfig)
        ensures
            res.build_dir matches Some(b) && b@ == "./build"@,
            res.src_dir matches Some(s) && s@ == "./src"@,
    {
        WorkspaceConfig {
            build_dir: Some(String::from_str("./build")),
            src_dir: Some(String::from_str("./src")),
        }
    }
}

/// The path of the source directory of a workspace: `src/` in it.
pub open spec fn src_dir_path(workspace_dir: Seq<char>) -> Seq<char> {
    path_joined(path_joined(Seq::empty(), workspace_dir), "src/"@)
}

/// The path of the `.craine` configuration file of a workspace.
pub open spec fn dot_craine_path(workspace_dir: Seq<char>) -> Seq<char> {
    path_joined(path_joined(Seq::empty(), workspace_dir), ".craine"@)
}

/// The path of the `craine.json` configuration file of a workspace.
pub open spec fn craine_json_path(workspace_dir: Seq<char>) -> Seq<char> {
    path_joined(path_joined(Seq::empty(), workspace_dir), "craine.json"@)
}

/// The workspace directory as a path, as `PathBuf::new().join(dir)` makes it.
fn workspace_path(workspace_dir: &str) -> (res: String)
    ensures
        res@ == path_joined(Seq::empty(), workspace_dir@),
{
    let empty = String::new();
    join_path(empty.as_str(), workspace_dir)
}

/// The source directory of a workspace, from whether it exists: its path where
/// it does, else `None`.
pub fn src_dir_choice(workspace_dir: &str, src_dir_exists: bool) -> (res: Option<String>)
    ensures
        src_dir_exists ==> (res matches Some(p) && p@ == src_dir_path(workspace_dir@)),
        !src_dir_exists ==> res is None,
{
    if !src_dir_exists {
        return None;
    }
    Some(join_path(workspace_path(workspace_dir).as_str(), "src/"))
}

/// Returns the source directory of the workspace, `None` where it does not exist.
/// Whether it exists is up to the disk: the contract states which path comes
/// back, and `src_dir_choice` the choice for each answer.
pub fn get_src_dir(workspace_dir: String) -> (res: Option<String>)
    ensures
        res matches Some(p) ==> p@ == src_dir_path(workspace_dir@),
{
    let src_dir = join_path(workspace_path(workspace_dir.as_str()).as_str(), "src/");
    let exists = path_exists(src_dir.as_str());
    src_dir_choice(workspace_dir.as_str(), exists)
}

/// Which configuration file a workspace uses, from whether `.craine` and
/// `craine.json` exist in it: `.craine` first, then `craine.json`, else none.
pub fn config_path_choice(workspace_dir: &str, dot_craine_exists: bool, craine_json_exists: bool) -> (res:
    Option<String>)
    ensures
        dot_craine_exists ==> (res matches Some(p) && p@ == dot_craine_path(workspace_dir@)),
        !dot_craine_exists && craine_json_exists ==> (res matches Some(p) && p@ == craine_json_path(
            workspace_dir@,
        )),
        !dot_craine_exists && !craine_json_exists ==> res is None,
{
    let base = workspace_path(workspace_dir);
    if dot_craine_exists {
        return Some(join_path(base.as_str(), ".craine"));
    }
    if craine_json_exists {
        return Some(join_path(base.as_str(), "craine.json"));
    }
    None
}

/// Returns the path of the workspace configuration file: `.craine` where it
/// exists, else `craine.json` where it exists, else `None`. What exists is up to
/// the disk; `config_path_choice` states the choice for each answer.
pub fn get_workspace_config_path(workspace_dir: String) -> (res: Option<String>)
    ensures
        res matches Some(p) ==> p@ == dot_craine_path(workspace_dir@) || p@ == craine_json_path(
            workspace_dir@,
        ),
{
    let base = workspace_path(workspace_dir.as_str());
    let dot_craine = join_path(base.as_str(), ".craine");
    let dot_craine_exists = path_exists(dot_craine.as_str());
    let craine_json_exists = if dot_craine_exists {
        false
    } else {
        let craine_json = join_path(base.as_str(), "craine.json");
        path_exists(craine_json.as_str())
    };
    config_path_choice(workspace_dir.as_str(), dot_craine_exists, craine_json_exists)
}

/// The source directory that a workspace's configuration sets: its `src_dir`
/// where it gives one, else `src/` in the workspace.
pub open spec fn configured_src_dir_path(src_dir: Option<Seq<char>>, workspace_dir: Seq<char>) -> Seq<
    char,
> {
    match src_dir {
        Some(d) => d,
        None => src_dir_path(workspace_dir),
    }
}

/// The text of an optional string.
pub open spec fn opt_view(o: Option<String>) -> Option<Seq<char>> {
    match o {
        Some(s) => Some(s@),
        None => None,
    }
}

/// The path of the source directory that the configuration sets.
pub fn configured_src_dir(config: &WorkspaceConfig, workspace_dir: &str) -> (res: String)
    ensures
        res@ == configured_src_dir_path(opt_view(config.src_dir), workspace_dir@),
{
    match &config.src_dir {
        Some(d) => d.clone(),
        None => join_path(workspace_path(workspace_dir).as_str(), "src/"),
    }
}

/// The source directory that the configuration sets, from whether it exists: its
/// path where it does, else `None`.
pub fn configured_src_dir_choice(config: &WorkspaceConfig, workspace_dir: &str, exists: bool) -> (res:
    Option<String>)
    ensures
        exists ==> (res matches Some(p) && p@ == configured_src_dir_path(
            opt_view(config.src_dir),
            workspace_dir@,
        )),
        !exists ==> res is None,
{
    if exists {
        Some(configured_src_dir(config, workspace_dir))
    } else {
        None
    }
}

/// Returns the source directory that the configuration sets, `None` where it does
/// not exist. Whether it exists is up to the disk: the contract states which path
/// comes back, and `configured_src_dir_choice` the choice for each answer.
pub fn get_configured_src_dir(config: &WorkspaceConfig, workspace_dir: &str) -> (res: Option<String>)
    ensures
        res matches Some(p) ==> p@ == configured_src_dir_path(opt_view(config.src_dir), workspace_dir@),
{
    let dir = configured_src_dir(config, workspace_dir);
    let exists = path_exists(dir.as_str());
    configured_src_dir_choice(config, workspace_dir, exists)
}

} // verus!
