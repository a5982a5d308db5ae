//! What the shim decides when it prepares and runs a function's container:
//! the paths it derives, the arguments and environment it hands the module,
//! and the exit code it reports.
use vstd::prelude::*;

use crate::dispatcher::last_index_before;
use crate::oci_utils::{get_wasm_mounts, wasm_mounts, OciSpec};
use crate::patterns::{container_name, parent_dir_name};
use crate::text::{lemma_map_values_push, replace_all, replace_str};

verus! {

/// What `Path::new(base).join(rel)` gives, as text.
pub uninterp spec fn joined_path(base: Seq<char>, rel: Seq<char>) -> Seq<char>;

/// What `Path::new(path).parent()` gives, as text.
pub uninterp spec fn path_parent(path: Seq<char>) -> Option<Seq<char>>;

/// What `Path::new(path).file_name()` gives, as text (`None` also where the
/// name is not valid UTF-8).
pub uninterp spec fn path_file_name(path: Seq<char>) -> Option<Seq<char>>;

/// Calls `std::path::Path::join`. As its documentation says, a path that
/// starts at the root replaces the base.
#[verifier::external_body]
fn join_path(base: &str, rel: &str) -> (r: String)
    ensures
        r@ == joined_path(base@, rel@),
        rel@.len() > 0 && rel@[0] == '/' ==> r@ == rel@,
{
    std::path::Path::new(base).join(rel).display().to_string()
}

/// A path written plainly: not empty, not ending in `'/'`, without `//`, and
/// without a component `.` or `..`.
pub open spec fn plain_path(p: Seq<char>) -> bool {
    &&& p.len() > 0
    &&& p.last() != '/'
    &&& forall|i: int| 0 <= i < p.len() - 1 && #[trigger] p[i] == '/' ==> p[i + 1] != '/'
    &&& forall|i: int|
        0 <= i < p.len() && (i == 0 || p[i - 1] == '/') && #[trigger] p[i] == '.' ==> {
            &&& i + 1 < p.len() && p[i + 1] != '/'
            &&& p[i + 1] == '.' ==> i + 2 < p.len() && p[i + 2] != '/'
        }
}

/// The position of the last `'/'` of `p`, or -1 when it has none.
pub open spec fn last_slash(p: Seq<char>) -> int {
    last_index_before(p, '/', p.len() as int)
}

/// The parent of a plain path: the text before its last `'/'`; `"/"` when that
/// `'/'` is the first character, and empty when there is none.
pub open spec fn plain_parent(p: Seq<char>) -> Seq<char> {
    let k = last_slash(p);
    if k < 0 {
        seq![]
    } else if k == 0 {
        seq!['/']
    } else {
        p.subrange(0, k)
    }
}

/// The file name of a plain path: the text after its last `'/'`.
pub open spec fn plain_file_name(p: Seq<char>) -> Seq<char> {
    p.subrange(last_slash(p) + 1, p.len() as int)
}

/// Calls `std::path::Path::parent`. As its documentation says, a plain path
/// loses its final component (the parent of a path of one relative component
/// is the empty path); what it gives for other paths is not stated here.
#[verifier::external_body]
fn parent_path(path: &str) -> (r: Option<String>)
    ensures
        r matches Some(p) ==> path_parent(path@) == Some(p@),
        r is None ==> path_parent(path@) is None,
        plain_path(path@) ==> r is Some && r.unwrap()@ == plain_parent(path@),
{
    std::path::Path::new(path).parent().map(|p| p.display().to_string())
}

/// Calls `std::path::Path::file_name` and reads the name as UTF-8 text. As the
/// documentation says, that is the final component, here of a plain path;
/// what it gives for other paths is not stated here.
#[verifier::external_body]
fn file_name_of(path: &str) -> (r: Option<String>)
    ensures
        r matches Some(n) ==> path_file_name(path@) == Some(n@),
        r is None ==> path_file_name(path@) is None,
        plain_path(path@) ==> r is Some && r.unwrap()@ == plain_file_name(path@),
{
    std::path::Path::new(path).file_name().and_then(|n| n.to_str()).map(|n| n.to_string())
}

/// The paths of a function's container, derived from its root file system.
pub struct VmPaths {
    pub root_dir: String,
    pub bundle: String,
    pub container_name: String,
}

/// The container's paths: the root directory itself, its parent as the bundle,
/// and the name of that parent directory as the container's name.
pub fn vm_paths(root_path: &str) -> (r: Option<VmPaths>)
    ensures
        r matches Some(p) ==> p.root_dir@ == root_path@ && path_parent(root_path@) == Some(
            p.bundle@,
        ) && parent_dir_name(root_path@) == Some(p.container_name@),
        r is None ==> path_parent(root_path@) is None || parent_dir_name(root_path@) is None,
        plain_path(root_path@) ==> (r is Some <==> parent_dir_name(root_path@) is Some),
        plain_path(root_path@) && r is Some ==> r.unwrap().bundle@ == plain_parent(root_path@),
{
    match parent_path(root_path) {
        None => None,
        Some(bundle) => match container_name(root_path) {
            None => None,
            Some(name) => Some(VmPaths { root_dir: root_path.to_owned(), bundle, container_name: name }),
        },
    }
}

/// The file of the module named by `module_arg`, inside the root directory.
pub open spec fn module_file(root_dir: Seq<char>, module_arg: Seq<char>) -> Seq<char> {
    joined_path(root_dir, module_arg + ".wasm"@)
}

/// The path of the module file named by `module_arg` under `root_dir`.
pub fn module_file_of(root_dir: &str, module_arg: &str) -> (path: String)
    ensures
        path@ == module_file(root_dir@, module_arg@),
{
    let mut name = module_arg.to_owned();
    name.append(".wasm");
    join_path(root_dir, name.as_str())
}

/// The name under which a module found at `path` is registered: its file name
/// without `".wasm"`.
pub open spec fn registered_module_name(path: Seq<char>) -> Option<Seq<char>> {
    match path_file_name(path) {
        Some(n) => Some(replace_all(n, ".wasm"@, seq![])),
        None => None,
    }
}

/// The module name for the module file at `path`; `None` where the path names no file.
pub fn registered_module_name_of(path: &str) -> (r: Option<String>)
    ensures
        r matches Some(n) ==> registered_module_name(path@) == Some(n@),
        r is None ==> registered_module_name(path@) is None,
        plain_path(path@) ==> r is Some && r.unwrap()@ == replace_all(
            plain_file_name(path@),
            ".wasm"@,
            seq![],
        ),
{
    match file_name_of(path) {
        None => None,
        Some(name) => {
            proof {
                reveal_strlit(".wasm");
                reveal_strlit("");
            }
            assert(""@ =~= seq![]);
            Some(replace_str(name.as_str(), ".wasm", ""))
        },
    }
}

/// The directories opened to the module: the root directory (empty when there
/// is none), then the destinations of the bind and tmpfs mounts.
pub open spec fn preopens(root_dir: Option<Seq<char>>, spec: OciSpec) -> Seq<Seq<char>> {
    seq![
        match root_dir {
            Some(r) => r,
            None => seq![],
        },
    ] + wasm_mounts(spec)
}

/// The directories that the module may open.
pub fn preopen_dirs(root_dir: &Option<String>, spec: &OciSpec) -> (dirs: Vec<String>)
    ensures
        dirs@.map_values(|d: String| d@) == preopens(
            match root_dir {
                Some(r) => Some(r@),
                None => None,
            },
            *spec,
        ),
{
    let mut dirs: Vec<String> = Vec::new();
    match root_dir {
        Some(r) => dirs.push(r.clone()),
        None => dirs.push(String::new()),
    }
    let mut mounts = get_wasm_mounts(spec);
    let ghost first = dirs@;
    let ghost mounted = mounts@;
    dirs.append(&mut mounts);
    assert(dirs@.map_values(|d: String| d@) =~= first.map_values(|d: String| d@)
        + mounted.map_values(|d: String| d@));
    dirs
}

/// The text `key=value` of an environment variable.
pub open spec fn assignment(var: (String, String)) -> Seq<char> {
    var.0@ + "="@ + var.1@
}

/// The environment of the module: each variable of the shim's as `key=value`, in order.
pub fn env_assignments(vars: &Vec<(String, String)>) -> (env: Vec<String>)
    ensures
        env@.map_values(|e: String| e@) == vars@.map_values(|v: (String, String)| assignment(v)),
{
    let mut env: Vec<String> = Vec::new();
    let mut i: usize = 0;
    while i < vars.len()
        invariant
            i <= vars.len(),
            env@.map_values(|e: String| e@) == vars@.take(i as int).map_values(
                |v: (String, String)| assignment(v),
            ),
        decreases vars.len() - i,
    {
        let mut text = vars[i].0.clone();
        text.append("=");
        text.append(vars[i].1.as_str());
        assert(text@ == assignment(vars@[i as int]));
        let ghost before = env@;
        env.push(text);
        proof {
            lemma_map_values_push(before, text, |e: String| e@);
            lemma_map_values_push(
                vars@.take(i as int),
                vars@[i as int],
                |v: (String, String)| assignment(v),
            );
            assert(vars@.take(i + 1) =~= vars@.take(i as int).push(vars@[i as int]));
        }
        i += 1;
    }
    assert(vars@.take(vars.len() as int) =~= vars@);
    env
}

/// The module that runs first: the entry point's module name, `"main"` when it names none.
pub fn entry_module_name(name: Option<String>) -> (m: String)
    ensures
        name matches Some(n) ==> m == n,
        name is None ==> m@ == "main"@,
{
    match name {
        Some(n) => n,
        None => "main".to_owned(),
    }
}

/// How waiting for the container's process ended.
pub enum WaitOutcome {
    /// The process exited with this status.
    Exited(i32),
    /// The process was killed by this signal.
    Signaled(i32),
    /// The wait reported another state.
    Other,
    /// There was no child process to wait for.
    NoChild,
    /// The wait failed.
    Failed,
}

/// The exit code that the shim reports for a wait's outcome: the exit status
/// or the signal number, 0 for another state or no child, 137 for a failed wait.
pub open spec fn exit_code(outcome: WaitOutcome) -> u32 {
    match outcome {
        WaitOutcome::Exited(status) => status as u32,
        WaitOutcome::Signaled(signal) => signal as u32,
        WaitOutcome::Other => 0,
        WaitOutcome::NoChild => 0,
        WaitOutcome::Failed => 137,
    }
}

/// The exit code for how waiting for the container ended.
pub fn exit_code_of(outcome: &WaitOutcome) -> (code: u32)
    ensures
        code == exit_code(*outcome),
{
    match outcome {
        WaitOutcome::Exited(status) => *status as u32,
        WaitOutcome::Signaled(signal) => *signal as u32,
        WaitOutcome::Other => 0,
        WaitOutcome::NoChild => 0,
        WaitOutcome::Failed => 137,
    }
}

} // verus!
