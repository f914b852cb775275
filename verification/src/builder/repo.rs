//! Where the builder finds its OSTree repository and manifest database.
//!
//! Whether a candidate directory exists is asked of the file system by the
//! caller; the order of preference is decided here.
use vstd::prelude::*;
use crate::text::to_owned_string;
use crate::text::push_str;

verus! {

/// The repository path: the build-time `.nex/repo` when it exists, else the
/// runtime `/nex/repo` when that exists, else `.nex/repo` for a new build.
pub open spec fn repo_path_choice(local_exists: bool, system_exists: bool) -> Seq<char> {
    if local_exists {
        ".nex/repo"@
    } else if system_exists {
        "/nex/repo"@
    } else {
        ".nex/repo"@
    }
}

/// detect the appropriate OSTree repo path based on environment.
/// checks in order: .nex/repo (local build-time) -> /nex/repo (runtime)
pub fn detect_repo_path(local_repo_exists: bool, system_repo_exists: bool) -> (r: String)
    ensures
        r@ == repo_path_choice(local_repo_exists, system_repo_exists),
{
    if local_repo_exists {
        return to_owned_string(".nex/repo");
    }
    if system_repo_exists {
        return to_owned_string("/nex/repo");
    }
    to_owned_string(".nex/repo")
}

/// detect the manifest database directory: the deployed `/nex/db/pkg`, else
/// the local `pkg`, else none.
pub fn detect_manifest_dir(system_db_exists: bool, local_pkg_exists: bool) -> (r: Option<String>)
    ensures
        system_db_exists ==> (r matches Some(d) && d@ == "/nex/db/pkg"@),
        !system_db_exists && local_pkg_exists ==> (r matches Some(d) && d@ == "pkg"@),
        !system_db_exists && !local_pkg_exists ==> r is None,
{
    if system_db_exists {
        return Some(to_owned_string("/nex/db/pkg"));
    }
    if local_pkg_exists {
        return Some(to_owned_string("pkg"));
    }
    None
}

/// The message for a repository path that does not exist.
pub open spec fn repo_not_found(repo_path: Seq<char>) -> Seq<char> {
    "OSTree repository not found: "@ + repo_path + ". Use --repo to specify the correct path."@
}

/// The repository path to use: the one given, else the detected one; an
/// error when it does not exist. `arg_exists` tells whether the given path
/// exists; the detected one exists when either candidate does. The caller
/// makes the path absolute.
pub fn resolve_repo_path(
    repo_arg: Option<&str>,
    arg_exists: bool,
    local_repo_exists: bool,
    system_repo_exists: bool,
) -> (r: Result<String, String>)
    ensures
        match repo_arg {
            Some(p) => if arg_exists {
                r matches Ok(s) && s@ == p@
            } else {
                r matches Err(e) && e@ == repo_not_found(p@)
            },
            None => if local_repo_exists || system_repo_exists {
                r matches Ok(s) && s@ == repo_path_choice(local_repo_exists, system_repo_exists)
            } else {
                r matches Err(e) && e@ == repo_not_found(".nex/repo"@)
            },
        },
{
    let (path, exists) = match repo_arg {
        Some(p) => (to_owned_string(p), arg_exists),
        None => (detect_repo_path(local_repo_exists, system_repo_exists), local_repo_exists || system_repo_exists),
    };
    if exists {
        Ok(path)
    } else {
        Err(repo_not_found_message(path.as_str()))
    }
}

/// The message for a repository path that does not exist.
pub fn repo_not_found_message(repo_path: &str) -> (r: String)
    ensures
        r@ == repo_not_found(repo_path@),
{
    let mut m = to_owned_string("OSTree repository not found: ");
    push_str(&mut m, repo_path);
    push_str(&mut m, ". Use --repo to specify the correct path.");
    m
}

} // verus!
