//! Requests to materialize packages from OSTree into a target directory.
//!
//! The checkout itself is done by the caller; this module fixes what is
//! asked for.
use vstd::prelude::*;
use crate::text::to_owned_string;

verus! {

/// How materialized packages are laid out.
#[derive(Clone, Copy, PartialEq, Eq, Structural, Debug)]
pub enum MaterializeMode {
    /// one merged tree
    Flat,
    /// the /nex/pkg layout
    Nex,
}

/// What to materialize and where.
pub struct MaterializeConfig {
    pub repo_path: String,
    pub target_dir: String,
    pub mode: MaterializeMode,
    pub resolve_deps: bool,
    pub manifest_db_path: Option<String>,
}

impl Default for MaterializeConfig {
    /// The defaults: the build-time repository `.nex/repo` (the path that
    /// repository detection gives before any repository exists), no target,
    /// flat layout, dependency resolution on, no manifest database.
    fn default() -> (r: Self)
        ensures
            r.repo_path@ == ".nex/repo"@,
            r.target_dir@.len() == 0,
            r.mode == MaterializeMode::Flat,
            r.resolve_deps,
            r.manifest_db_path is None,
    {
        MaterializeConfig {
            repo_path: to_owned_string(".nex/repo"),
            target_dir: String::new(),
            mode: MaterializeMode::Flat,
            resolve_deps: true,
            manifest_db_path: None,
        }
    }
}

/// A commit to materialize.
pub enum MaterializeRequest {
    Bundle { commit: String },
    Output { commit: String },
    Files { commit: String, paths: Vec<String> },
}

impl MaterializeRequest {
    /// The commit of the request.
    pub open spec fn spec_commit(&self) -> Seq<char> {
        match self {
            MaterializeRequest::Bundle { commit } => commit@,
            MaterializeRequest::Output { commit } => commit@,
            MaterializeRequest::Files { commit, paths: _ } => commit@,
        }
    }

    pub fn commit(&self) -> (r: &str)
        ensures
            r@ == self.spec_commit(),
    {
        match self {
            MaterializeRequest::Bundle { commit } => commit.as_str(),
            MaterializeRequest::Output { commit } => commit.as_str(),
            MaterializeRequest::Files { commit, paths: _ } => commit.as_str(),
        }
    }
}

/// A materialization to run: its configuration and requests.
pub struct MaterializePlan {
    pub config: MaterializeConfig,
    pub requests: Vec<MaterializeRequest>,
}

/// The plan for a single bundle, with its runtime dependencies.
fn bundle_plan(repo_path: &str, commit: &str, target_dir: &str, mode: MaterializeMode) -> (r:
    MaterializePlan)
    ensures
        r.config.repo_path@ == repo_path@,
        r.config.target_dir@ == target_dir@,
        r.config.mode == mode,
        r.config.resolve_deps,
        r.config.manifest_db_path is None,
        r.requests@.len() == 1,
        r.requests@[0] matches MaterializeRequest::Bundle { commit: c } && c@ == commit@,
{
    let config = MaterializeConfig {
        repo_path: to_owned_string(repo_path),
        target_dir: to_owned_string(target_dir),
        mode,
        resolve_deps: true,
        manifest_db_path: None,
    };
    let mut requests: Vec<MaterializeRequest> = Vec::new();
    requests.push(MaterializeRequest::Bundle { commit: to_owned_string(commit) });
    MaterializePlan { config, requests }
}

/// The plan for several outputs as a flat union, without dependency
/// resolution (outputs are usually part of a closure already).
fn outputs_plan(repo_path: &str, commits: &[String], target_dir: &str) -> (r:
    MaterializePlan)
    ensures
        r.config.repo_path@ == repo_path@,
        r.config.target_dir@ == target_dir@,
        r.config.mode == MaterializeMode::Flat,
        !r.config.resolve_deps,
        r.config.manifest_db_path is None,
        r.requests@.len() == commits@.len(),
        forall|i: int|
            0 <= i < commits@.len() ==> ((#[trigger] r.requests@[i]) matches MaterializeRequest::Output {
                commit: c,
            } && c@ == commits@[i]@),
{
    let config = MaterializeConfig {
        repo_path: to_owned_string(repo_path),
        target_dir: to_owned_string(target_dir),
        mode: MaterializeMode::Flat,
        resolve_deps: false,
        manifest_db_path: None,
    };
    let mut requests: Vec<MaterializeRequest> = Vec::new();
    let mut i: usize = 0;
    while i < commits.len()
        invariant
            i <= commits@.len(),
            requests@.len() == i,
            forall|j: int|
                0 <= j < i ==> ((#[trigger] requests@[j]) matches MaterializeRequest::Output {
                    commit: c,
                } && c@ == commits@[j]@),
        decreases commits@.len() - i,
    {
        requests.push(MaterializeRequest::Output { commit: to_owned_string(commits[i].as_str()) });
        i += 1;
    }
    MaterializePlan { config, requests }
}

/// The message when a plan with requests has no manifest database.
pub open spec fn manifest_db_required() -> Seq<char> {
    "manifest_db_path is required for precomputed dependency resolution"@
}

/// Whether a plan can run: one without requests has nothing to do, and
/// one with requests needs the manifest database that holds the
/// precomputed dependencies; an error when it has none.
pub fn materialize(plan: MaterializePlan) -> (r: Result<MaterializePlan, String>)
    ensures
        plan.requests@.len() == 0 ==> r == Ok::<MaterializePlan, String>(plan),
        plan.requests@.len() > 0 && plan.config.manifest_db_path is None ==> (r matches Err(e) && e@
            == manifest_db_required()),
        plan.requests@.len() > 0 && plan.config.manifest_db_path is Some ==> r == Ok::<MaterializePlan, String>(plan),
{
    if plan.requests.len() == 0 {
        return Ok(plan);
    }
    match &plan.config.manifest_db_path {
        None => Err(to_owned_string("manifest_db_path is required for precomputed dependency resolution")),
        Some(_) => Ok(plan),
    }
}

/// Materializing a single bundle, with its runtime dependencies: the
/// defaults name no manifest database, so it is refused.
pub fn materialize_bundle(repo_path: &str, commit: &str, target_dir: &str, mode: MaterializeMode) -> (r:
    Result<MaterializePlan, String>)
    ensures
        r matches Err(e) && e@ == manifest_db_required(),
{
    materialize(bundle_plan(repo_path, commit, target_dir, mode))
}

/// Materializing several outputs as a flat union: nothing to do for no
/// outputs; otherwise refused, as the defaults name no manifest database.
pub fn materialize_outputs_flat(repo_path: &str, commits: &[String], target_dir: &str) -> (r:
    Result<MaterializePlan, String>)
    ensures
        commits@.len() == 0 ==> (r matches Ok(p) && p.requests@.len() == 0 && p.config.repo_path@ == repo_path@
            && p.config.target_dir@ == target_dir@ && p.config.mode == MaterializeMode::Flat
            && !p.config.resolve_deps),
        commits@.len() > 0 ==> (r matches Err(e) && e@ == manifest_db_required()),
{
    materialize(outputs_plan(repo_path, commits, target_dir))
}

} // verus!
