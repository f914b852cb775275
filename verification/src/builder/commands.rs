//! The arguments of the builder's subcommands.
use vstd::prelude::*;

verus! {

/// Arguments of `commit`.
pub struct CommitArgs {
    /// Commit message
    pub message: Option<String>,
}

/// Arguments of `complete`.
pub struct CompleteArgs {
    /// partial ref prefix to complete (empty for all refs)
    pub prefix: String,
    /// don't check cache status (faster, no [cached] indicator)
    pub no_cache_check: bool,
}

/// Arguments of `compute-deps`.
pub struct ComputeDepsArgs {
    /// Path to the package manifest
    pub manifest: String,
    /// OSTree repository path (auto-detected if not specified)
    pub repo: Option<String>,
    /// Don't modify the manifest, just print what would be computed
    pub dry_run: bool,
    /// Show verbose output
    pub verbose: bool,
}

/// Arguments of `install`.
pub struct InstallArgs {
    /// Package to install (e.g., "bash", "cli/shells/bash", or full ref)
    pub package: String,
    /// OSTree repository path (auto-detected if not specified)
    pub repo: Option<String>,
    /// Install specific version
    pub version: Option<String>,
    /// Commit immediately after installing
    pub commit: bool,
    /// Skip staging check (for use during system assembly)
    pub no_stage_check: bool,
    /// Use flat layout instead of /nex/pkg structure
    pub flat: bool,
    /// Skip runtime dependency resolution
    pub no_deps: bool,
    /// Show what would be installed without actually installing
    pub dry_run: bool,
}

/// Arguments of `list`.
pub struct ListArgs {
    /// OSTree repository path (auto-detected if not specified)
    pub repo: Option<String>,
    /// Show only assemblies (runtime-ready packages)
    pub assemblies: bool,
    /// Show only specific namespace
    pub namespace: Option<String>,
    /// Show full ref paths instead of summarized view
    pub full: bool,
}

/// Arguments of `rollback`.
pub struct RollbackArgs {
    /// Deployment index to rollback to (default: previous deployment)
    pub index: Option<usize>,
    /// Don't prompt for confirmation
    pub yes: bool,
}

/// Arguments of `search`.
pub struct SearchArgs {
    /// Search query (matches slug, namespace, or version)
    pub query: String,
    /// OSTree repository path (auto-detected if not specified)
    pub repo: Option<String>,
    /// Case-sensitive search
    pub case_sensitive: bool,
}

/// Arguments of `status`.
pub struct StatusArgs {
    /// Show detailed information about deployments
    pub verbose: bool,
}

/// Arguments of `switch`.
pub struct SwitchArgs {
    /// Package to switch (e.g., "bash" or "cli/shells/bash")
    pub package: String,
    /// Version to switch to
    pub version: String,
    /// Skip staging check
    pub no_stage_check: bool,
}

/// Arguments of `test-native`.
pub struct TestNativeArgs {
    /// OSTree repository path (auto-detected if not specified)
    pub repo: Option<String>,
    /// ref or commit to test
    pub ref_name: String,
}

} // verus!
