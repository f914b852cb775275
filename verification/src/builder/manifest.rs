//! The package and system manifests of the builder.
//!
//! Paths are held as `String`s, and the maps of outputs and bundles as
//! lists of `(name, value)` pairs whose names are distinct.
use vstd::prelude::*;
use crate::text::starts_with;
use crate::text::is_prefix;
use crate::text::to_owned_string;
use crate::text::push_str;
use crate::text::str_eq;

verus! {

/// Source for loading a manifest - either from disk or from a git blob
pub enum ManifestSource {
    /// Load from file path on disk (floating mode)
    Path(String),
    /// Load from git blob SHA (pinned mode), with path for identification
    Blob { sha: String, path: String },
}

impl ManifestSource {
    /// The path of the manifest, for identification and display.
    pub open spec fn spec_path(&self) -> Seq<char> {
        match self {
            ManifestSource::Path(p) => p@,
            ManifestSource::Blob { path, .. } => path@,
        }
    }

    /// Get the path (for identification/display)
    pub fn path(&self) -> (r: &String)
        ensures
            r@ == self.spec_path(),
    {
        match self {
            ManifestSource::Path(p) => p,
            ManifestSource::Blob { path, .. } => path,
        }
    }

    /// Check if this is an empty marker (for skipped nodes)
    pub fn is_empty(&self) -> (r: bool)
        ensures
            r == (self.spec_path().len() == 0),
    {
        self.path().as_str().unicode_len() == 0
    }
}

#[derive(Clone)]
pub struct Manifest {
    pub package: Package,
    pub dependencies: Vec<Dependency>,
    pub sources: Vec<Source>,
    pub build: Build,
    pub outputs: Vec<(String, OutputSpec)>,
    pub bundles: Vec<(String, Bundle)>,
}

#[derive(Clone)]
pub struct Package {
    pub name: String,
    pub slug: String,
    pub version: String,
    pub namespace: String,
    pub checksum: Option<String>,
    pub stable_checksum: Option<bool>,
    pub bootstrap: bool,
}

/// The OSTree namespace of a package namespace: itself when it is already
/// rooted under "pkg/", else prefixed with it.
pub open spec fn namespace_path_of(ns: Seq<char>) -> Seq<char> {
    if is_prefix("pkg/"@, ns) {
        ns
    } else {
        "pkg/"@ + ns
    }
}

impl Package {
    /// Return the namespace path used for OSTree branches, ensuring it is rooted under `pkg/`.
    pub fn namespace_path(&self) -> (r: String)
        ensures
            r@ == namespace_path_of(self.namespace@),
            is_prefix("pkg/"@, r@),
    {
        if starts_with(self.namespace.as_str(), "pkg/") {
            to_owned_string(self.namespace.as_str())
        } else {
            let mut s = to_owned_string("pkg/");
            push_str(&mut s, self.namespace.as_str());
            assert(s@.subrange(0, "pkg/"@.len() as int) =~= "pkg/"@);
            s
        }
    }
}

/// The namespace path is rooted under "pkg/", and a second application
/// leaves it unchanged.
pub proof fn lemma_namespace_path_idempotent(ns: Seq<char>)
    ensures
        is_prefix("pkg/"@, namespace_path_of(ns)),
        namespace_path_of(namespace_path_of(ns)) == namespace_path_of(ns),
{
    if !is_prefix("pkg/"@, ns) {
        assert(("pkg/"@ + ns).subrange(0, "pkg/"@.len() as int) =~= "pkg/"@);
    }
}

#[derive(Clone, Copy, PartialEq, Eq, Structural)]
pub enum ManifestKind {
    Package,
    System,
}

/// The kind of a manifest document: what its `kind` key says when that is
/// `system` or `package`, else a system when it has a `system` section.
pub open spec fn manifest_kind_of(kind: Option<Seq<char>>, has_system_section: bool) -> ManifestKind {
    match kind {
        Some(k) if k == "system"@ => ManifestKind::System,
        Some(k) if k == "package"@ => ManifestKind::Package,
        _ => if has_system_section {
            ManifestKind::System
        } else {
            ManifestKind::Package
        },
    }
}

/// Whether a manifest document describes a package or a system, from its
/// `kind` key and whether it has a `system` section.
pub fn detect_manifest_kind(kind: Option<&str>, has_system_section: bool) -> (r: ManifestKind)
    ensures
        r == manifest_kind_of(
            match kind {
                Some(k) => Some(k@),
                None => None,
            },
            has_system_section,
        ),
{
    proof {
        reveal_strlit("system");
        reveal_strlit("package");
    }
    match kind {
        Some(k) => {
            if str_eq(k, "system") {
                return ManifestKind::System;
            }
            if str_eq(k, "package") {
                return ManifestKind::Package;
            }
        },
        None => {},
    }
    if has_system_section {
        ManifestKind::System
    } else {
        ManifestKind::Package
    }
}

#[derive(Clone)]
pub struct SystemMeta {
    pub name: String,
    pub slug: String,
    pub version: String,
    pub architecture: Option<String>,
    pub boot_method: Option<String>,
    pub description: Option<String>,
    pub checksum: Option<String>,
    pub stable_checksum: Option<bool>,
}

#[derive(Clone)]
pub struct SystemManifest {
    pub schema: Option<u32>,
    pub system: SystemMeta,
    pub packages: Vec<SystemPackage>,
    pub dependencies: Vec<Dependency>,
    pub sources: Vec<Source>,
    pub build: Build,
}

#[derive(Clone)]
pub struct SystemPackage {
    pub commit: String,
    pub name: Option<String>,
}

#[derive(Clone)]
pub enum ManifestData {
    Package(Manifest),
    System(SystemManifest),
}

#[derive(Clone)]
pub struct Dependency {
    pub commit: String,
    pub name: Option<String>,
    pub manifest_ref: Option<String>,
}

#[derive(Clone)]
pub struct Source {
    pub name: String,
    pub url: Option<String>,
    pub file: Option<String>,
    pub sha256: String,
}

#[derive(Clone)]
pub struct Build {
    pub script: String,
}

#[derive(Clone)]
pub struct Bundle {
    pub includes: Vec<String>,
    pub requires: Vec<String>,
    pub suggests: Vec<String>,
}

/// A bundle as written in a manifest: a bare list of outputs, or the
/// detailed form.
pub enum BundleDef {
    Simple(Vec<String>),
    Detailed(Bundle),
}

/// The bundle that a definition describes: a bare list includes those
/// outputs and requires and suggests nothing.
pub fn bundle_from_def(def: BundleDef) -> (r: Bundle)
    ensures
        match def {
            BundleDef::Simple(includes) => r.includes@ == includes@ && r.requires@.len() == 0
                && r.suggests@.len() == 0,
            BundleDef::Detailed(b) => r == b,
        },
{
    match def {
        BundleDef::Simple(includes) => Bundle { includes, requires: Vec::new(), suggests: Vec::new() },
        BundleDef::Detailed(bundle) => bundle,
    }
}

#[derive(Clone)]
pub struct OutputSpec {
    pub files: Vec<String>,
    pub requires: Vec<String>,
    pub suggests: Vec<String>,
}

/// An output as written in a manifest: a bare list of files, or the
/// detailed form.
pub enum OutputDef {
    Simple(Vec<String>),
    Detailed(OutputSpec),
}

/// The output that a definition describes: a bare list holds those files
/// and requires and suggests nothing.
pub fn output_from_def(def: OutputDef) -> (r: OutputSpec)
    ensures
        match def {
            OutputDef::Simple(files) => r.files@ == files@ && r.requires@.len() == 0
                && r.suggests@.len() == 0,
            OutputDef::Detailed(o) => r == o,
        },
{
    match def {
        OutputDef::Simple(files) => OutputSpec { files, requires: Vec::new(), suggests: Vec::new() },
        OutputDef::Detailed(spec) => spec,
    }
}

} // verus!
