//! What a commit needs at run time, worked out from the manifests that
//! `compute-deps` filled in: the files of its outputs (a bundle stands for
//! the outputs it includes), the files each of them needs, and where the
//! manifest's resolution map says each needed file comes from.
use vstd::prelude::*;
use crate::builder::manifest::Dependency;
use crate::builder::query::find_piece;
use crate::builder::query::first_index;
use crate::builder::query::is_ref_boundary;
use crate::builder::query::lemma_first_index_bounds;
use crate::text::join_range;
use crate::text::join_seq;
use crate::text::push_str;
use crate::text::split_char;
use crate::text::split_seq;
use crate::text::str_eq;
use crate::text::substring;
use crate::text::lemma_split_nonempty;
use crate::text::to_owned_string;

verus! {

/// A file of an output and the files it needs.
pub struct FileNeeds {
    pub path: String,
    pub needs: Vec<String>,
}

/// What the resolver reads of a package manifest.
pub struct ManifestEntry {
    pub namespace: String,
    pub slug: String,
    pub checksum: Option<String>,
    pub stable_checksum: Option<bool>,
    /// The hash of the manifest file, when it could be read.
    pub blob_hash: Option<String>,
    pub dependencies: Vec<Dependency>,
    /// Each output's files, by output name.
    pub outputs: Vec<(String, Vec<FileNeeds>)>,
    /// Each bundle's outputs, by bundle name.
    pub bundles: Vec<(String, Vec<String>)>,
    /// Each needed file's dependency name, or `@self`.
    pub resolution: Vec<(String, String)>,
}

/// The manifests, and the refs that the repository holds.
pub struct ManifestModel {
    pub manifests: Vec<ManifestEntry>,
    pub refs: Vec<String>,
}

/// Where a needed file comes from.
pub enum NeedTarget {
    /// The commit provides it itself.
    Internal,
    /// The commit of the dependency that provides it, and the dependency's
    /// name.
    Provider { commit: String, name: String },
    /// It could not be resolved: the key it is listed under, and why.
    Unresolved { key: String, detail: String },
}

/// A file of a commit that needs another file.
pub struct Need {
    pub file: String,
    pub needed: String,
    pub target: NeedTarget,
}

/// The text of a target.
pub enum TargetView {
    Internal,
    Provider(Seq<char>, Seq<char>),
    Unresolved(Seq<char>, Seq<char>),
}

/// The text of a target.
pub open spec fn target_view(t: NeedTarget) -> TargetView {
    match t {
        NeedTarget::Internal => TargetView::Internal,
        NeedTarget::Provider { commit, name } => TargetView::Provider(commit@, name@),
        NeedTarget::Unresolved { key, detail } => TargetView::Unresolved(key@, detail@),
    }
}

/// The text of a need: file, needed file, target.
pub open spec fn need_view(n: Need) -> (Seq<char>, Seq<char>, TargetView) {
    (n.file@, n.needed@, target_view(n.target))
}

/// The texts of needs.
pub open spec fn need_views(v: Seq<Need>) -> Seq<(Seq<char>, Seq<char>, TargetView)> {
    v.map_values(|n: Need| need_view(n))
}

/// The text of each string.
pub open spec fn strs(v: Seq<String>) -> Seq<Seq<char>> {
    v.map_values(|s: String| s@)
}

/// The value of the first entry with key `k`.
pub open spec fn first_value_of<V>(s: Seq<(String, V)>, k: Seq<char>) -> Option<V>
    decreases s.len(),
{
    if s.len() == 0 {
        None
    } else if s[0].0@ == k {
        Some(s[0].1)
    } else {
        first_value_of(s.drop_first(), k)
    }
}

/// The package of a reference `…/pkg/{namespace}/{slug}/{version}/{outputs|bundles}/…`:
/// its namespace and slug.
pub open spec fn ref_package(commit: Seq<char>) -> Option<(Seq<char>, Seq<char>)> {
    let parts = split_seq(commit, '/');
    let p = first_index(parts, |x: Seq<char>| x == "pkg"@, 0);
    let e = first_index(parts, |x: Seq<char>| is_ref_boundary(x), 0);
    if p >= parts.len() || e >= parts.len() || e <= p || e - p <= 2 {
        None
    } else {
        Some((join_seq(parts.subrange((p + 1) as int, (e - 2) as int), "/"@), parts[(e - 2) as int]))
    }
}

/// The first manifest of the namespace and slug.
pub open spec fn find_manifest(ms: Seq<ManifestEntry>, ns: Seq<char>, slug: Seq<char>) -> Option<ManifestEntry>
    decreases ms.len(),
{
    if ms.len() == 0 {
        None
    } else if ms[0].namespace@ == ns && ms[0].slug@ == slug {
        Some(ms[0])
    } else {
        find_manifest(ms.drop_first(), ns, slug)
    }
}

/// The manifest of a commit.
pub open spec fn manifest_of_commit(model: ManifestModel, commit: Seq<char>) -> Option<ManifestEntry> {
    match ref_package(commit) {
        Some((ns, slug)) => find_manifest(model.manifests@, ns, slug),
        None => None,
    }
}

/// The outputs a commit stands for: the outputs of a bundle
/// (`…/bundles/{name}`), else the one output it names; nothing for a
/// bundle the manifest does not have.
pub open spec fn commit_outputs(m: ManifestEntry, commit: Seq<char>) -> Seq<Seq<char>> {
    let parts = split_seq(commit, '/');
    let kind = if parts.len() >= 2 { parts[parts.len() - 2] } else { parts[0] };
    let name = parts.last();
    if kind == "bundles"@ {
        match first_value_of(m.bundles@, name) {
            Some(includes) => strs(includes@),
            None => Seq::empty(),
        }
    } else {
        seq![name]
    }
}

/// The address of a manifest's files commit: its checksum when that is
/// stable (not marked unstable), else the hash of the manifest file.
pub open spec fn address_of(m: ManifestEntry) -> Option<Seq<char>> {
    match m.checksum {
        Some(c) => match m.stable_checksum {
            Some(false) => match m.blob_hash {
                Some(b) => Some(b@),
                None => None,
            },
            _ => Some(c@),
        },
        None => match m.blob_hash {
            Some(b) => Some(b@),
            None => None,
        },
    }
}

/// The first dependency named `name`.
pub open spec fn dep_named(deps: Seq<Dependency>, name: Seq<char>) -> Option<Dependency>
    decreases deps.len(),
{
    if deps.len() == 0 {
        None
    } else if deps[0].name matches Some(n) && n@ == name {
        Some(deps[0])
    } else {
        dep_named(deps.drop_first(), name)
    }
}

/// Where the file `needed`, which `path` needs, comes from when the
/// resolution map names the dependency `dep`: the dependency's files
/// commit `{address}/files` when the repository holds it; otherwise why
/// not.
pub open spec fn dep_target(model: ManifestModel, m: ManifestEntry, path: Seq<char>, dep: Seq<char>) -> TargetView {
    let not_found = TargetView::Unresolved(dep, path + " needs dependency "@ + dep + " (not found)"@);
    match dep_named(m.dependencies@, dep) {
        None => not_found,
        Some(d) => match ref_package(d.commit@) {
            None => not_found,
            Some((ns, slug)) => {
                let package = ns + "/"@ + slug;
                match find_manifest(model.manifests@, ns, slug) {
                    None => TargetView::Unresolved(dep, path + " needs "@ + dep + " - manifest not found for "@ + package),
                    Some(dm) => match address_of(dm) {
                        None => not_found,
                        Some(a) => if strs(model.refs@).contains(a + "/files"@) {
                            TargetView::Provider(a + "/files"@, dep)
                        } else {
                            TargetView::Unresolved(
                                package + " (run: nex compute-deps pkg/"@ + package + ".yaml)"@,
                                path + " needs "@ + dep + " - missing "@ + a.subrange(0, 12) + "/files commit"@,
                            )
                        },
                    },
                }
            },
        },
    }
}

/// The need for the file `needed` of `path`: through the resolution map;
/// nothing when the map says `@self`, unresolved when it has no entry.
pub open spec fn need_of(model: ManifestModel, m: ManifestEntry, path: Seq<char>, needed: Seq<char>) -> Seq<(Seq<char>, Seq<char>, TargetView)> {
    match first_value_of(m.resolution@, needed) {
        None => seq![(path, needed, TargetView::Unresolved(needed, path + " needs "@ + needed + " (no resolution)"@))],
        Some(d) => if d@ == "@self"@ {
            Seq::empty()
        } else {
            seq![(path, needed, dep_target(model, m, path, d@))]
        },
    }
}

/// The needs of one file, in the order of its needed files.
pub open spec fn file_needs(model: ManifestModel, m: ManifestEntry, path: Seq<char>, needed: Seq<String>) -> Seq<(Seq<char>, Seq<char>, TargetView)>
    decreases needed.len(),
{
    if needed.len() == 0 {
        Seq::empty()
    } else {
        file_needs(model, m, path, needed.drop_last()) + need_of(model, m, path, needed.last()@)
    }
}

/// The needs of the files of an output.
pub open spec fn files_needs(model: ManifestModel, m: ManifestEntry, files: Seq<FileNeeds>) -> Seq<(Seq<char>, Seq<char>, TargetView)>
    decreases files.len(),
{
    if files.len() == 0 {
        Seq::empty()
    } else {
        files_needs(model, m, files.drop_last()) + file_needs(model, m, files.last().path@, files.last().needs@)
    }
}

/// The needs of the outputs named, skipping names the manifest lacks.
pub open spec fn outputs_needs(model: ManifestModel, m: ManifestEntry, names: Seq<Seq<char>>) -> Seq<(Seq<char>, Seq<char>, TargetView)>
    decreases names.len(),
{
    if names.len() == 0 {
        Seq::empty()
    } else {
        outputs_needs(model, m, names.drop_last()) + match first_value_of(m.outputs@, names.last()) {
            Some(files) => files_needs(model, m, files@),
            None => Seq::empty(),
        }
    }
}

/// What a commit needs: nothing when no manifest describes it.
pub open spec fn model_needs(model: ManifestModel, commit: Seq<char>) -> Seq<(Seq<char>, Seq<char>, TargetView)> {
    match manifest_of_commit(model, commit) {
        None => Seq::empty(),
        Some(m) => outputs_needs(model, m, commit_outputs(m, commit)),
    }
}

/// An address that a missing files commit can be reported under: its first
/// twelve characters are ASCII.
pub open spec fn address_reportable(m: ManifestEntry) -> bool {
    match address_of(m) {
        Some(a) => a.len() >= 12 && forall|j: int| 0 <= j < 12 ==> (a[j] as u32) < 128,
        None => true,
    }
}

/// The value of the first entry with key `k`.
fn find_value<'a, V>(v: &'a Vec<(String, V)>, k: &str) -> (r: Option<&'a V>)
    ensures
        match first_value_of(v@, k@) {
            Some(x) => r matches Some(y) && *y == x,
            None => r is None,
        },
{
    let mut i: usize = 0;
    assert(v@.subrange(0, v@.len() as int) =~= v@);
    while i < v.len()
        invariant
            i <= v@.len(),
            first_value_of(v@, k@) == first_value_of(v@.subrange(i as int, v@.len() as int), k@),
        decreases v@.len() - i,
    {
        let ghost rest = v@.subrange(i as int, v@.len() as int);
        assert(rest[0] == v@[i as int]);
        if str_eq(v[i].0.as_str(), k) {
            return Some(&v[i].1);
        }
        assert(rest.drop_first() =~= v@.subrange(i + 1, v@.len() as int));
        i += 1;
    }
    None
}

/// The first manifest of the namespace and slug.
fn lookup_manifest<'a>(ms: &'a Vec<ManifestEntry>, ns: &str, slug: &str) -> (r: Option<&'a ManifestEntry>)
    ensures
        match find_manifest(ms@, ns@, slug@) {
            Some(x) => r matches Some(y) && *y == x,
            None => r is None,
        },
{
    let mut i: usize = 0;
    assert(ms@.subrange(0, ms@.len() as int) =~= ms@);
    while i < ms.len()
        invariant
            i <= ms@.len(),
            find_manifest(ms@, ns@, slug@) == find_manifest(ms@.subrange(i as int, ms@.len() as int), ns@, slug@),
        decreases ms@.len() - i,
    {
        let ghost rest = ms@.subrange(i as int, ms@.len() as int);
        assert(rest[0] == ms@[i as int]);
        if str_eq(ms[i].namespace.as_str(), ns) && str_eq(ms[i].slug.as_str(), slug) {
            return Some(&ms[i]);
        }
        assert(rest.drop_first() =~= ms@.subrange(i + 1, ms@.len() as int));
        i += 1;
    }
    None
}

/// The first dependency named `name`.
fn find_dep<'a>(deps: &'a Vec<Dependency>, name: &str) -> (r: Option<&'a Dependency>)
    ensures
        match dep_named(deps@, name@) {
            Some(x) => r matches Some(y) && *y == x,
            None => r is None,
        },
{
    let mut i: usize = 0;
    assert(deps@.subrange(0, deps@.len() as int) =~= deps@);
    while i < deps.len()
        invariant
            i <= deps@.len(),
            dep_named(deps@, name@) == dep_named(deps@.subrange(i as int, deps@.len() as int), name@),
        decreases deps@.len() - i,
    {
        let ghost rest = deps@.subrange(i as int, deps@.len() as int);
        assert(rest[0] == deps@[i as int]);
        let hit = match &deps[i].name {
            Some(n) => str_eq(n.as_str(), name),
            None => false,
        };
        if hit {
            return Some(&deps[i]);
        }
        assert(rest.drop_first() =~= deps@.subrange(i + 1, deps@.len() as int));
        i += 1;
    }
    None
}

/// Whether `v` holds `s`.
pub(crate) fn holds(v: &Vec<String>, s: &str) -> (r: bool)
    ensures
        r == strs(v@).contains(s@),
{
    let mut i: usize = 0;
    while i < v.len()
        invariant
            i <= v@.len(),
            forall|j: int| 0 <= j < i ==> v@[j]@ != s@,
        decreases v@.len() - i,
    {
        if str_eq(v[i].as_str(), s) {
            assert(strs(v@)[i as int] == s@);
            return true;
        }
        i += 1;
    }
    assert forall|j: int| 0 <= j < strs(v@).len() implies strs(v@)[j] != s@ by {
        assert(strs(v@)[j] == v@[j]@);
    }
    false
}

/// The namespace and slug of a package reference.
pub fn package_of_ref(commit: &str) -> (r: Option<(String, String)>)
    ensures
        match ref_package(commit@) {
            Some((ns, slug)) => r matches Some((a, b)) && a@ == ns && b@ == slug,
            None => r is None,
        },
{
    let parts = split_char(commit, '/');
    let ghost ps = parts.deep_view();
    let is_pkg = |p: &str| -> (b: bool)
        ensures
            b == (p@ == "pkg"@),
        { str_eq(p, "pkg") };
    let is_end = |p: &str| -> (b: bool)
        ensures
            b == is_ref_boundary(p@),
        { str_eq(p, "bundles") || str_eq(p, "outputs") };
    let p = find_piece(&parts, &is_pkg, Ghost(|x: Seq<char>| x == "pkg"@));
    let e = find_piece(&parts, &is_end, Ghost(|x: Seq<char>| is_ref_boundary(x)));
    proof {
        lemma_first_index_bounds(ps, |x: Seq<char>| x == "pkg"@, 0);
        lemma_first_index_bounds(ps, |x: Seq<char>| is_ref_boundary(x), 0);
    }
    if p >= parts.len() || e >= parts.len() || e <= p || e - p <= 2 {
        return None;
    }
    let ns = join_range(&parts, p + 1, e - 2, "/");
    let slug = to_owned_string(parts[e - 2].as_str());
    proof {
        assert(ps[e - 2] == parts@[e - 2]@);
    }
    Some((ns, slug))
}

/// The address of a manifest's files commit.
fn address(m: &ManifestEntry) -> (r: Option<String>)
    ensures
        match address_of(*m) {
            Some(a) => r matches Some(s) && s@ == a,
            None => r is None,
        },
{
    let blob = match &m.blob_hash {
        Some(b) => Some(to_owned_string(b.as_str())),
        None => None,
    };
    match &m.checksum {
        Some(c) => match m.stable_checksum {
            Some(false) => blob,
            _ => Some(to_owned_string(c.as_str())),
        },
        None => blob,
    }
}

/// Appends `a` then `b` to a copy of `s`.
fn cat3(s: &str, a: &str, b: &str) -> (r: String)
    ensures
        r@ == s@ + a@ + b@,
{
    let mut r = to_owned_string(s);
    push_str(&mut r, a);
    push_str(&mut r, b);
    r
}

/// Where the file that `path` needs comes from when the resolution map
/// names the dependency `dep`.
fn resolve_dep(model: &ManifestModel, m: &ManifestEntry, path: &str, dep: &str) -> (r: NeedTarget)
    requires
        forall|i: int| 0 <= i < model.manifests@.len() ==> address_reportable(#[trigger] model.manifests@[i]),
    ensures
        target_view(r) == dep_target(*model, *m, path@, dep@),
        r matches NeedTarget::Provider { commit, .. } ==> strs(model.refs@).contains(commit@),
{
    let not_found = || -> (t: NeedTarget)
        ensures
            target_view(t) == TargetView::Unresolved(
                dep@,
                path@ + " needs dependency "@ + dep@ + " (not found)"@,
            ),
        {
            NeedTarget::Unresolved { key: to_owned_string(dep), detail: {
                let mut d = cat3(path, " needs dependency ", dep);
                push_str(&mut d, " (not found)");
                d
            } }
        };
    let d = match find_dep(&m.dependencies, dep) {
        None => return not_found(),
        Some(d) => d,
    };
    let (ns, slug) = match package_of_ref(d.commit.as_str()) {
        None => return not_found(),
        Some(x) => x,
    };
    let package = cat3(ns.as_str(), "/", slug.as_str());
    let dm = match lookup_manifest(&model.manifests, ns.as_str(), slug.as_str()) {
        None => {
            let mut detail = cat3(path, " needs ", dep);
            push_str(&mut detail, " - manifest not found for ");
            push_str(&mut detail, package.as_str());
            return NeedTarget::Unresolved { key: to_owned_string(dep), detail };
        },
        Some(x) => x,
    };
    proof {
        lemma_found_in(model.manifests@, ns@, slug@);
        let k = choose|k: int| 0 <= k < model.manifests@.len() && model.manifests@[k] == *dm;
        assert(address_reportable(model.manifests@[k]));
    }
    let a = match address(dm) {
        None => return not_found(),
        Some(a) => a,
    };
    let fr = cat3(a.as_str(), "/files", "");
    proof {
        reveal_strlit("");
        assert(fr@ =~= a@ + "/files"@);
    }
    if holds(&model.refs, fr.as_str()) {
        NeedTarget::Provider { commit: fr, name: to_owned_string(dep) }
    } else {
        let key = cat3(package.as_str(), " (run: nex compute-deps pkg/", package.as_str());
        let mut key = key;
        push_str(&mut key, ".yaml)");
        let head = substring(a.as_str(), 0, 12);
        let mut detail = cat3(path, " needs ", dep);
        push_str(&mut detail, " - missing ");
        push_str(&mut detail, head.as_str());
        push_str(&mut detail, "/files commit");
        NeedTarget::Unresolved { key, detail }
    }
}

/// A manifest that the search finds is one of the list.
proof fn lemma_found_in(ms: Seq<ManifestEntry>, ns: Seq<char>, slug: Seq<char>)
    requires
        find_manifest(ms, ns, slug) is Some,
    ensures
        exists|k: int| 0 <= k < ms.len() && ms[k] == find_manifest(ms, ns, slug).unwrap(),
    decreases ms.len(),
{
    if !(ms[0].namespace@ == ns && ms[0].slug@ == slug) {
        lemma_found_in(ms.drop_first(), ns, slug);
        let k = choose|k: int| 0 <= k < ms.drop_first().len() && ms.drop_first()[k] == find_manifest(ms, ns, slug).unwrap();
        assert(ms[k + 1] == ms.drop_first()[k]);
    }
}

/// The need for the file `needed` that `path` needs, if it has one.
fn need_for_file(model: &ManifestModel, m: &ManifestEntry, path: &str, needed: &str) -> (r: Option<Need>)
    requires
        forall|i: int| 0 <= i < model.manifests@.len() ==> address_reportable(#[trigger] model.manifests@[i]),
    ensures
        match r {
            Some(n) => seq![need_view(n)] == need_of(*model, *m, path@, needed@),
            None => need_of(*model, *m, path@, needed@) == Seq::<(Seq<char>, Seq<char>, TargetView)>::empty(),
        },
        r matches Some(n) ==> (n.target matches NeedTarget::Provider { commit, .. } ==> strs(model.refs@).contains(commit@)),
{
    proof {
        reveal_strlit("@self");
    }
    match find_value(&m.resolution, needed) {
        None => {
            let mut detail = cat3(path, " needs ", needed);
            push_str(&mut detail, " (no resolution)");
            Some(Need {
                file: to_owned_string(path),
                needed: to_owned_string(needed),
                target: NeedTarget::Unresolved { key: to_owned_string(needed), detail },
            })
        },
        Some(d) => {
            if str_eq(d.as_str(), "@self") {
                None
            } else {
                let target = resolve_dep(model, m, path, d.as_str());
                Some(Need { file: to_owned_string(path), needed: to_owned_string(needed), target })
            }
        },
    }
}

/// The outputs that a commit stands for.
fn commit_output_names(m: &ManifestEntry, commit: &str) -> (r: Vec<String>)
    ensures
        strs(r@) == commit_outputs(*m, commit@),
{
    let parts = split_char(commit, '/');
    let ghost ps = parts.deep_view();
    proof {
        lemma_split_nonempty(commit@, '/');
        reveal_strlit("bundles");
    }
    let n = parts.len();
    let kind = if n >= 2 { parts[n - 2].as_str() } else { parts[0].as_str() };
    let name = parts[n - 1].as_str();
    proof {
        assert(ps.last() == name@);
        if n >= 2 { assert(ps[n - 2] == kind@); } else { assert(ps[0] == kind@); }
    }
    let mut out: Vec<String> = Vec::new();
    if str_eq(kind, "bundles") {
        match find_value(&m.bundles, name) {
            None => {
                assert(strs(out@) =~= Seq::<Seq<char>>::empty());
            },
            Some(includes) => {
                let mut i: usize = 0;
                while i < includes.len()
                    invariant
                        i <= includes@.len(),
                        strs(out@) == strs(includes@).subrange(0, i as int),
                    decreases includes@.len() - i,
                {
                    let ghost old = out@;
                    out.push(to_owned_string(includes[i].as_str()));
                    assert(strs(out@) =~= strs(old).push(includes@[i as int]@));
                    assert(strs(includes@)[i as int] == includes@[i as int]@);
                    assert(strs(out@) =~= strs(includes@).subrange(0, i + 1));
                    i += 1;
                }
                assert(strs(includes@).subrange(0, includes@.len() as int) =~= strs(includes@));
            },
        }
    } else {
        out.push(to_owned_string(name));
        assert(strs(out@) =~= seq![name@]);
    }
    out
}

/// What a commit needs, worked out from the manifest that describes it:
/// for each output it stands for (a bundle stands for the outputs it
/// includes) and each file of the output, each needed file through the
/// manifest's resolution map. A file the map marks `@self` adds nothing; one
/// it lacks is unresolved; a dependency name leads to that dependency's
/// files commit `{address}/files` (the address being its stable checksum,
/// else the hash of its manifest) when the repository holds it.
pub fn needs_of(model: &ManifestModel, commit: &str) -> (r: Vec<Need>)
    requires
        forall|i: int| 0 <= i < model.manifests@.len() ==> address_reportable(#[trigger] model.manifests@[i]),
    ensures
        need_views(r@) == model_needs(*model, commit@),
        forall|k: int| 0 <= k < r@.len() ==> ((#[trigger] r@[k]).target matches NeedTarget::Provider { commit, .. }
            ==> strs(model.refs@).contains(commit@)),
{
    let mut out: Vec<Need> = Vec::new();
    let (ns, slug) = match package_of_ref(commit) {
        None => {
            assert(need_views(out@) =~= Seq::<(Seq<char>, Seq<char>, TargetView)>::empty());
            return out;
        },
        Some(x) => x,
    };
    let m = match lookup_manifest(&model.manifests, ns.as_str(), slug.as_str()) {
        None => {
            assert(need_views(out@) =~= Seq::<(Seq<char>, Seq<char>, TargetView)>::empty());
            return out;
        },
        Some(m) => m,
    };
    let names = commit_output_names(m, commit);
    let ghost nv = strs(names@);
    let mut i: usize = 0;
    assert(need_views(out@) =~= outputs_needs(*model, *m, nv.subrange(0, 0)));
    while i < names.len()
        invariant
            forall|q: int| 0 <= q < model.manifests@.len() ==> address_reportable(#[trigger] model.manifests@[q]),
            i <= names@.len(),
            nv == strs(names@),
            need_views(out@) == outputs_needs(*model, *m, nv.subrange(0, i as int)),
            forall|k: int| 0 <= k < out@.len() ==> ((#[trigger] out@[k]).target matches NeedTarget::Provider { commit, .. }
                ==> strs(model.refs@).contains(commit@)),
        decreases names@.len() - i,
    {
        proof {
            assert(nv.subrange(0, i + 1).drop_last() =~= nv.subrange(0, i as int));
            assert(nv.subrange(0, i + 1).last() == names@[i as int]@);
        }
        let ghost base = need_views(out@);
        match find_value(&m.outputs, names[i].as_str()) {
            None => {
                assert(base + Seq::<(Seq<char>, Seq<char>, TargetView)>::empty() =~= base);
            },
            Some(files) => {
                let mut j: usize = 0;
                assert(need_views(out@) =~= base + files_needs(*model, *m, files@.subrange(0, 0)));
                while j < files.len()
                    invariant
                        forall|q: int| 0 <= q < model.manifests@.len() ==> address_reportable(#[trigger] model.manifests@[q]),
                        j <= files@.len(),
                        need_views(out@) == base + files_needs(*model, *m, files@.subrange(0, j as int)),
                        forall|k: int| 0 <= k < out@.len() ==> ((#[trigger] out@[k]).target matches NeedTarget::Provider { commit, .. }
                            ==> strs(model.refs@).contains(commit@)),
                    decreases files@.len() - j,
                {
                    proof {
                        assert(files@.subrange(0, j + 1).drop_last() =~= files@.subrange(0, j as int));
                        assert(files@.subrange(0, j + 1).last() == files@[j as int]);
                    }
                    let f = &files[j];
                    let ghost base2 = need_views(out@);
                    let mut k: usize = 0;
                    assert(need_views(out@) =~= base2 + file_needs(*model, *m, f.path@, f.needs@.subrange(0, 0)));
                    while k < f.needs.len()
                        invariant
                            forall|q: int| 0 <= q < model.manifests@.len() ==> address_reportable(#[trigger] model.manifests@[q]),
                            k <= f.needs@.len(),
                            need_views(out@) == base2 + file_needs(*model, *m, f.path@, f.needs@.subrange(0, k as int)),
                            forall|t: int| 0 <= t < out@.len() ==> ((#[trigger] out@[t]).target matches NeedTarget::Provider { commit, .. }
                                ==> strs(model.refs@).contains(commit@)),
                        decreases f.needs@.len() - k,
                    {
                        proof {
                            assert(f.needs@.subrange(0, k + 1).drop_last() =~= f.needs@.subrange(0, k as int));
                            assert(f.needs@.subrange(0, k + 1).last() == f.needs@[k as int]);
                        }
                        let ghost before = out@;
                        match need_for_file(model, m, f.path.as_str(), f.needs[k].as_str()) {
                            None => {
                                assert(need_views(out@) + Seq::<(Seq<char>, Seq<char>, TargetView)>::empty() =~= need_views(out@));
                            },
                            Some(n) => {
                                out.push(n);
                                proof {
                                    assert(need_views(out@) =~= need_views(before).push(need_view(out@[before.len() as int])));
                                    assert forall|t: int| 0 <= t < out@.len() implies ((#[trigger] out@[t]).target matches NeedTarget::Provider { commit, .. }
                                        ==> strs(model.refs@).contains(commit@)) by {
                                        if t < before.len() {
                                            assert(out@[t] == before[t]);
                                        }
                                    }
                                }
                            },
                        }
                        k += 1;
                    }
                    proof {
                        assert(f.needs@.subrange(0, f.needs@.len() as int) =~= f.needs@);
                    }
                    j += 1;
                }
                proof {
                    assert(files@.subrange(0, files@.len() as int) =~= files@);
                }
            },
        }
        i += 1;
    }
    proof {
        assert(nv.subrange(0, nv.len() as int) =~= nv);
    }
    out
}

} // verus!
