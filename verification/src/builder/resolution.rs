//! The runtime dependency resolution of `compute-deps`: which package
//! provides each library that a package's files need, and what the
//! manifest then records for each file.
//!
//! The repository listings, checkouts and commits are made by the caller;
//! the decisions on what they return are made here.
use vstd::prelude::*;
use crate::builder::manifest::Dependency;
use crate::builder::query::extract_provider_key;
use crate::builder::query::provider_key_of;
use crate::builder::query::is_library_path;
use crate::builder::query::library_path;
use crate::builder::runtime::file_name;
use crate::builder::runtime::file_name_of;
use crate::builder::scan::elf_magic;
use crate::builder::scan::elf_dependencies;
use crate::builder::scan::trimmed_names;
use crate::builder::scan::texts;
use crate::builder::scan::parse_elf;
use crate::builder::system::env_map;
use crate::builder::system::distinct_keys;
use crate::builder::system::env_get;
use crate::builder::deps::views;
use crate::builder::progress::decimal;
use crate::builder::progress::push_decimal;
use crate::sorted::keys_sorted;
use crate::sorted::kv_map;
use crate::sorted::key_slot;
use crate::sorted::lemma_kv_keys;
use crate::sorted::lemma_kv_lookup;
use crate::sorted::lemma_kv_update;
use crate::sorted::lemma_kv_insert;
use crate::text::split_char;
use crate::text::split_seq;
use crate::text::join_range;
use crate::text::join_seq;
use crate::text::lemma_split_nonempty;
use crate::text::str_eq;
use crate::text::to_owned_string;
use crate::text::push_str;
use crate::text::push_char;
use crate::text::trim;
use crate::text::trim_seq;

verus! {

/// Where a library comes from: the provider key of its package, its path,
/// and the package's files commit.
pub struct LibProvider {
    pub provider_key: String,
    pub path: String,
    pub files_commit: String,
}

/// A provider as texts.
pub open spec fn lib_view(p: LibProvider) -> (Seq<char>, Seq<char>, Seq<char>) {
    (p.provider_key@, p.path@, p.files_commit@)
}

/// The library lookup as a map from file name to provider.
pub type LibMap = Map<Seq<char>, (Seq<char>, Seq<char>, Seq<char>)>;

/// The providers of libraries by file name, sorted by name.
pub struct ProviderLookup {
    pub entries: Vec<(String, LibProvider)>,
}

impl ProviderLookup {
    /// The entries are sorted by name.
    pub open spec fn wf(&self) -> bool {
        keys_sorted(self.entries@)
    }

    /// The lookup as a map.
    pub open spec fn libs(&self) -> LibMap {
        kv_map(self.entries@, |p: LibProvider| lib_view(p))
    }

    /// An empty lookup.
    pub fn new() -> (r: Self)
        ensures
            r.wf(),
            r.libs() == LibMap::empty(),
    {
        let r = ProviderLookup { entries: Vec::new() };
        proof {
            assert(r.libs() =~= LibMap::empty());
        }
        r
    }

    /// The provider of the library with file name `name`.
    pub fn get(&self, name: &str) -> (r: Option<&LibProvider>)
        requires
            self.wf(),
        ensures
            match r {
                Some(p) => self.libs().contains_key(name@) && self.libs()[name@] == lib_view(*p),
                None => !self.libs().contains_key(name@),
            },
    {
        let ghost f = |p: LibProvider| lib_view(p);
        let (i, found) = key_slot(&self.entries, name);
        proof {
            lemma_kv_keys(self.entries@, f, name@);
        }
        if found {
            proof {
                lemma_kv_lookup(self.entries@, f, i as int);
            }
            Some(&self.entries[i].1)
        } else {
            None
        }
    }

    /// Records `p` for `name`: always when `replace`, else only when the
    /// name has no provider yet.
    fn put(&mut self, name: &str, p: LibProvider, replace: bool)
        requires
            old(self).wf(),
        ensures
            final(self).wf(),
            final(self).libs() == if replace || !old(self).libs().contains_key(name@) {
                old(self).libs().insert(name@, lib_view(p))
            } else {
                old(self).libs()
            },
    {
        let ghost f = |q: LibProvider| lib_view(q);
        let (i, found) = key_slot(&self.entries, name);
        proof {
            lemma_kv_keys(self.entries@, f, name@);
        }
        if found {
            if replace {
                let ghost before = self.entries@;
                let entry = (to_owned_string(name), p);
                proof {
                    lemma_kv_update(before, f, i as int, entry);
                }
                self.entries.set(i, entry);
                proof {
                    assert(self.entries@ =~= before.update(i as int, entry));
                }
            }
        } else {
            let ghost before = self.entries@;
            let entry = (to_owned_string(name), p);
            self.entries.insert(i, entry);
            proof {
                lemma_kv_insert(before, f, i as int, entry);
            }
        }
    }
}

/// The path under which a listed file is indexed: the listing's entry
/// made absolute, for a file (not a directory) that looks like a library.
pub open spec fn lib_file_path(f: Seq<char>) -> Option<Seq<char>> {
    if f.len() == 0 || f.last() == '/' {
        None
    } else {
        let p = if f[0] == '/' {
            f
        } else {
            seq!['/'] + f
        };
        if library_path(p) {
            Some(p)
        } else {
            None
        }
    }
}

/// The lookup after one listed file of package `key` (files commit `fc`)
/// is indexed by its file name; an existing entry stays unless `replace`.
pub open spec fn index_file(m: LibMap, f: Seq<char>, key: Seq<char>, fc: Seq<char>, replace: bool) -> LibMap {
    match lib_file_path(f) {
        None => m,
        Some(p) => match file_name_of(p) {
            None => m,
            Some(b) => if replace || !m.contains_key(b) {
                m.insert(b, (key, p, fc))
            } else {
                m
            },
        },
    }
}

/// The lookup after each listed file is indexed in turn.
pub open spec fn index_listing_files(
    m: LibMap,
    files: Seq<Seq<char>>,
    key: Seq<char>,
    fc: Seq<char>,
    replace: bool,
) -> LibMap
    decreases files.len(),
{
    if files.len() == 0 {
        m
    } else {
        index_file(index_listing_files(m, files.drop_last(), key, fc, replace), files.last(), key, fc, replace)
    }
}

/// Indexes the library files of a listing of package `key`.
fn index_files(lookup: &mut ProviderLookup, files: &Vec<String>, key: &str, fc: &str, replace: bool)
    requires
        old(lookup).wf(),
    ensures
        final(lookup).wf(),
        final(lookup).libs() == index_listing_files(old(lookup).libs(), views(files@), key@, fc@, replace),
{
    let ghost start = lookup.libs();
    let mut i: usize = 0;
    while i < files.len()
        invariant
            lookup.wf(),
            i <= files@.len(),
            lookup.libs() == index_listing_files(start, views(files@).subrange(0, i as int), key@, fc@, replace),
        decreases files@.len() - i,
    {
        proof {
            assert(views(files@).subrange(0, i + 1).drop_last() =~= views(files@).subrange(0, i as int));
            assert(views(files@).subrange(0, i + 1).last() == files@[i as int]@);
        }
        let f = files[i].as_str();
        let n = f.unicode_len();
        if n > 0 && f.get_char(n - 1) != '/' {
            let mut p = String::new();
            if f.get_char(0) != '/' {
                push_char(&mut p, '/');
            }
            push_str(&mut p, f);
            proof {
                assert(p@ =~= if f@[0] == '/' { f@ } else { seq!['/'] + f@ });
            }
            if is_library_path(p.as_str()) {
                match file_name(p.as_str()) {
                    Some(b) => {
                        let prov = LibProvider {
                            provider_key: to_owned_string(key),
                            path: p,
                            files_commit: to_owned_string(fc),
                        };
                        lookup.put(b.as_str(), prov, replace);
                    },
                    None => {},
                }
            }
        }
        i += 1;
    }
    proof {
        assert(views(files@).subrange(0, files@.len() as int) =~= views(files@));
    }
}

/// The listings as texts; `None` where a commit could not be listed.
pub open spec fn listing_views(v: Seq<Option<Vec<String>>>) -> Seq<Option<Seq<Seq<char>>>> {
    v.map_values(|o: Option<Vec<String>>| match o {
        Some(f) => Some(views(f@)),
        None => None,
    })
}

/// The files commit of a dependency's package: the one found for its
/// provider key, or the dependency's own commit.
pub open spec fn files_commit_for(fcs: Map<Seq<char>, Seq<char>>, commit: Seq<char>) -> Seq<char> {
    let key = provider_key_of(commit);
    if fcs.contains_key(key) {
        fcs[key]
    } else {
        commit
    }
}

/// The lookup after the dependencies are indexed from the last to the
/// first, an earlier entry never replaced: the last dependency wins, as in
/// a union checkout.
pub open spec fn deps_lookup(
    m: LibMap,
    deps: Seq<Seq<char>>,
    listings: Seq<Option<Seq<Seq<char>>>>,
    fcs: Map<Seq<char>, Seq<char>>,
) -> LibMap
    decreases deps.len(),
{
    if deps.len() == 0 || listings.len() == 0 {
        m
    } else {
        let c = deps.last();
        let m1 = match listings.last() {
            Some(files) => index_listing_files(m, files, provider_key_of(c), files_commit_for(fcs, c), false),
            None => m,
        };
        deps_lookup(m1, deps.drop_last(), listings.drop_last(), fcs)
    }
}

/// The lookup after the package's own outputs are indexed, each entry
/// replacing what the dependencies gave.
pub open spec fn self_lookup(
    m: LibMap,
    listings: Seq<Option<Seq<Seq<char>>>>,
    key: Seq<char>,
    fc: Seq<char>,
) -> LibMap
    decreases listings.len(),
{
    if listings.len() == 0 {
        m
    } else {
        let m1 = self_lookup(m, listings.drop_last(), key, fc);
        match listings.last() {
            Some(files) => index_listing_files(m1, files, key, fc, true),
            None => m1,
        }
    }
}

/// The library lookup of a package: the library files of its dependencies
/// (`dep_listings[i]` lists `dep_commits[i]`, `None` where it could not be
/// listed), the last dependency winning, then those of its own outputs
/// (`self_listings`), which win over all. `files_commits` gives each
/// dependency package's files commit.
pub fn build_provider_lookup(
    dep_commits: &Vec<String>,
    dep_listings: &Vec<Option<Vec<String>>>,
    files_commits: &Vec<(String, String)>,
    self_listings: &Vec<Option<Vec<String>>>,
    self_provider_key: &str,
    self_files_commit: &str,
) -> (r: ProviderLookup)
    requires
        dep_listings@.len() == dep_commits@.len(),
        distinct_keys(files_commits@),
    ensures
        r.wf(),
        r.libs() == self_lookup(
            deps_lookup(LibMap::empty(), views(dep_commits@), listing_views(dep_listings@), env_map(files_commits@)),
            listing_views(self_listings@),
            self_provider_key@,
            self_files_commit@,
        ),
{
    let ghost deps = views(dep_commits@);
    let ghost ls = listing_views(dep_listings@);
    let ghost fcs = env_map(files_commits@);
    let ghost target = deps_lookup(LibMap::empty(), deps, ls, fcs);
    let mut lookup = ProviderLookup::new();
    let mut i: usize = dep_commits.len();
    proof {
        assert(deps.subrange(0, i as int) =~= deps);
        assert(ls.subrange(0, i as int) =~= ls);
    }
    while i > 0
        invariant
            lookup.wf(),
            i <= dep_commits@.len(),
            dep_listings@.len() == dep_commits@.len(),
            distinct_keys(files_commits@),
            deps == views(dep_commits@),
            ls == listing_views(dep_listings@),
            fcs == env_map(files_commits@),
            deps_lookup(lookup.libs(), deps.subrange(0, i as int), ls.subrange(0, i as int), fcs) == target,
        decreases i,
    {
        let c = dep_commits[i - 1].as_str();
        let key = extract_provider_key(c);
        let fc = match env_get(files_commits, key.as_str()) {
            Some(f) => f,
            None => to_owned_string(c),
        };
        proof {
            let d = deps.subrange(0, i as int);
            let l = ls.subrange(0, i as int);
            assert(d.last() == c@);
            assert(l.last() == ls[i - 1]);
            assert(d.drop_last() =~= deps.subrange(0, i - 1));
            assert(l.drop_last() =~= ls.subrange(0, i - 1));
            assert(fc@ == files_commit_for(fcs, c@));
        }
        match &dep_listings[i - 1] {
            Some(files) => {
                proof {
                    assert(ls[i - 1] == Some(views(files@)));
                }
                index_files(&mut lookup, files, key.as_str(), fc.as_str(), false);
            },
            None => {},
        }
        i -= 1;
    }
    let ghost sls = listing_views(self_listings@);
    let ghost start = lookup.libs();
    let mut j: usize = 0;
    while j < self_listings.len()
        invariant
            lookup.wf(),
            j <= self_listings@.len(),
            sls == listing_views(self_listings@),
            lookup.libs() == self_lookup(start, sls.subrange(0, j as int), self_provider_key@, self_files_commit@),
        decreases self_listings@.len() - j,
    {
        proof {
            assert(sls.subrange(0, j + 1).drop_last() =~= sls.subrange(0, j as int));
            assert(sls.subrange(0, j + 1).last() == sls[j as int]);
        }
        match &self_listings[j] {
            Some(files) => {
                index_files(&mut lookup, files, self_provider_key, self_files_commit, true);
            },
            None => {},
        }
        j += 1;
    }
    proof {
        assert(sls.subrange(0, self_listings@.len() as int) =~= sls);
    }
    lookup
}

/// What the resolution map records for a library of provider `pk`: `@self`
/// for the package's own libraries, the dependency's name where one is
/// known, else the provider key.
pub open spec fn resolution_value(pk: Seq<char>, self_key: Seq<char>, names: Map<Seq<char>, Seq<char>>) -> Seq<char> {
    if pk == self_key {
        "@self"@
    } else if names.contains_key(pk) {
        names[pk]
    } else {
        pk
    }
}

/// The library paths that a file needs: those of the needed libraries that
/// the lookup knows, in order.
pub open spec fn needs_of(needed: Seq<Seq<char>>, libs: LibMap) -> Seq<Seq<char>>
    decreases needed.len(),
{
    if needed.len() == 0 {
        Seq::empty()
    } else {
        let r = needs_of(needed.drop_last(), libs);
        if libs.contains_key(needed.last()) {
            r.push(libs[needed.last()].1)
        } else {
            r
        }
    }
}

/// The resolution map after a file's needed libraries are resolved: each
/// known library's path gets its resolution value, unless it has one.
pub open spec fn resolved_after(
    res: Map<Seq<char>, Seq<char>>,
    needed: Seq<Seq<char>>,
    libs: LibMap,
    self_key: Seq<char>,
    names: Map<Seq<char>, Seq<char>>,
) -> Map<Seq<char>, Seq<char>>
    decreases needed.len(),
{
    if needed.len() == 0 {
        res
    } else {
        let r = resolved_after(res, needed.drop_last(), libs, self_key, names);
        let n = needed.last();
        if libs.contains_key(n) && !r.contains_key(libs[n].1) {
            r.insert(libs[n].1, resolution_value(libs[n].0, self_key, names))
        } else {
            r
        }
    }
}

/// Resolves the libraries that one file needs: returns the paths of those
/// that the lookup knows, and records in `resolution` (path to dependency
/// name) the ones it has no entry for. `names` maps provider keys to the
/// dependencies' names.
pub fn resolve_needs(
    needed: &Vec<String>,
    lookup: &ProviderLookup,
    self_provider_key: &str,
    names: &Vec<(String, String)>,
    resolution: &mut Vec<(String, String)>,
) -> (r: Vec<String>)
    requires
        lookup.wf(),
        distinct_keys(names@),
        distinct_keys(old(resolution)@),
    ensures
        distinct_keys(final(resolution)@),
        views(r@) == needs_of(views(needed@), lookup.libs()),
        env_map(final(resolution)@) == resolved_after(
            env_map(old(resolution)@),
            views(needed@),
            lookup.libs(),
            self_provider_key@,
            env_map(names@),
        ),
{
    let ghost start = env_map(resolution@);
    let mut needs: Vec<String> = Vec::new();
    let mut i: usize = 0;
    while i < needed.len()
        invariant
            lookup.wf(),
            distinct_keys(names@),
            distinct_keys(resolution@),
            i <= needed@.len(),
            start == env_map(old(resolution)@),
            views(needs@) == needs_of(views(needed@).subrange(0, i as int), lookup.libs()),
            env_map(resolution@) == resolved_after(
                start,
                views(needed@).subrange(0, i as int),
                lookup.libs(),
                self_provider_key@,
                env_map(names@),
            ),
        decreases needed@.len() - i,
    {
        proof {
            assert(views(needed@).subrange(0, i + 1).drop_last() =~= views(needed@).subrange(0, i as int));
            assert(views(needed@).subrange(0, i + 1).last() == needed@[i as int]@);
        }
        match lookup.get(needed[i].as_str()) {
            Some(prov) => {
                let ghost before = views(needs@);
                needs.push(to_owned_string(prov.path.as_str()));
                proof {
                    assert(views(needs@) =~= before.push(prov.path@));
                }
                let value = if str_eq(prov.provider_key.as_str(), self_provider_key) {
                    to_owned_string("@self")
                } else {
                    match env_get(names, prov.provider_key.as_str()) {
                        Some(n) => n,
                        None => to_owned_string(prov.provider_key.as_str()),
                    }
                };
                match env_get(resolution, prov.path.as_str()) {
                    Some(_) => {},
                    None => {
                        crate::builder::system::env_insert(resolution, prov.path.as_str(), value.as_str());
                    },
                }
            },
            None => {},
        }
        i += 1;
    }
    proof {
        assert(views(needed@).subrange(0, needed@.len() as int) =~= views(needed@));
    }
    needs
}

/// The dependency's name, as text.
pub open spec fn name_of(d: Dependency) -> Option<Seq<char>> {
    match d.name {
        Some(n) => Some(n@),
        None => None,
    }
}

/// The first dependency without a name.
pub open spec fn first_unnamed(deps: Seq<Dependency>, i: int) -> bool {
    0 <= i < deps.len() && deps[i].name is None && forall|j: int| 0 <= j < i ==> #[trigger] deps[j].name is Some
}

/// The names of the dependencies, each once, in the order in which they
/// first occur.
pub open spec fn dep_names(deps: Seq<Dependency>) -> Seq<Seq<char>>
    decreases deps.len(),
{
    if deps.len() == 0 {
        Seq::empty()
    } else {
        let r = dep_names(deps.drop_last());
        match name_of(deps.last()) {
            Some(n) => if r.contains(n) {
                r
            } else {
                r.push(n)
            },
            None => r,
        }
    }
}

/// The provider keys of the dependencies named `name`, each once, in the
/// order in which they first occur.
pub open spec fn providers_named(deps: Seq<Dependency>, name: Seq<char>) -> Seq<Seq<char>>
    decreases deps.len(),
{
    if deps.len() == 0 {
        Seq::empty()
    } else {
        let r = providers_named(deps.drop_last(), name);
        let k = provider_key_of(deps.last().commit@);
        if name_of(deps.last()) == Some(name) && !r.contains(k) {
            r.push(k)
        } else {
            r
        }
    }
}

/// The names among `names` that more than one package uses.
pub open spec fn conflicting(deps: Seq<Dependency>, names: Seq<Seq<char>>) -> Seq<Seq<char>>
    decreases names.len(),
{
    if names.len() == 0 {
        Seq::empty()
    } else {
        let r = conflicting(deps, names.drop_last());
        if providers_named(deps, names.last()).len() > 1 {
            r.push(names.last())
        } else {
            r
        }
    }
}

/// The lines that list providers.
pub open spec fn provider_lines(ps: Seq<Seq<char>>) -> Seq<char>
    decreases ps.len(),
{
    if ps.len() == 0 {
        Seq::empty()
    } else {
        provider_lines(ps.drop_last()) + "    - "@ + ps.last() + "\n"@
    }
}

/// The report of the conflicting names.
pub open spec fn conflict_report(deps: Seq<Dependency>, names: Seq<Seq<char>>) -> Seq<char>
    decreases names.len(),
{
    if names.len() == 0 {
        Seq::empty()
    } else {
        conflict_report(deps, names.drop_last()) + "  '"@ + names.last() + "' maps to:\n"@ + provider_lines(
            providers_named(deps, names.last()),
        )
    }
}

/// The map from provider key to dependency name, a later dependency
/// replacing an earlier one's name.
pub open spec fn key_names(deps: Seq<Dependency>) -> Map<Seq<char>, Seq<char>>
    decreases deps.len(),
{
    if deps.len() == 0 {
        Map::empty()
    } else {
        let m = key_names(deps.drop_last());
        match name_of(deps.last()) {
            Some(n) => m.insert(provider_key_of(deps.last().commit@), n),
            None => m,
        }
    }
}

/// The message for a dependency without a name.
pub open spec fn unnamed_message(commit: Seq<char>) -> Seq<char> {
    "Dependency "@ + commit + " has no name field. All dependencies must have unique names."@
}

/// The header of the report of name conflicts.
pub open spec fn conflict_header() -> Seq<char> {
    "Dependency name conflicts (same name used for different packages):\n"@
}

/// Whether `v` holds `s`.
fn holds(v: &Vec<String>, s: &str) -> (r: bool)
    ensures
        r == views(v@).contains(s@),
{
    let mut i: usize = 0;
    while i < v.len()
        invariant
            i <= v@.len(),
            forall|j: int| 0 <= j < i ==> v@[j]@ != s@,
        decreases v@.len() - i,
    {
        if str_eq(v[i].as_str(), s) {
            assert(views(v@)[i as int] == s@);
            return true;
        }
        i += 1;
    }
    assert forall|j: int| 0 <= j < views(v@).len() implies views(v@)[j] != s@ by {
        assert(views(v@)[j] == v@[j]@);
    }
    false
}

/// The provider keys of the dependencies named `name`.
fn collect_providers(deps: &Vec<Dependency>, name: &str) -> (r: Vec<String>)
    ensures
        views(r@) == providers_named(deps@, name@),
{
    let mut ps: Vec<String> = Vec::new();
    let mut i: usize = 0;
    while i < deps.len()
        invariant
            i <= deps@.len(),
            views(ps@) == providers_named(deps@.subrange(0, i as int), name@),
        decreases deps@.len() - i,
    {
        proof {
            assert(deps@.subrange(0, i + 1).drop_last() =~= deps@.subrange(0, i as int));
            assert(deps@.subrange(0, i + 1).last() == deps@[i as int]);
        }
        let named = match &deps[i].name {
            Some(n) => str_eq(n.as_str(), name),
            None => false,
        };
        if named {
            let k = extract_provider_key(deps[i].commit.as_str());
            if !holds(&ps, k.as_str()) {
                let ghost before = views(ps@);
                ps.push(k);
                proof {
                    assert(views(ps@) =~= before.push(ps@.last()@));
                }
            }
        }
        i += 1;
    }
    proof {
        assert(deps@.subrange(0, deps@.len() as int) =~= deps@);
    }
    ps
}

/// The provider key of each dependency mapped to its name. Every
/// dependency must have a name, and one name must not be used by two
/// packages; the error says which.
pub fn dependency_names(deps: &Vec<Dependency>) -> (r: Result<Vec<(String, String)>, String>)
    ensures
        (exists|i: int| first_unnamed(deps@, i)) ==> (r matches Err(e) && exists|i: int|
            first_unnamed(deps@, i) && e@ == unnamed_message(deps@[i].commit@)),
        !(exists|i: int| first_unnamed(deps@, i)) && conflicting(deps@, dep_names(deps@)).len() > 0 ==> (
        r matches Err(e) && e@ == conflict_header() + conflict_report(deps@, conflicting(deps@, dep_names(deps@)))),
        !(exists|i: int| first_unnamed(deps@, i)) && conflicting(deps@, dep_names(deps@)).len() == 0 ==> (
        r matches Ok(v) && distinct_keys(v@) && env_map(v@) == key_names(deps@)),
{
    let mut keys: Vec<(String, String)> = Vec::new();
    let mut names: Vec<String> = Vec::new();
    proof {
        assert(env_map(keys@) =~= Map::<Seq<char>, Seq<char>>::empty());
    }
    let mut i: usize = 0;
    while i < deps.len()
        invariant
            i <= deps@.len(),
            forall|j: int| 0 <= j < i ==> #[trigger] deps@[j].name is Some,
            distinct_keys(keys@),
            env_map(keys@) == key_names(deps@.subrange(0, i as int)),
            views(names@) == dep_names(deps@.subrange(0, i as int)),
        decreases deps@.len() - i,
    {
        proof {
            assert(deps@.subrange(0, i + 1).drop_last() =~= deps@.subrange(0, i as int));
            assert(deps@.subrange(0, i + 1).last() == deps@[i as int]);
        }
        match &deps[i].name {
            Some(n) => {
                let k = extract_provider_key(deps[i].commit.as_str());
                crate::builder::system::env_insert(&mut keys, k.as_str(), n.as_str());
                if !holds(&names, n.as_str()) {
                    let ghost before = views(names@);
                    names.push(to_owned_string(n.as_str()));
                    proof {
                        assert(views(names@) =~= before.push(n@));
                    }
                }
            },
            None => {
                let mut e = to_owned_string("Dependency ");
                push_str(&mut e, deps[i].commit.as_str());
                push_str(&mut e, " has no name field. All dependencies must have unique names.");
                proof {
                    assert(first_unnamed(deps@, i as int));
                }
                return Err(e);
            },
        }
        i += 1;
    }
    proof {
        assert(deps@.subrange(0, deps@.len() as int) =~= deps@);
        assert forall|k: int| !first_unnamed(deps@, k) by {
            if 0 <= k < deps@.len() {
                assert(deps@[k].name is Some);
            }
        }
    }
    let ghost all = views(names@);
    let mut report = String::new();
    let mut any_conflict = false;
    let ghost mut found: Seq<Seq<char>> = Seq::empty();
    let mut j: usize = 0;
    while j < names.len()
        invariant
            j <= names@.len(),
            all == views(names@),
            all == dep_names(deps@),
            found == conflicting(deps@, all.subrange(0, j as int)),
            any_conflict == (found.len() > 0),
            report@ == conflict_report(deps@, found),
        decreases names@.len() - j,
    {
        proof {
            assert(all.subrange(0, j + 1).drop_last() =~= all.subrange(0, j as int));
            assert(all.subrange(0, j + 1).last() == names@[j as int]@);
        }
        let ps = collect_providers(deps, names[j].as_str());
        if ps.len() > 1 {
            push_str(&mut report, "  '");
            push_str(&mut report, names[j].as_str());
            push_str(&mut report, "' maps to:\n");
            let ghost pv = views(ps@);
            let ghost base = report@;
            let mut k: usize = 0;
            while k < ps.len()
                invariant
                    k <= ps@.len(),
                    pv == views(ps@),
                    report@ == base + provider_lines(pv.subrange(0, k as int)),
                decreases ps@.len() - k,
            {
                proof {
                    assert(pv.subrange(0, k + 1).drop_last() =~= pv.subrange(0, k as int));
                    assert(pv.subrange(0, k + 1).last() == ps@[k as int]@);
                }
                push_str(&mut report, "    - ");
                push_str(&mut report, ps[k].as_str());
                push_str(&mut report, "\n");
                proof {
                    assert(report@ =~= base + provider_lines(pv.subrange(0, k + 1)));
                }
                k += 1;
            }
            proof {
                assert(pv.subrange(0, ps@.len() as int) =~= pv);
                let f2 = found.push(names@[j as int]@);
                assert(f2.drop_last() =~= found);
                assert(report@ =~= conflict_report(deps@, f2));
                found = f2;
            }
            any_conflict = true;
        }
        j += 1;
    }
    proof {
        assert(all.subrange(0, names@.len() as int) =~= all);
    }
    if any_conflict {
        let mut e = to_owned_string("Dependency name conflicts (same name used for different packages):\n");
        push_str(&mut e, report.as_str());
        return Err(e);
    }
    Ok(keys)
}

/// The name of an output: the last component of its ref.
pub open spec fn output_name_of(output_ref: Seq<char>) -> Seq<char> {
    split_seq(output_ref, '/').last()
}

/// The name of the output that a ref commits (`.../outputs/bin` gives
/// `bin`).
pub fn output_name(output_ref: &str) -> (r: String)
    ensures
        r@ == output_name_of(output_ref@),
{
    let parts = split_char(output_ref, '/');
    proof {
        lemma_split_nonempty(output_ref@, '/');
    }
    let n = parts.len();
    to_owned_string(parts[n - 1].as_str())
}

/// The address of a package's files commit when its checksum is stable (a
/// checksum that is not marked unstable); otherwise the caller hashes the
/// manifest.
pub fn stable_address(checksum: &Option<String>, stable_checksum: Option<bool>) -> (r: Option<String>)
    ensures
        match checksum {
            Some(c) => match stable_checksum {
                Some(false) => r is None,
                _ => r matches Some(a) && a@ == c@,
            },
            None => r is None,
        },
{
    match checksum {
        Some(c) => match stable_checksum {
            Some(false) => None,
            _ => Some(to_owned_string(c.as_str())),
        },
        None => None,
    }
}

/// The ref of a package's files commit: `{hash}/files`.
pub fn files_ref(address_hash: &str) -> (r: String)
    ensures
        r@ == address_hash@ + "/files"@,
{
    let mut r = to_owned_string(address_hash);
    push_str(&mut r, "/files");
    r
}

/// The metadata of a files commit: its address, its package and how many
/// outputs it joins.
pub fn files_commit_metadata(
    address_hash: &str,
    namespace_path: &str,
    slug: &str,
    version: &str,
    output_count: usize,
) -> (r: Vec<(String, String)>)
    ensures
        r@.len() == 3,
        r@[0].0@ == "nex.address_hash"@ && r@[0].1@ == address_hash@,
        r@[1].0@ == "nex.package"@ && r@[1].1@ == namespace_path@ + "/"@ + slug@ + "/"@ + version@,
        r@[2].0@ == "nex.output_count"@ && r@[2].1@ == decimal(output_count as nat),
{
    let mut v: Vec<(String, String)> = Vec::new();
    v.push((to_owned_string("nex.address_hash"), to_owned_string(address_hash)));
    let mut pkg = to_owned_string(namespace_path);
    push_str(&mut pkg, "/");
    push_str(&mut pkg, slug);
    push_str(&mut pkg, "/");
    push_str(&mut pkg, version);
    v.push((to_owned_string("nex.package"), pkg));
    let mut count = String::new();
    push_decimal(&mut count, output_count as u64);
    proof {
        assert(count@ =~= Seq::<char>::empty() + decimal(output_count as nat));
    }
    v.push((to_owned_string("nex.output_count"), count));
    v
}

/// A provider key (`namespace/slug/version`) taken apart: its namespace
/// path, slug and version; nothing with fewer than two components.
pub open spec fn provider_key_parts(key: Seq<char>) -> Option<(Seq<char>, Seq<char>, Seq<char>)> {
    let parts = split_seq(key, '/');
    if parts.len() < 2 {
        None
    } else {
        Some((join_seq(parts.subrange(0, parts.len() - 2), "/"@), parts[parts.len() - 2], parts.last()))
    }
}

/// Where a dependency package is described and committed: the path of its
/// manifest (`pkg/{namespace}/{slug}.yaml`) and the prefix of its output
/// refs.
pub fn provider_locations(provider_key: &str) -> (r: Option<(String, String)>)
    ensures
        match provider_key_parts(provider_key@) {
            Some((ns, slug, version)) => r matches Some((m, o)) && m@ == "pkg/"@ + ns + "/"@ + slug + ".yaml"@
                && o@ == "x86_64/pkg/"@ + ns + "/"@ + slug + "/"@ + version + "/outputs/"@,
            None => r is None,
        },
{
    let parts = split_char(provider_key, '/');
    let n = parts.len();
    if n < 2 {
        return None;
    }
    let ns = join_range(&parts, 0, n - 2, "/");
    proof {
        assert(parts.deep_view().subrange(0, n - 2) =~= parts.deep_view().subrange(0, n - 2));
    }
    let slug = parts[n - 2].as_str();
    let version = parts[n - 1].as_str();
    let mut m = to_owned_string("pkg/");
    push_str(&mut m, ns.as_str());
    push_str(&mut m, "/");
    push_str(&mut m, slug);
    push_str(&mut m, ".yaml");
    let mut o = to_owned_string("x86_64/pkg/");
    push_str(&mut o, ns.as_str());
    push_str(&mut o, "/");
    push_str(&mut o, slug);
    push_str(&mut o, "/");
    push_str(&mut o, version);
    push_str(&mut o, "/outputs/");
    Some((m, o))
}

/// The libraries an ELF image needs, for `compute-deps`: its trimmed,
/// non-empty libraries, then the file name of its interpreter when that is
/// not among them; nothing for other files.
pub open spec fn elf_needs_of(data: Seq<u8>) -> Seq<Seq<char>> {
    if data.len() < 4 || data.subrange(0, 4) != elf_magic() {
        Seq::empty()
    } else {
        match elf_dependencies(data) {
            Some((libs, interp)) => {
                let needed = trimmed_names(libs);
                match interp {
                    Some(i) => {
                        let b = match file_name_of(i) {
                            Some(n) => n,
                            None => i,
                        };
                        if b.len() > 0 && !needed.contains(b) {
                            needed.push(b)
                        } else {
                            needed
                        }
                    },
                    None => needed,
                }
            },
            None => Seq::empty(),
        }
    }
}

/// The libraries that the file with bytes `data` needs.
pub fn scan_elf_for_deps(data: &[u8]) -> (r: Vec<String>)
    ensures
        views(r@) == elf_needs_of(data@),
{
    if data.len() < 4 || !(data[0] == 0x7f && data[1] == 0x45 && data[2] == 0x4c && data[3] == 0x46) {
        proof {
            if data@.len() >= 4 && data@.subrange(0, 4) == elf_magic() {
                assert(data@.subrange(0, 4)[0] == data@[0]);
                assert(data@.subrange(0, 4)[1] == data@[1]);
                assert(data@.subrange(0, 4)[2] == data@[2]);
                assert(data@.subrange(0, 4)[3] == data@[3]);
            }
        }
        return Vec::new();
    }
    assert(data@.subrange(0, 4) =~= elf_magic());
    match parse_elf(data) {
        Some((libs, interp)) => {
            let mut needed: Vec<String> = Vec::new();
            let mut i: usize = 0;
            while i < libs.len()
                invariant
                    i <= libs@.len(),
                    views(needed@) == trimmed_names(texts(libs@).subrange(0, i as int)),
                decreases libs@.len() - i,
            {
                proof {
                    assert(texts(libs@).subrange(0, i + 1).drop_last() =~= texts(libs@).subrange(0, i as int));
                }
                let t = trim(libs[i].as_str());
                let ghost before = views(needed@);
                if t.as_str().unicode_len() > 0 {
                    needed.push(t);
                    proof {
                        assert(views(needed@) =~= before.push(t@));
                    }
                }
                i += 1;
            }
            proof {
                assert(texts(libs@).subrange(0, libs@.len() as int) =~= texts(libs@));
            }
            match interp {
                Some(x) => {
                    let b = match file_name(x.as_str()) {
                        Some(n) => n,
                        None => x,
                    };
                    if b.as_str().unicode_len() > 0 && !holds(&needed, b.as_str()) {
                        let ghost before = views(needed@);
                        needed.push(b);
                        proof {
                            assert(views(needed@) =~= before.push(needed@.last()@));
                        }
                    }
                },
                None => {},
            }
            needed
        },
        None => Vec::new(),
    }
}

} // verus!
