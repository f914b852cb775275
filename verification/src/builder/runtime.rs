//! Runtime dependency scanning: which packages provide the libraries,
//! interpreters and scripts that a package's files need.
//!
//! The scan result maps an output category to the commits (or unresolved
//! requirements) it needs, each with the set of reasons; it is held in
//! vectors sorted by key, the order in which the builder lists them.
use vstd::prelude::*;
use crate::sorted::seq_lt;
use crate::sorted::keys_sorted;
use crate::sorted::strs_sorted;
use crate::sorted::str_set;
use crate::sorted::key_set;
use crate::sorted::kv_map;
use crate::sorted::key_slot;
use crate::sorted::set_insert;
use crate::sorted::lemma_kv_keys;
use crate::sorted::lemma_kv_lookup;
use crate::sorted::lemma_kv_update;
use crate::sorted::lemma_kv_insert;
use crate::text::to_owned_string;
use crate::text::split_char;
use crate::text::split_seq;
use crate::text::str_eq;
use crate::text::contains;
use crate::text::contains_seq;
use crate::text::trim;
use crate::text::trim_seq;

verus! {

/// The reasons of one requirement.
pub type Reasons = Vec<String>;

/// The requirements of one category, each with its reasons.
pub type CategoryMap = Vec<(String, Reasons)>;

/// The requirements of a category as a map to sets of reasons.
pub open spec fn category_view(w: CategoryMap) -> Map<Seq<char>, Set<Seq<char>>> {
    kv_map(w@, |s: Reasons| str_set(s@))
}

/// A whole scan table as a map from category to its requirements.
pub open spec fn table_view(v: Seq<(String, CategoryMap)>) -> Map<Seq<char>, Map<Seq<char>, Set<Seq<char>>>> {
    kv_map(v, |w: CategoryMap| category_view(w))
}

/// Sorted at every level.
pub open spec fn table_wf(v: Seq<(String, CategoryMap)>) -> bool {
    &&& keys_sorted(v)
    &&& forall|i: int| 0 <= i < v.len() ==> #[trigger] category_wf(v[i].1)
}

/// A category's requirements and reasons are sorted.
pub open spec fn category_wf(w: CategoryMap) -> bool {
    &&& keys_sorted(w@)
    &&& forall|j: int| 0 <= j < w@.len() ==> strs_sorted(#[trigger] w@[j].1@)
}

/// The table after `reason` is recorded for requirement `k` of category `c`.
pub open spec fn table_added(
    m: Map<Seq<char>, Map<Seq<char>, Set<Seq<char>>>>,
    c: Seq<char>,
    k: Seq<char>,
    reason: Seq<char>,
) -> Map<Seq<char>, Map<Seq<char>, Set<Seq<char>>>> {
    let inner = if m.contains_key(c) {
        m[c]
    } else {
        Map::empty()
    };
    let reasons = if inner.contains_key(k) {
        inner[k]
    } else {
        Set::empty()
    };
    m.insert(c, inner.insert(k, reasons.insert(reason)))
}

/// Records `reason` for requirement `k` in a category's map.
fn category_add(w: &mut CategoryMap, k: &str, reason: &str)
    requires
        category_wf(*old(w)),
    ensures
        category_wf(*final(w)),
        category_view(*final(w)) == category_view(*old(w)).insert(
            k@,
            (if category_view(*old(w)).contains_key(k@) {
                category_view(*old(w))[k@]
            } else {
                Set::empty()
            }).insert(reason@),
        ),
{
    let ghost f = |s: Reasons| str_set(s@);
    let (i, found) = key_slot(w, k);
    if found {
        proof {
            lemma_kv_lookup(w@, f, i as int);
        }
        let ghost before = w@;
        let (key, mut reasons) = w.remove(i);
        set_insert(&mut reasons, reason);
        w.insert(i, (key, reasons));
        proof {
            assert(w@ =~= before.update(i as int, (key, reasons)));
            lemma_kv_update(before, f, i as int, (key, reasons));
            assert forall|j: int| 0 <= j < w@.len() implies strs_sorted(#[trigger] w@[j].1@) by {
                if j != i {
                    assert(w@[j] == before[j]);
                }
            }
        }
    } else {
        proof {
            lemma_kv_keys(w@, f, k@);
        }
        let ghost before = w@;
        let mut reasons: Reasons = Vec::new();
        reasons.push(to_owned_string(reason));
        proof {
            assert(str_set(reasons@) =~= Set::<Seq<char>>::empty().insert(reason@)) by {
                assert(reasons@[0]@ == reason@);
            }
        }
        let entry = (to_owned_string(k), reasons);
        w.insert(i, entry);
        proof {
            lemma_kv_insert(before, f, i as int, entry);
            assert forall|j: int| 0 <= j < w@.len() implies strs_sorted(#[trigger] w@[j].1@) by {
                if j < i {
                    assert(w@[j] == before[j]);
                } else if j > i {
                    assert(w@[j] == before[j - 1]);
                }
            }
        }
    }
}

/// Records `reason` for requirement `k` of category `c` in a table.
fn table_add(v: &mut Vec<(String, CategoryMap)>, c: &str, k: &str, reason: &str)
    requires
        table_wf(old(v)@),
    ensures
        table_wf(final(v)@),
        table_view(final(v)@) == table_added(table_view(old(v)@), c@, k@, reason@),
{
    let ghost f = |w: CategoryMap| category_view(w);
    let (i, found) = key_slot(v, c);
    if found {
        proof {
            lemma_kv_lookup(v@, f, i as int);
        }
        let ghost before = v@;
        let (key, mut inner) = v.remove(i);
        proof {
            assert(category_wf(before[i as int].1));
        }
        category_add(&mut inner, k, reason);
        v.insert(i, (key, inner));
        proof {
            assert(v@ =~= before.update(i as int, (key, inner)));
            lemma_kv_update(before, f, i as int, (key, inner));
            assert forall|j: int| 0 <= j < v@.len() implies #[trigger] category_wf(v@[j].1) by {
                if j != i {
                    assert(v@[j] == before[j]);
                }
            }
        }
    } else {
        proof {
            lemma_kv_keys(v@, f, c@);
        }
        let ghost before = v@;
        let mut inner: CategoryMap = Vec::new();
        proof {
            assert(category_view(inner) =~= Map::<Seq<char>, Set<Seq<char>>>::empty());
        }
        category_add(&mut inner, k, reason);
        let entry = (to_owned_string(c), inner);
        v.insert(i, entry);
        proof {
            lemma_kv_insert(before, f, i as int, entry);
            assert forall|j: int| 0 <= j < v@.len() implies #[trigger] category_wf(v@[j].1) by {
                if j < i {
                    assert(v@[j] == before[j]);
                } else if j > i {
                    assert(v@[j] == before[j - 1]);
                }
            }
        }
    }
}

/// Looks up a category in a table.
fn table_get<'a>(v: &'a Vec<(String, CategoryMap)>, c: &str) -> (r: Option<&'a CategoryMap>)
    requires
        table_wf(v@),
    ensures
        match r {
            Some(w) => table_view(v@).contains_key(c@) && category_view(*w) == table_view(v@)[c@]
                && category_wf(*w),
            None => !table_view(v@).contains_key(c@),
        },
{
    let ghost f = |w: CategoryMap| category_view(w);
    let (i, found) = key_slot(v, c);
    proof {
        lemma_kv_keys(v@, f, c@);
    }
    if found {
        proof {
            lemma_kv_lookup(v@, f, i as int);
        }
        Some(&v[i].1)
    } else {
        None
    }
}

/// The result of a runtime dependency scan.
pub struct RuntimeScanResult {
    resolved: Vec<(String, CategoryMap)>,
    unresolved: Vec<(String, CategoryMap)>,
    is_phase3: bool,
}

impl RuntimeScanResult {
    /// The tables are sorted at every level.
    pub closed spec fn wf(&self) -> bool {
        table_wf(self.resolved@) && table_wf(self.unresolved@)
    }

    /// The commits that each category needs, with the reasons.
    pub closed spec fn resolved_view(&self) -> Map<Seq<char>, Map<Seq<char>, Set<Seq<char>>>> {
        table_view(self.resolved@)
    }

    /// The requirements that no provider was found for, per category.
    pub closed spec fn unresolved_view(&self) -> Map<Seq<char>, Map<Seq<char>, Set<Seq<char>>>> {
        table_view(self.unresolved@)
    }

    /// Whether the scanned package belongs to bootstrap phase 3.
    pub closed spec fn phase3(&self) -> bool {
        self.is_phase3
    }

    /// An empty result for a package of phase 3 or not.
    pub fn new(is_phase3: bool) -> (r: Self)
        ensures
            r.wf(),
            r.resolved_view() == Map::<Seq<char>, Map<Seq<char>, Set<Seq<char>>>>::empty(),
            r.unresolved_view() == Map::<Seq<char>, Map<Seq<char>, Set<Seq<char>>>>::empty(),
            r.phase3() == is_phase3,
    {
        let r = RuntimeScanResult { resolved: Vec::new(), unresolved: Vec::new(), is_phase3 };
        proof {
            assert(table_view(r.resolved@) =~= Map::empty());
            assert(table_view(r.unresolved@) =~= Map::empty());
        }
        r
    }

    /// Whether the scanned package belongs to bootstrap phase 3.
    pub fn is_phase3(&self) -> (r: bool)
        ensures
            r == self.phase3(),
    {
        self.is_phase3
    }

    pub fn add_resolved(&mut self, category: &str, commit: &str, reason: String)
        requires
            old(self).wf(),
        ensures
            final(self).wf(),
            final(self).resolved_view() == table_added(
                old(self).resolved_view(),
                category@,
                commit@,
                reason@,
            ),
            final(self).unresolved_view() == old(self).unresolved_view(),
            final(self).phase3() == old(self).phase3(),
    {
        table_add(&mut self.resolved, category, commit, reason.as_str());
    }

    pub fn add_unresolved(&mut self, category: &str, requirement: String, reason: String)
        requires
            old(self).wf(),
        ensures
            final(self).wf(),
            final(self).unresolved_view() == table_added(
                old(self).unresolved_view(),
                category@,
                requirement@,
                reason@,
            ),
            final(self).resolved_view() == old(self).resolved_view(),
            final(self).phase3() == old(self).phase3(),
    {
        table_add(&mut self.unresolved, category, requirement.as_str(), reason.as_str());
    }

    /// The commits that a category needs, each with its reasons, in the
    /// order of the commits.
    pub fn category_resolved(&self, category: &str) -> (r: Option<&CategoryMap>)
        requires
            self.wf(),
        ensures
            match r {
                Some(w) => self.resolved_view().contains_key(category@) && category_view(*w)
                    == self.resolved_view()[category@] && category_wf(*w),
                None => !self.resolved_view().contains_key(category@),
            },
    {
        table_get(&self.resolved, category)
    }

    /// The unresolved requirements of a category, with their reasons.
    pub fn category_unresolved(&self, category: &str) -> (r: Option<&CategoryMap>)
        requires
            self.wf(),
        ensures
            match r {
                Some(w) => self.unresolved_view().contains_key(category@) && category_view(*w)
                    == self.unresolved_view()[category@] && category_wf(*w),
                None => !self.unresolved_view().contains_key(category@),
            },
    {
        table_get(&self.unresolved, category)
    }

    pub fn is_empty(&self) -> (r: bool)
        ensures
            r == (self.resolved_view().dom().is_empty() && self.unresolved_view().dom().is_empty()),
    {
        proof {
            let f = |w: CategoryMap| category_view(w);
            if self.resolved@.len() > 0 {
                lemma_kv_keys(self.resolved@, f, self.resolved@[0].0@);
                assert(key_set(self.resolved@).contains(self.resolved@[0].0@));
                assert(self.resolved_view().dom().contains(self.resolved@[0].0@));
            } else {
                assert(self.resolved_view().dom() =~= Set::empty());
            }
            if self.unresolved@.len() > 0 {
                lemma_kv_keys(self.unresolved@, f, self.unresolved@[0].0@);
                assert(key_set(self.unresolved@).contains(self.unresolved@[0].0@));
                assert(self.unresolved_view().dom().contains(self.unresolved@[0].0@));
            } else {
                assert(self.unresolved_view().dom() =~= Set::empty());
            }
        }
        self.resolved.len() == 0 && self.unresolved.len() == 0
    }

    /// Whether no requirement was resolved to a provider.
    pub fn resolved_is_empty(&self) -> (r: bool)
        ensures
            r == self.resolved_view().dom().is_empty(),
    {
        proof {
            let f = |w: CategoryMap| category_view(w);
            if self.resolved@.len() > 0 {
                lemma_kv_keys(self.resolved@, f, self.resolved@[0].0@);
                assert(key_set(self.resolved@).contains(self.resolved@[0].0@));
                assert(self.resolved_view().dom().contains(self.resolved@[0].0@));
            } else {
                assert(self.resolved_view().dom() =~= Set::empty());
            }
        }
        self.resolved.len() == 0
    }
}

/// A recorded reason can be read back: after `add_resolved` the category
/// lists the commit with that reason, and every other category and commit
/// keeps what it had.
pub proof fn lemma_add_then_read(
    m: Map<Seq<char>, Map<Seq<char>, Set<Seq<char>>>>,
    c: Seq<char>,
    k: Seq<char>,
    reason: Seq<char>,
)
    ensures
        table_added(m, c, k, reason).contains_key(c),
        table_added(m, c, k, reason)[c].contains_key(k),
        table_added(m, c, k, reason)[c][k].contains(reason),
        forall|c2: Seq<char>| c2 != c && m.contains_key(c2) ==> #[trigger] table_added(m, c, k, reason).contains_key(c2) && table_added(m, c, k, reason)[c2] == m[c2],
        m.contains_key(c) ==> forall|k2: Seq<char>| k2 != k && m[c].contains_key(k2) ==> #[trigger] table_added(m, c, k, reason)[c].contains_key(k2) && table_added(m, c, k, reason)[c][k2] == m[c][k2],
        m.contains_key(c) && m[c].contains_key(k) ==> table_added(m, c, k, reason)[c][k] == m[c][k].insert(reason),
{
}

/// A piece of a path that names something: not empty and not ".".
pub open spec fn names_component(p: Seq<char>) -> bool {
    p.len() > 0 && p != "."@
}

/// The last component of split path pieces, if any.
pub open spec fn last_component(parts: Seq<Seq<char>>) -> Option<Seq<char>>
    decreases parts.len(),
{
    if parts.len() == 0 {
        None
    } else if names_component(parts.last()) {
        Some(parts.last())
    } else {
        last_component(parts.drop_last())
    }
}

/// `Path::file_name`: the last component of the path unless it is "..";
/// separators repeat freely and "." components do not count.
pub open spec fn file_name_of(p: Seq<char>) -> Option<Seq<char>> {
    match last_component(split_seq(p, '/')) {
        Some(c) => if c == ".."@ {
            None
        } else {
            Some(c)
        },
        None => None,
    }
}

/// The file name of a path, as `Path::file_name` gives it.
pub fn file_name(path: &str) -> (r: Option<String>)
    ensures
        match file_name_of(path@) {
            Some(n) => r matches Some(s) && s@ == n,
            None => r is None,
        },
{
    let parts = split_char(path, '/');
    let ghost ps = parts.deep_view();
    let mut k: usize = parts.len();
    proof {
        assert(ps.subrange(0, k as int) =~= ps);
    }
    while k > 0 && (parts[k - 1].as_str().unicode_len() == 0 || str_eq(parts[k - 1].as_str(), "."))
        invariant
            k <= parts@.len(),
            ps == parts.deep_view(),
            ps == split_seq(path@, '/'),
            last_component(ps.subrange(0, k as int)) == last_component(ps),
        decreases k,
    {
        proof {
            let sub = ps.subrange(0, k as int);
            assert(sub.last() == parts@[k - 1]@);
            assert(sub.drop_last() =~= ps.subrange(0, k - 1));
        }
        k -= 1;
    }
    proof {
        assert(ps.subrange(0, ps.len() as int) =~= ps);
    }
    if k == 0 {
        proof {
            assert(ps.subrange(0, 0).len() == 0);
        }
        return None;
    }
    proof {
        let sub = ps.subrange(0, k as int);
        assert(sub.last() == parts@[k - 1]@);
    }
    if str_eq(parts[k - 1].as_str(), "..") {
        None
    } else {
        Some(to_owned_string(parts[k - 1].as_str()))
    }
}

/// A package that provides a file.
pub struct ProviderMatch {
    pub commit: String,
    pub path: String,
}

/// A provider as a pair of texts.
pub open spec fn match_view(m: ProviderMatch) -> (Seq<char>, Seq<char>) {
    (m.commit@, m.path@)
}

/// A list of providers as pairs of texts.
pub open spec fn matches_view(v: Seq<ProviderMatch>) -> Seq<(Seq<char>, Seq<char>)> {
    v.map_values(|m: ProviderMatch| match_view(m))
}

/// An index of providers as a map from key to providers.
pub open spec fn index_view(v: Seq<(String, Vec<ProviderMatch>)>) -> Map<Seq<char>, Seq<(Seq<char>, Seq<char>)>> {
    kv_map(v, |l: Vec<ProviderMatch>| matches_view(l@))
}

/// The files that the dependencies provide, by file name and by full path.
pub struct ProviderIndex {
    pub by_basename: Vec<(String, Vec<ProviderMatch>)>,
    pub by_full_path: Vec<(String, Vec<ProviderMatch>)>,
}

/// The index after a provider is appended under `k`.
pub open spec fn index_added(
    m: Map<Seq<char>, Seq<(Seq<char>, Seq<char>)>>,
    k: Seq<char>,
    p: (Seq<char>, Seq<char>),
) -> Map<Seq<char>, Seq<(Seq<char>, Seq<char>)>> {
    m.insert(k, (if m.contains_key(k) { m[k] } else { Seq::empty() }).push(p))
}

/// Appends a provider under `k`.
fn index_push(v: &mut Vec<(String, Vec<ProviderMatch>)>, k: &str, commit: &str, path: &str)
    requires
        keys_sorted(old(v)@),
    ensures
        keys_sorted(final(v)@),
        index_view(final(v)@) == index_added(index_view(old(v)@), k@, (commit@, path@)),
{
    let ghost f = |l: Vec<ProviderMatch>| matches_view(l@);
    let provider = ProviderMatch { commit: to_owned_string(commit), path: to_owned_string(path) };
    let (i, found) = key_slot(v, k);
    if found {
        proof {
            lemma_kv_lookup(v@, f, i as int);
        }
        let ghost before = v@;
        let (key, mut list) = v.remove(i);
        let ghost old_list = list@;
        list.push(provider);
        proof {
            assert(matches_view(list@) =~= matches_view(old_list).push((commit@, path@)));
        }
        v.insert(i, (key, list));
        proof {
            assert(v@ =~= before.update(i as int, (key, list)));
            lemma_kv_update(before, f, i as int, (key, list));
        }
    } else {
        proof {
            lemma_kv_keys(v@, f, k@);
        }
        let ghost before = v@;
        let mut list: Vec<ProviderMatch> = Vec::new();
        list.push(provider);
        proof {
            assert(matches_view(list@) =~= Seq::<(Seq<char>, Seq<char>)>::empty().push((commit@, path@)));
        }
        let entry = (to_owned_string(k), list);
        v.insert(i, entry);
        proof {
            lemma_kv_insert(before, f, i as int, entry);
        }
    }
}

/// The providers under `k`, if any.
fn index_get<'a>(v: &'a Vec<(String, Vec<ProviderMatch>)>, k: &str) -> (r: Option<&'a Vec<ProviderMatch>>)
    requires
        keys_sorted(v@),
    ensures
        match r {
            Some(l) => index_view(v@).contains_key(k@) && matches_view(l@) == index_view(v@)[k@],
            None => !index_view(v@).contains_key(k@),
        },
{
    let ghost f = |l: Vec<ProviderMatch>| matches_view(l@);
    let (i, found) = key_slot(v, k);
    proof {
        lemma_kv_keys(v@, f, k@);
    }
    if found {
        proof {
            lemma_kv_lookup(v@, f, i as int);
        }
        Some(&v[i].1)
    } else {
        None
    }
}

impl Default for ProviderIndex {
    fn default() -> (r: Self)
        ensures
            r.wf(),
            r.basename_view() == Map::<Seq<char>, Seq<(Seq<char>, Seq<char>)>>::empty(),
            r.full_path_view() == Map::<Seq<char>, Seq<(Seq<char>, Seq<char>)>>::empty(),
    {
        ProviderIndex::new()
    }
}

impl Default for RuntimeScanResult {
    fn default() -> (r: Self)
        ensures
            r.wf(),
            r.resolved_view() == Map::<Seq<char>, Map<Seq<char>, Set<Seq<char>>>>::empty(),
            r.unresolved_view() == Map::<Seq<char>, Map<Seq<char>, Set<Seq<char>>>>::empty(),
            !r.phase3(),
    {
        RuntimeScanResult::new(false)
    }
}

impl ProviderIndex {
    /// Both maps are sorted by key.
    pub open spec fn wf(&self) -> bool {
        keys_sorted(self.by_basename@) && keys_sorted(self.by_full_path@)
    }

    /// The providers by file name.
    pub open spec fn basename_view(&self) -> Map<Seq<char>, Seq<(Seq<char>, Seq<char>)>> {
        index_view(self.by_basename@)
    }

    /// The providers by full path.
    pub open spec fn full_path_view(&self) -> Map<Seq<char>, Seq<(Seq<char>, Seq<char>)>> {
        index_view(self.by_full_path@)
    }

    /// An empty index.
    pub fn new() -> (r: Self)
        ensures
            r.wf(),
            r.basename_view() == Map::<Seq<char>, Seq<(Seq<char>, Seq<char>)>>::empty(),
            r.full_path_view() == Map::<Seq<char>, Seq<(Seq<char>, Seq<char>)>>::empty(),
    {
        let r = ProviderIndex { by_basename: Vec::new(), by_full_path: Vec::new() };
        proof {
            assert(index_view(r.by_basename@) =~= Map::empty());
            assert(index_view(r.by_full_path@) =~= Map::empty());
        }
        r
    }

    /// Records that `commit` provides the file at `path`, under its full path
    /// and, when it has one, under its file name.
    pub fn add_entry(&mut self, commit: &str, path: String)
        requires
            old(self).wf(),
        ensures
            final(self).wf(),
            final(self).full_path_view() == index_added(old(self).full_path_view(), path@, (commit@, path@)),
            match file_name_of(path@) {
                Some(n) => final(self).basename_view() == index_added(
                    old(self).basename_view(),
                    n,
                    (commit@, path@),
                ),
                None => final(self).basename_view() == old(self).basename_view(),
            },
    {
        match file_name(path.as_str()) {
            Some(name) => index_push(&mut self.by_basename, name.as_str(), commit, path.as_str()),
            None => {},
        }
        index_push(&mut self.by_full_path, path.as_str(), commit, path.as_str());
    }
}

/// The bootstrap phase of a commit: 3, 2 or 1 for the bootstrap phases,
/// 100 for packages outside the bootstrap (which win over all phases).
pub open spec fn phase_of(commit: Seq<char>) -> u32 {
    if contains_seq(commit, "/bootstrap/phase3/"@) {
        3
    } else if contains_seq(commit, "/bootstrap/phase2/"@) {
        2
    } else if contains_seq(commit, "/bootstrap/phase1/"@) {
        1
    } else {
        100
    }
}

/// extract phase priority from commit path
/// higher number = later phase = higher priority
pub fn phase_priority(commit: &str) -> (r: u32)
    ensures
        r == phase_of(commit@),
{
    if contains(commit, "/bootstrap/phase3/") {
        3
    } else if contains(commit, "/bootstrap/phase2/") {
        2
    } else if contains(commit, "/bootstrap/phase1/") {
        1
    } else {
        100
    }
}

/// The highest phase among providers.
pub open spec fn max_phase(m: Seq<(Seq<char>, Seq<char>)>) -> u32
    decreases m.len(),
{
    if m.len() == 0 {
        0
    } else {
        let rest = max_phase(m.drop_last());
        let p = phase_of(m.last().0);
        if p > rest {
            p
        } else {
            rest
        }
    }
}

/// The providers of the highest phase, in order.
pub open spec fn of_phase(m: Seq<(Seq<char>, Seq<char>)>, phase: u32) -> Seq<(Seq<char>, Seq<char>)>
    decreases m.len(),
{
    if m.len() == 0 {
        Seq::empty()
    } else if phase_of(m.last().0) == phase {
        of_phase(m.drop_last(), phase).push(m.last())
    } else {
        of_phase(m.drop_last(), phase)
    }
}

/// The candidates for a trimmed reference: by full path, else by file name.
pub open spec fn candidates(idx: ProviderIndex, t: Seq<char>) -> Seq<(Seq<char>, Seq<char>)> {
    if idx.full_path_view().contains_key(t) {
        idx.full_path_view()[t]
    } else {
        match file_name_of(t) {
            Some(b) => if idx.basename_view().contains_key(b) {
                idx.basename_view()[b]
            } else {
                Seq::empty()
            },
            None => Seq::empty(),
        }
    }
}

/// The providers of a reference: its candidates, narrowed to those of the
/// highest bootstrap phase when there are several.
pub open spec fn resolution(idx: ProviderIndex, reference: Seq<char>) -> Seq<(Seq<char>, Seq<char>)> {
    let t = trim_seq(reference);
    if t.len() == 0 {
        Seq::empty()
    } else {
        let m = candidates(idx, t);
        if m.len() <= 1 {
            m
        } else {
            of_phase(m, max_phase(m))
        }
    }
}

/// A copy of a provider.
fn copy_match(m: &ProviderMatch) -> (r: ProviderMatch)
    ensures
        match_view(r) == match_view(*m),
{
    ProviderMatch { commit: to_owned_string(m.commit.as_str()), path: to_owned_string(m.path.as_str()) }
}

/// The providers of a reference.
pub fn resolve_requirement(providers: &ProviderIndex, reference: &str) -> (r: Vec<ProviderMatch>)
    requires
        providers.wf(),
    ensures
        matches_view(r@) == resolution(*providers, reference@),
{
    let trimmed = trim(reference);
    let t = trimmed.as_str();
    if t.unicode_len() == 0 {
        proof {
            assert(matches_view(Seq::<ProviderMatch>::empty()) =~= Seq::empty());
        }
        return Vec::new();
    }
    let found: &Vec<ProviderMatch> = match index_get(&providers.by_full_path, t) {
        Some(m) => m,
        None => match file_name(t) {
            Some(b) => match index_get(&providers.by_basename, b.as_str()) {
                Some(m) => m,
                None => {
                    proof {
                        assert(matches_view(Seq::<ProviderMatch>::empty()) =~= Seq::empty());
                    }
                    return Vec::new();
                },
            },
            None => {
                proof {
                    assert(matches_view(Seq::<ProviderMatch>::empty()) =~= Seq::empty());
                }
                return Vec::new();
            },
        },
    };
    let ghost m = matches_view(found@);
    assert(m == candidates(*providers, t@));
    let n = found.len();
    let mut best: u32 = 0;
    let mut i: usize = 0;
    while i < n
        invariant
            n == found@.len(),
            m == matches_view(found@),
            i <= n,
            best == max_phase(m.subrange(0, i as int)),
        decreases n - i,
    {
        proof {
            assert(m.subrange(0, i + 1).drop_last() =~= m.subrange(0, i as int));
            assert(m[i as int].0 == found@[i as int].commit@);
        }
        let p = phase_priority(found[i].commit.as_str());
        if p > best {
            best = p;
        }
        i += 1;
    }
    proof {
        assert(m.subrange(0, n as int) =~= m);
    }
    let mut out: Vec<ProviderMatch> = Vec::new();
    let mut j: usize = 0;
    while j < n
        invariant
            n == found@.len(),
            m == matches_view(found@),
            j <= n,
            n <= 1 ==> matches_view(out@) == m.subrange(0, j as int),
            n > 1 ==> matches_view(out@) == of_phase(m.subrange(0, j as int), best),
            best == max_phase(m),
        decreases n - j,
    {
        proof {
            assert(m.subrange(0, j + 1).drop_last() =~= m.subrange(0, j as int));
            assert(m[j as int] == match_view(found@[j as int]));
        }
        let ghost before = out@;
        if n <= 1 || phase_priority(found[j].commit.as_str()) == best {
            out.push(copy_match(&found[j]));
            proof {
                assert(matches_view(out@) =~= matches_view(before).push(m[j as int]));
            }
        }
        j += 1;
    }
    proof {
        assert(m.subrange(0, n as int) =~= m);
    }
    out
}

/// Whether an interpreter is `env`, which runs the program named by its
/// first argument.
pub fn interpreter_is_env(interpreter: &str) -> (r: bool)
    ensures
        r == (file_name_of(interpreter@) == Some("env"@)),
{
    match file_name(interpreter) {
        Some(name) => str_eq(name.as_str(), "env"),
        None => false,
    }
}

/// Whether any dependency belongs to bootstrap phase 3.
pub open spec fn any_phase3(deps: Seq<String>) -> bool {
    exists|i: int| 0 <= i < deps.len() && contains_seq(deps[i]@, "/bootstrap/phase3/"@)
}

/// Whether a package built on these dependencies is a phase 3 package.
pub fn depends_on_phase3(dependency_commits: &[String]) -> (r: bool)
    ensures
        r == any_phase3(dependency_commits@),
{
    let mut i: usize = 0;
    while i < dependency_commits.len()
        invariant
            i <= dependency_commits@.len(),
            forall|j: int| 0 <= j < i ==> !contains_seq(dependency_commits@[j]@, "/bootstrap/phase3/"@),
        decreases dependency_commits@.len() - i,
    {
        if contains(dependency_commits[i].as_str(), "/bootstrap/phase3/") {
            return true;
        }
        i += 1;
    }
    false
}

/// High-level API for running the runtime dependency scanner: the context
/// shared across scans (repository, dependency closure, how missing files
/// are handled).
pub struct RuntimeScanner<'a> {
    pub repo_path: &'a str,
    pub dependency_commits: &'a [String],
    pub allow_missing_files: bool,
}

impl<'a> RuntimeScanner<'a> {
    pub fn new(repo_path: &'a str, dependency_commits: &'a [String]) -> (r: Self)
        ensures
            r.repo_path == repo_path,
            r.dependency_commits == dependency_commits,
            !r.allow_missing_files,
    {
        Self { repo_path, dependency_commits, allow_missing_files: false }
    }

    pub fn with_allow_missing_files(self, allow_missing_files: bool) -> (r: Self)
        ensures
            r.repo_path == self.repo_path,
            r.dependency_commits == self.dependency_commits,
            r.allow_missing_files == allow_missing_files,
    {
        let mut s = self;
        s.allow_missing_files = allow_missing_files;
        s
    }
}

} // verus!
