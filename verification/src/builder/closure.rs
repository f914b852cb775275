//! The runtime closure of requested commits: every commit that the
//! requested ones need, transitively, through the needs that the manifests
//! record, with the files needed from each and the needs that could not be
//! resolved.
use vstd::prelude::*;
use crate::builder::materializer::MaterializeRequest;
use crate::builder::resolver::address_reportable;
use crate::builder::resolver::holds;
use crate::builder::resolver::model_needs;
use crate::builder::resolver::need_view;
use crate::builder::resolver::need_views;
use crate::builder::resolver::needs_of;
use crate::builder::resolver::strs;
use crate::builder::resolver::ManifestModel;
use crate::builder::resolver::Need;
use crate::builder::resolver::NeedTarget;
use crate::builder::resolver::TargetView;
use crate::text::push_str;
use crate::text::str_eq;
use crate::text::to_owned_string;

verus! {

/// The closure: the requested commits (once each) with the reason they are
/// in it, every commit reached, the files needed from each provider with
/// the reason, and what stayed unresolved (key and reason).
pub struct RuntimeClosure {
    pub roots: Vec<(String, String)>,
    pub commits: Vec<String>,
    pub file_deps: Vec<(String, String, String)>,
    pub unresolved: Vec<(String, String)>,
}

/// The closure with its roots not yet given reasons.
struct ClosureParts {
    roots: Vec<String>,
    commits: Vec<String>,
    file_deps: Vec<(String, String, String)>,
    unresolved: Vec<(String, String)>,
}

/// The provider commit of a need, if it has one.
pub open spec fn provider_of(n: (Seq<char>, Seq<char>, TargetView)) -> Option<Seq<char>> {
    match n.2 {
        TargetView::Provider(c, _) => Some(c),
        _ => None,
    }
}

/// `b` provides a file that `a` needs.
pub open spec fn need_edge(model: ManifestModel, a: Seq<char>, b: Seq<char>) -> bool {
    exists|k: int| 0 <= k < model_needs(model, a).len() && #[trigger] provider_of(model_needs(model, a)[k]) == Some(b)
}

/// Each commit of `path` needs a file of the next.
pub open spec fn need_chain(model: ManifestModel, path: Seq<Seq<char>>) -> bool {
    forall|i: int| 0 <= i < path.len() - 1 ==> #[trigger] need_edge(model, path[i], path[i + 1])
}

/// `c` is reached from a requested commit through needed files.
pub open spec fn needed_from(model: ManifestModel, requests: Seq<Seq<char>>, c: Seq<char>) -> bool {
    exists|path: Seq<Seq<char>>|
        #[trigger] need_chain(model, path) && path.len() >= 1 && requests.contains(path[0])
            && path.last() == c
}

/// The reason recorded for a file needed from a provider.
pub open spec fn need_reason(n: (Seq<char>, Seq<char>, TargetView), name: Seq<char>) -> Seq<char> {
    n.0 + " needs "@ + n.1 + " from "@ + name
}

/// The file dependency that a need gives: provider, needed file, reason.
pub open spec fn file_dep_of(n: (Seq<char>, Seq<char>, TargetView)) -> Option<(Seq<char>, Seq<char>, Seq<char>)> {
    match n.2 {
        TargetView::Provider(c, name) => Some((c, n.1, need_reason(n, name))),
        _ => None,
    }
}

/// The unresolved entry that a need gives: key and reason.
pub open spec fn unresolved_of(n: (Seq<char>, Seq<char>, TargetView)) -> Option<(Seq<char>, Seq<char>)> {
    match n.2 {
        TargetView::Unresolved(k, d) => Some((k, d)),
        _ => None,
    }
}

/// The texts of the file dependencies.
pub open spec fn dep_views(v: Seq<(String, String, String)>) -> Seq<(Seq<char>, Seq<char>, Seq<char>)> {
    v.map_values(|e: (String, String, String)| (e.0@, e.1@, e.2@))
}

/// The texts of the unresolved entries.
pub open spec fn pair_views(v: Seq<(String, String)>) -> Seq<(Seq<char>, Seq<char>)> {
    v.map_values(|e: (String, String)| (e.0@, e.1@))
}

proof fn lemma_push_to_set(s: Seq<Seq<char>>, x: Seq<char>)
    ensures
        s.push(x).to_set() == s.to_set().insert(x),
{
    assert forall|y: Seq<char>| s.push(x).to_set().contains(y) <==> s.to_set().insert(x).contains(y) by {
        if s.push(x).contains(y) && y != x {
            let w = choose|w: int| 0 <= w < s.push(x).len() && s.push(x)[w] == y;
            assert(s[w] == y);
        }
        if s.contains(y) {
            let w = choose|w: int| 0 <= w < s.len() && s[w] == y;
            assert(s.push(x)[w] == y);
        }
        if y == x {
            assert(s.push(x)[s.len() as int] == x);
        }
    }
    assert(s.push(x).to_set() =~= s.to_set().insert(x));
}

/// A list of distinct texts of a finite set is no longer than the set.
proof fn lemma_distinct_bound(s: Seq<Seq<char>>, u: Set<Seq<char>>)
    requires
        u.finite(),
        s.no_duplicates(),
        forall|i: int| 0 <= i < s.len() ==> u.contains(s[i]),
    ensures
        s.len() <= u.len(),
{
    s.unique_seq_to_set();
    assert(s.to_set().subset_of(u));
    vstd::set_lib::lemma_len_subset(s.to_set(), u);
}

/// The reason text of a file needed from a provider.
fn reason_text(n: &Need, name: &str) -> (r: String)
    ensures
        r@ == need_reason(need_view(*n), name@),
{
    let mut s = to_owned_string(n.file.as_str());
    push_str(&mut s, " needs ");
    push_str(&mut s, n.needed.as_str());
    push_str(&mut s, " from ");
    push_str(&mut s, name);
    s
}

/// Every requested commit, and all that they need transitively, once
/// each; the files needed from each provider with the reason; and the
/// needs that stayed unresolved. Needs that the commit provides itself
/// lead nowhere; a commit without recorded needs needs nothing.
fn closure_of(requests: &Vec<String>, model: &ManifestModel) -> (r: ClosureParts)
    requires
        forall|i: int| 0 <= i < model.manifests@.len() ==> address_reportable(#[trigger] model.manifests@[i]),
    ensures
        strs(r.roots@).no_duplicates(),
        strs(r.roots@).to_set() == strs(requests@).to_set(),
        strs(r.commits@).no_duplicates(),
        forall|k: int| 0 <= k < requests@.len() ==> strs(r.commits@).contains(#[trigger] requests@[k]@),
        forall|i: int| 0 <= i < r.commits@.len() ==> needed_from(*model, strs(requests@), #[trigger] r.commits@[i]@),
        forall|i: int, k: int|
            0 <= i < r.commits@.len() && 0 <= k < model_needs(*model, r.commits@[i]@).len() && provider_of(
                model_needs(*model, r.commits@[i]@)[k],
            ) is Some ==> strs(r.commits@).contains(
                #[trigger] provider_of(model_needs(*model, r.commits@[i]@)[k]).unwrap(),
            ),
        forall|e| #[trigger] dep_views(r.file_deps@).contains(e) ==> exists|i: int, k: int|
            0 <= i < r.commits@.len() && 0 <= k < model_needs(*model, r.commits@[i]@).len() && #[trigger] file_dep_of(
                model_needs(*model, r.commits@[i]@)[k],
            ) == Some(e),
        forall|i: int, k: int|
            0 <= i < r.commits@.len() && 0 <= k < model_needs(*model, r.commits@[i]@).len() && file_dep_of(
                model_needs(*model, r.commits@[i]@)[k],
            ) is Some ==> dep_views(r.file_deps@).contains(
                #[trigger] file_dep_of(model_needs(*model, r.commits@[i]@)[k]).unwrap(),
            ),
        forall|e| #[trigger] pair_views(r.unresolved@).contains(e) ==> exists|i: int, k: int|
            0 <= i < r.commits@.len() && 0 <= k < model_needs(*model, r.commits@[i]@).len() && #[trigger] unresolved_of(
                model_needs(*model, r.commits@[i]@)[k],
            ) == Some(e),
        forall|i: int, k: int|
            0 <= i < r.commits@.len() && 0 <= k < model_needs(*model, r.commits@[i]@).len() && unresolved_of(
                model_needs(*model, r.commits@[i]@)[k],
            ) is Some ==> pair_views(r.unresolved@).contains(
                #[trigger] unresolved_of(model_needs(*model, r.commits@[i]@)[k]).unwrap(),
            ),
{
    broadcast use vstd::seq_lib::seq_to_set_is_finite;
    let ghost cand = strs(requests@) + strs(model.refs@);
    let ghost u = cand.to_set();
    let mut roots: Vec<String> = Vec::new();
    let mut commits: Vec<String> = Vec::new();
    let mut q: usize = 0;
    while q < requests.len()
        invariant
            q <= requests@.len(),
            strs(roots@) == strs(commits@),
            strs(commits@).no_duplicates(),
            strs(commits@).to_set() == strs(requests@.subrange(0, q as int)).to_set(),
            forall|i: int| 0 <= i < commits@.len() ==> strs(requests@).contains(#[trigger] commits@[i]@),
        decreases requests@.len() - q,
    {
        let ghost before = strs(commits@);
        assert(strs(requests@.subrange(0, q + 1)) =~= strs(requests@.subrange(0, q as int)).push(requests@[q as int]@));
        assert(strs(requests@)[q as int] == requests@[q as int]@);
        proof {
            lemma_push_to_set(strs(requests@.subrange(0, q as int)), requests@[q as int]@);
        }
        if !holds(&commits, requests[q].as_str()) {
            let ghost old_roots = strs(roots@);
            roots.push(to_owned_string(requests[q].as_str()));
            commits.push(to_owned_string(requests[q].as_str()));
            assert(strs(commits@) =~= before.push(requests@[q as int]@));
            assert(strs(roots@) =~= old_roots.push(requests@[q as int]@));
            proof {
                lemma_push_to_set(before, requests@[q as int]@);
            }
            assert forall|j: int| 0 <= j < commits@.len() implies strs(requests@).contains(#[trigger] commits@[j]@) by {
                if j == commits@.len() - 1 {
                    assert(strs(requests@)[q as int] == commits@[j]@);
                } else {
                    assert(commits@[j]@ == before[j]);
                }
            }
        } else {
            assert(before.contains(requests@[q as int]@));
            assert(before.to_set().contains(requests@[q as int]@));
            assert(before.to_set().insert(requests@[q as int]@) =~= before.to_set());
        }
        q += 1;
    }
    assert(requests@.subrange(0, requests@.len() as int) =~= requests@);
    let mut file_deps: Vec<(String, String, String)> = Vec::new();
    let mut unresolved: Vec<(String, String)> = Vec::new();
    let mut i: usize = 0;
    proof {
        assert forall|j: int| 0 <= j < commits@.len() implies needed_from(*model, strs(requests@), #[trigger] commits@[j]@) by {
            let path = seq![commits@[j]@];
            assert(need_chain(*model, path));
        }
        assert forall|j: int| 0 <= j < commits@.len() implies u.contains(#[trigger] commits@[j]@) by {
            assert(strs(requests@).contains(commits@[j]@));
            let w = choose|w: int| 0 <= w < strs(requests@).len() && strs(requests@)[w] == commits@[j]@;
            assert(cand[w] == commits@[j]@);
        }
        assert forall|k: int| 0 <= k < requests@.len() implies strs(commits@).contains(#[trigger] requests@[k]@) by {
            assert(strs(requests@).to_set().contains(requests@[k]@)) by {
                assert(strs(requests@)[k] == requests@[k]@);
            }
        }
        assert(dep_views(file_deps@) =~= Seq::empty());
        assert(pair_views(unresolved@) =~= Seq::empty());
    }
    while i < commits.len()
        invariant
            i <= commits@.len(),
            u.finite(),
            forall|z: int| 0 <= z < model.manifests@.len() ==> address_reportable(#[trigger] model.manifests@[z]),
            u == cand.to_set(),
            cand == strs(requests@) + strs(model.refs@),
            strs(roots@).no_duplicates(),
            strs(roots@).to_set() == strs(requests@).to_set(),
            strs(commits@).no_duplicates(),
            forall|j: int| 0 <= j < commits@.len() ==> u.contains(#[trigger] commits@[j]@),
            forall|k: int| 0 <= k < requests@.len() ==> strs(commits@).contains(#[trigger] requests@[k]@),
            forall|j: int| 0 <= j < commits@.len() ==> needed_from(*model, strs(requests@), #[trigger] commits@[j]@),
            forall|j: int, k: int|
                0 <= j < i && 0 <= k < model_needs(*model, commits@[j]@).len() && provider_of(
                    model_needs(*model, commits@[j]@)[k],
                ) is Some ==> strs(commits@).contains(
                    #[trigger] provider_of(model_needs(*model, commits@[j]@)[k]).unwrap(),
                ),
            forall|e| #[trigger] dep_views(file_deps@).contains(e) ==> exists|j: int, k: int|
                0 <= j < i && 0 <= k < model_needs(*model, commits@[j]@).len() && #[trigger] file_dep_of(
                    model_needs(*model, commits@[j]@)[k],
                ) == Some(e),
            forall|j: int, k: int|
                0 <= j < i && 0 <= k < model_needs(*model, commits@[j]@).len() && file_dep_of(
                    model_needs(*model, commits@[j]@)[k],
                ) is Some ==> dep_views(file_deps@).contains(
                    #[trigger] file_dep_of(model_needs(*model, commits@[j]@)[k]).unwrap(),
                ),
            forall|e| #[trigger] pair_views(unresolved@).contains(e) ==> exists|j: int, k: int|
                0 <= j < i && 0 <= k < model_needs(*model, commits@[j]@).len() && #[trigger] unresolved_of(
                    model_needs(*model, commits@[j]@)[k],
                ) == Some(e),
            forall|j: int, k: int|
                0 <= j < i && 0 <= k < model_needs(*model, commits@[j]@).len() && unresolved_of(
                    model_needs(*model, commits@[j]@)[k],
                ) is Some ==> pair_views(unresolved@).contains(
                    #[trigger] unresolved_of(model_needs(*model, commits@[j]@)[k]).unwrap(),
                ),
        decreases u.len() - i,
    {
        proof {
            lemma_distinct_bound(strs(commits@), u);
        }
        let c = commits[i].as_str();
        let ghost cv = commits@[i as int]@;
        let ghost ns = model_needs(*model, cv);
        let list = needs_of(model, c);
        {
            {
                let mut k: usize = 0;
                while k < list.len()
                    invariant
                        need_views(list@) == ns,
                        forall|q: int| 0 <= q < list@.len() ==> ((#[trigger] list@[q]).target matches NeedTarget::Provider { commit, .. } ==> strs(model.refs@).contains(commit@)),
                        ns == model_needs(*model, cv),
                        cv == commits@[i as int]@,
                        k <= list@.len(),
                        i < commits@.len(),
                        u.finite(),
                        forall|z: int| 0 <= z < model.manifests@.len() ==> address_reportable(#[trigger] model.manifests@[z]),
            forall|z: int| 0 <= z < model.manifests@.len() ==> address_reportable(#[trigger] model.manifests@[z]),
                        u == cand.to_set(),
                        cand == strs(requests@) + strs(model.refs@),
                        strs(commits@).no_duplicates(),
                        forall|j: int| 0 <= j < commits@.len() ==> u.contains(#[trigger] commits@[j]@),
                        forall|q: int| 0 <= q < requests@.len() ==> strs(commits@).contains(#[trigger] requests@[q]@),
                        forall|j: int| 0 <= j < commits@.len() ==> needed_from(*model, strs(requests@), #[trigger] commits@[j]@),
                        forall|j: int, m: int|
                            0 <= j < i && 0 <= m < model_needs(*model, commits@[j]@).len() && provider_of(
                                model_needs(*model, commits@[j]@)[m],
                            ) is Some ==> strs(commits@).contains(
                                #[trigger] provider_of(model_needs(*model, commits@[j]@)[m]).unwrap(),
                            ),
                        forall|m: int| 0 <= m < k && provider_of(ns[m]) is Some ==> strs(commits@).contains(
                            #[trigger] provider_of(ns[m]).unwrap()),
                        forall|e| #[trigger] dep_views(file_deps@).contains(e) ==> exists|j: int, m: int|
                            ((0 <= j < i && 0 <= m < model_needs(*model, commits@[j]@).len()) || (j == i && 0 <= m < k)) && #[trigger] file_dep_of(
                                model_needs(*model, commits@[j]@)[m],
                            ) == Some(e),
                        forall|j: int, m: int|
                            0 <= j < i && 0 <= m < model_needs(*model, commits@[j]@).len() && file_dep_of(
                                model_needs(*model, commits@[j]@)[m],
                            ) is Some ==> dep_views(file_deps@).contains(
                                #[trigger] file_dep_of(model_needs(*model, commits@[j]@)[m]).unwrap(),
                            ),
                        forall|m: int| 0 <= m < k && file_dep_of(ns[m]) is Some ==> dep_views(file_deps@).contains(
                            #[trigger] file_dep_of(ns[m]).unwrap()),
                        forall|e| #[trigger] pair_views(unresolved@).contains(e) ==> exists|j: int, m: int|
                            ((0 <= j < i && 0 <= m < model_needs(*model, commits@[j]@).len()) || (j == i && 0 <= m < k)) && #[trigger] unresolved_of(
                                model_needs(*model, commits@[j]@)[m],
                            ) == Some(e),
                        forall|j: int, m: int|
                            0 <= j < i && 0 <= m < model_needs(*model, commits@[j]@).len() && unresolved_of(
                                model_needs(*model, commits@[j]@)[m],
                            ) is Some ==> pair_views(unresolved@).contains(
                                #[trigger] unresolved_of(model_needs(*model, commits@[j]@)[m]).unwrap(),
                            ),
                        forall|m: int| 0 <= m < k && unresolved_of(ns[m]) is Some ==> pair_views(unresolved@).contains(
                            #[trigger] unresolved_of(ns[m]).unwrap()),
                    decreases list@.len() - k,
                {
                    let n = &list[k];
                    let ghost old_commits = commits@;
                    let ghost old_deps = file_deps@;
                    let ghost old_unres = unresolved@;
                    match &n.target {
                        NeedTarget::Internal => {},
                        NeedTarget::Unresolved { key, detail } => {
                            unresolved.push((to_owned_string(key.as_str()), to_owned_string(detail.as_str())));
                            proof {
                                assert(pair_views(unresolved@) =~= pair_views(old_unres).push(unresolved_of(ns[k as int]).unwrap()));
                            }
                        },
                        NeedTarget::Provider { commit, name } => {
                            let why = reason_text(n, name.as_str());
                            file_deps.push((to_owned_string(commit.as_str()), to_owned_string(n.needed.as_str()), why));
                            proof {
                                assert(dep_views(file_deps@) =~= dep_views(old_deps).push(file_dep_of(ns[k as int]).unwrap()));
                            }
                            if !holds(&commits, commit.as_str()) {
                                commits.push(to_owned_string(commit.as_str()));
                                proof {
                                    assert(strs(commits@) =~= strs(old_commits).push(commit@));
                                    assert(list@[k as int].target matches NeedTarget::Provider { .. });
                                    assert(strs(model.refs@).contains(commit@));
                                    let w = choose|w: int| 0 <= w < strs(model.refs@).len() && strs(model.refs@)[w] == commit@;
                                    assert(cand[strs(requests@).len() + w] == commit@);
                                    // the new commit is needed from the one being processed
                                    let path0 = choose|path: Seq<Seq<char>>|
                                        #[trigger] need_chain(*model, path) && path.len() >= 1 && strs(requests@).contains(path[0])
                                            && path.last() == cv;
                                    let path = path0.push(commit@);
                                    assert(need_edge(*model, cv, commit@)) by {
                                        assert(provider_of(model_needs(*model, cv)[k as int]) == Some(commit@));
                                    }
                                    assert forall|t: int| 0 <= t < path.len() - 1 implies #[trigger] need_edge(*model, path[t], path[t + 1]) by {
                                        if t < path0.len() - 1 {
                                            assert(path[t] == path0[t] && path[t + 1] == path0[t + 1]);
                                        } else {
                                            assert(path[t] == cv);
                                        }
                                    }
                                    assert(path[0] == path0[0]);
                                    assert(need_chain(*model, path));
                                    assert(path.last() == commit@);
                                    assert(needed_from(*model, strs(requests@), commit@));
                                    assert forall|j: int| 0 <= j < commits@.len() implies needed_from(*model, strs(requests@), #[trigger] commits@[j]@) by {
                                        if j < old_commits.len() {
                                            assert(commits@[j] == old_commits[j]);
                                        }
                                    }
                                    assert forall|j: int| 0 <= j < commits@.len() implies u.contains(#[trigger] commits@[j]@) by {
                                        if j < old_commits.len() {
                                            assert(commits@[j] == old_commits[j]);
                                        }
                                    }
                                }
                            }
                            proof {
                                if strs(old_commits).contains(commit@) {
                                    let w = choose|w: int| 0 <= w < strs(old_commits).len() && strs(old_commits)[w] == commit@;
                                    assert(strs(commits@)[w] == strs(old_commits)[w]);
                                } else {
                                    assert(strs(commits@)[old_commits.len() as int] == commit@);
                                }
                                assert(strs(commits@).contains(commit@));
                            }
                        },
                    }
                    proof {
                        assert forall|q: int| 0 <= q < requests@.len() implies strs(commits@).contains(#[trigger] requests@[q]@) by {
                            let w = choose|w: int| 0 <= w < strs(old_commits).len() && strs(old_commits)[w] == requests@[q]@;
                            assert(strs(commits@)[w] == strs(old_commits)[w]);
                        }
                        assert forall|x: Seq<char>| strs(old_commits).contains(x) implies strs(commits@).contains(x) by {
                            let w = choose|w: int| 0 <= w < strs(old_commits).len() && strs(old_commits)[w] == x;
                            assert(strs(commits@)[w] == strs(old_commits)[w]);
                        }
                        assert forall|x| dep_views(old_deps).contains(x) implies dep_views(file_deps@).contains(x) by {
                            let w = choose|w: int| 0 <= w < dep_views(old_deps).len() && dep_views(old_deps)[w] == x;
                            assert(dep_views(file_deps@)[w] == dep_views(old_deps)[w]);
                        }
                        assert forall|x| pair_views(old_unres).contains(x) implies pair_views(unresolved@).contains(x) by {
                            let w = choose|w: int| 0 <= w < pair_views(old_unres).len() && pair_views(old_unres)[w] == x;
                            assert(pair_views(unresolved@)[w] == pair_views(old_unres)[w]);
                        }
                        assert forall|j: int| 0 <= j <= i implies #[trigger] commits@[j] == old_commits[j] by {}
                        assert forall|e| #[trigger] dep_views(file_deps@).contains(e) implies exists|j: int, m: int|
                            ((0 <= j < i && 0 <= m < model_needs(*model, commits@[j]@).len()) || (j == i && 0 <= m < k + 1)) && #[trigger] file_dep_of(
                                model_needs(*model, commits@[j]@)[m],
                            ) == Some(e) by {
                            if dep_views(old_deps).contains(e) {
                                let (j, m) = choose|j: int, m: int|
                                    ((0 <= j < i && 0 <= m < model_needs(*model, old_commits[j]@).len()) || (j == i && 0 <= m < k)) && #[trigger] file_dep_of(
                                        model_needs(*model, old_commits[j]@)[m],
                                    ) == Some(e);
                                assert(commits@[j] == old_commits[j]);
                            } else {
                                assert(commits@[i as int] == old_commits[i as int]);
                                assert(file_dep_of(model_needs(*model, commits@[i as int]@)[k as int]) == Some(e));
                            }
                        }
                        assert forall|e| #[trigger] pair_views(unresolved@).contains(e) implies exists|j: int, m: int|
                            ((0 <= j < i && 0 <= m < model_needs(*model, commits@[j]@).len()) || (j == i && 0 <= m < k + 1)) && #[trigger] unresolved_of(
                                model_needs(*model, commits@[j]@)[m],
                            ) == Some(e) by {
                            if pair_views(old_unres).contains(e) {
                                let (j, m) = choose|j: int, m: int|
                                    ((0 <= j < i && 0 <= m < model_needs(*model, old_commits[j]@).len()) || (j == i && 0 <= m < k)) && #[trigger] unresolved_of(
                                        model_needs(*model, old_commits[j]@)[m],
                                    ) == Some(e);
                                assert(commits@[j] == old_commits[j]);
                            } else {
                                assert(commits@[i as int] == old_commits[i as int]);
                                assert(unresolved_of(model_needs(*model, commits@[i as int]@)[k as int]) == Some(e));
                            }
                        }
                        assert forall|m: int| 0 <= m < k + 1 && file_dep_of(ns[m]) is Some implies dep_views(file_deps@).contains(
                            #[trigger] file_dep_of(ns[m]).unwrap()) by {
                            if m < k {
                                assert(dep_views(old_deps).contains(file_dep_of(ns[m]).unwrap()));
                            } else {
                                assert(ns[m] == need_view(list@[k as int]));
                                assert(dep_views(file_deps@) == dep_views(old_deps).push(file_dep_of(ns[m]).unwrap()));
                                assert(dep_views(file_deps@)[dep_views(old_deps).len() as int] == file_dep_of(ns[m]).unwrap());
                            }
                        }
                        assert forall|m: int| 0 <= m < k + 1 && unresolved_of(ns[m]) is Some implies pair_views(unresolved@).contains(
                            #[trigger] unresolved_of(ns[m]).unwrap()) by {
                            if m < k {
                                assert(pair_views(old_unres).contains(unresolved_of(ns[m]).unwrap()));
                            } else {
                                assert(ns[m] == need_view(list@[k as int]));
                                assert(pair_views(unresolved@) == pair_views(old_unres).push(unresolved_of(ns[m]).unwrap()));
                                assert(pair_views(unresolved@)[pair_views(old_unres).len() as int] == unresolved_of(ns[m]).unwrap());
                            }
                        }
                    }
                    k += 1;
                }
            }
        }
        i += 1;
    }
    ClosureParts { roots, commits, file_deps, unresolved }
}

/// The commits of the requests.
pub open spec fn request_commits(requests: Seq<MaterializeRequest>) -> Seq<Seq<char>> {
    requests.map_values(|q: MaterializeRequest| q.spec_commit())
}

/// The roots' texts: commit and reason.
pub open spec fn root_views(v: Seq<(String, String)>) -> Seq<(Seq<char>, Seq<char>)> {
    v.map_values(|e: (String, String)| (e.0@, e.1@))
}

/// Resolves the runtime dependencies of the requests from the needs that
/// the manifests record: each requested commit once, as a root with the
/// reason `requested: {commit}`; every commit they need, transitively
/// (through `needs_of`), once; the files needed from each provider with
/// the reason; and the needs that stayed unresolved.
pub fn resolve_runtime_deps_precomputed(requests: &Vec<MaterializeRequest>, model: &ManifestModel) -> (r: RuntimeClosure)
    requires
        forall|i: int| 0 <= i < model.manifests@.len() ==> address_reportable(#[trigger] model.manifests@[i]),
    ensures
        root_views(r.roots@).map_values(|e: (Seq<char>, Seq<char>)| e.0).no_duplicates(),
        root_views(r.roots@).map_values(|e: (Seq<char>, Seq<char>)| e.0).to_set() == request_commits(requests@).to_set(),
        forall|i: int| 0 <= i < r.roots@.len() ==> (#[trigger] r.roots@[i]).1@ == "requested: "@ + r.roots@[i].0@,
        strs(r.commits@).no_duplicates(),
        forall|k: int| 0 <= k < requests@.len() ==> strs(r.commits@).contains(#[trigger] request_commits(requests@)[k]),
        forall|i: int| 0 <= i < r.commits@.len() ==> needed_from(*model, request_commits(requests@), #[trigger] r.commits@[i]@),
        forall|i: int, k: int|
            0 <= i < r.commits@.len() && 0 <= k < model_needs(*model, r.commits@[i]@).len() && provider_of(
                model_needs(*model, r.commits@[i]@)[k],
            ) is Some ==> strs(r.commits@).contains(
                #[trigger] provider_of(model_needs(*model, r.commits@[i]@)[k]).unwrap(),
            ),
        forall|e| #[trigger] dep_views(r.file_deps@).contains(e) ==> exists|i: int, k: int|
            0 <= i < r.commits@.len() && 0 <= k < model_needs(*model, r.commits@[i]@).len() && #[trigger] file_dep_of(
                model_needs(*model, r.commits@[i]@)[k],
            ) == Some(e),
        forall|i: int, k: int|
            0 <= i < r.commits@.len() && 0 <= k < model_needs(*model, r.commits@[i]@).len() && file_dep_of(
                model_needs(*model, r.commits@[i]@)[k],
            ) is Some ==> dep_views(r.file_deps@).contains(
                #[trigger] file_dep_of(model_needs(*model, r.commits@[i]@)[k]).unwrap(),
            ),
        forall|e| #[trigger] pair_views(r.unresolved@).contains(e) ==> exists|i: int, k: int|
            0 <= i < r.commits@.len() && 0 <= k < model_needs(*model, r.commits@[i]@).len() && #[trigger] unresolved_of(
                model_needs(*model, r.commits@[i]@)[k],
            ) == Some(e),
        forall|i: int, k: int|
            0 <= i < r.commits@.len() && 0 <= k < model_needs(*model, r.commits@[i]@).len() && unresolved_of(
                model_needs(*model, r.commits@[i]@)[k],
            ) is Some ==> pair_views(r.unresolved@).contains(
                #[trigger] unresolved_of(model_needs(*model, r.commits@[i]@)[k]).unwrap(),
            ),
{
    let mut cs: Vec<String> = Vec::new();
    let mut i: usize = 0;
    while i < requests.len()
        invariant
            i <= requests@.len(),
            strs(cs@) == request_commits(requests@).subrange(0, i as int),
        decreases requests@.len() - i,
    {
        let ghost old = cs@;
        cs.push(to_owned_string(requests[i].commit()));
        assert(strs(cs@) =~= strs(old).push(requests@[i as int].spec_commit()));
        assert(request_commits(requests@).subrange(0, i + 1) =~= request_commits(requests@).subrange(0, i as int).push(requests@[i as int].spec_commit()));
        i += 1;
    }
    assert(request_commits(requests@).subrange(0, requests@.len() as int) =~= request_commits(requests@));
    let parts = closure_of(&cs, model);
    let mut roots: Vec<(String, String)> = Vec::new();
    let mut j: usize = 0;
    while j < parts.roots.len()
        invariant
            j <= parts.roots@.len(),
            root_views(roots@).map_values(|e: (Seq<char>, Seq<char>)| e.0) == strs(parts.roots@).subrange(0, j as int),
            forall|t: int| 0 <= t < roots@.len() ==> (#[trigger] roots@[t]).1@ == "requested: "@ + roots@[t].0@,
        decreases parts.roots@.len() - j,
    {
        let c = parts.roots[j].as_str();
        let mut why = to_owned_string("requested: ");
        push_str(&mut why, c);
        let ghost old = roots@;
        roots.push((to_owned_string(c), why));
        proof {
            assert(root_views(roots@).map_values(|e: (Seq<char>, Seq<char>)| e.0) =~= root_views(old).map_values(|e: (Seq<char>, Seq<char>)| e.0).push(c@));
            assert(strs(parts.roots@).subrange(0, j + 1) =~= strs(parts.roots@).subrange(0, j as int).push(c@));
            assert forall|t: int| 0 <= t < roots@.len() implies (#[trigger] roots@[t]).1@ == "requested: "@ + roots@[t].0@ by {
                if t < old.len() {
                    assert(roots@[t] == old[t]);
                }
            }
        }
        j += 1;
    }
    assert(strs(parts.roots@).subrange(0, parts.roots@.len() as int) =~= strs(parts.roots@));
    proof {
        assert forall|k: int| 0 <= k < requests@.len() implies strs(parts.commits@).contains(#[trigger] request_commits(requests@)[k]) by {
            assert(cs@[k]@ == strs(cs@)[k]);
        }
    }
    RuntimeClosure { roots, commits: parts.commits, file_deps: parts.file_deps, unresolved: parts.unresolved }
}

} // verus!
