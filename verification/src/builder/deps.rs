//! The transitive dependency closure of a set of commits, by depth-first
//! search with cycle detection.
//!
//! What a commit requires comes from a lookup that the caller supplies
//! (an OSTree repository in the builder). The closure lists every commit
//! once, each after the commits it requires.
use vstd::prelude::*;
use crate::builder::manifest::Dependency;
use crate::text::str_eq;
use crate::text::to_owned_string;
use crate::text::push_str;
use crate::text::join_range;
use crate::text::join_seq;

verus! {

/// The text of each string.
pub open spec fn views(v: Seq<String>) -> Seq<Seq<char>> {
    v.map_values(|s: String| s@)
}

/// `b` is among the commits that `fetch` can list as required by `a`.
pub open spec fn requires_edge<F: Fn(&str) -> Result<Vec<String>, String>>(
    fetch: F,
    a: Seq<char>,
    b: Seq<char>,
) -> bool {
    exists|s: &str, r: Vec<String>|
        s@ == a && #[trigger] call_ensures(fetch, (s,), Ok(r)) && views(r@).contains(b)
}

/// What `fetch` lists for a commit of `u` lies in `u`.
pub open spec fn closed_universe<F: Fn(&str) -> Result<Vec<String>, String>>(
    fetch: F,
    u: Set<Seq<char>>,
) -> bool {
    forall|s: &str, r: Vec<String>|
        u.contains(s@) && #[trigger] call_ensures(fetch, (s,), Ok(r)) ==> forall|k: int|
            0 <= k < r@.len() ==> u.contains(#[trigger] r@[k]@)
}

/// The commits of `deps`, and all that they transitively require, lie in a
/// finite set: the dependency graph is finite.
pub open spec fn finite_closure<F: Fn(&str) -> Result<Vec<String>, String>>(
    fetch: F,
    deps: Seq<Dependency>,
) -> bool {
    exists|u: Set<Seq<char>>|
        #![trigger u.finite()]
        u.finite() && closed_universe(fetch, u) && forall|i: int|
            0 <= i < deps.len() ==> u.contains(#[trigger] deps[i].commit@)
}

/// `s` lists each commit once, and each after what it requires: for every
/// entry there is a lookup of it whose commits all come earlier.
pub open spec fn resolved_in_order<F: Fn(&str) -> Result<Vec<String>, String>>(
    fetch: F,
    v: Seq<Seq<char>>,
) -> bool {
    &&& v.no_duplicates()
    &&& forall|i: int| 0 <= i < v.len() ==> #[trigger] entry_in_order(fetch, v, i)
}

/// Entry `i` of `v` was looked up, and all it requires comes before it.
pub open spec fn entry_in_order<F: Fn(&str) -> Result<Vec<String>, String>>(
    fetch: F,
    v: Seq<Seq<char>>,
    i: int,
) -> bool {
    exists|s: &str, r: Vec<String>|
        s@ == v[i] && #[trigger] call_ensures(fetch, (s,), Ok(r)) && forall|k: int|
            0 <= k < r@.len() ==> #[trigger] v.subrange(0, i).contains(r@[k]@)
}

/// Each commit of `path` is required by the one before it.
pub open spec fn is_chain<F: Fn(&str) -> Result<Vec<String>, String>>(
    fetch: F,
    path: Seq<Seq<char>>,
) -> bool {
    forall|i: int| 0 <= i < path.len() - 1 ==> #[trigger] requires_edge(fetch, path[i], path[i + 1])
}

/// A chain of requirements that comes back to a commit it passed.
pub open spec fn is_cycle<F: Fn(&str) -> Result<Vec<String>, String>>(
    fetch: F,
    path: Seq<Seq<char>>,
) -> bool {
    path.len() >= 2 && path.drop_last().contains(path.last()) && is_chain(fetch, path)
}

/// The message of a detected cycle.
pub open spec fn cycle_message(path: Seq<Seq<char>>) -> Seq<char> {
    "Circular dependency detected: "@ + join_seq(path, " -> "@)
}

/// The commits of the dependencies: the roots of the closure.
pub open spec fn root_set(deps: Seq<Dependency>) -> Set<Seq<char>> {
    Set::new(|c: Seq<char>| exists|i: int| 0 <= i < deps.len() && #[trigger] deps[i].commit@ == c)
}

/// `c` is reached from a root by a chain of requirements.
pub open spec fn reachable<F: Fn(&str) -> Result<Vec<String>, String>>(
    fetch: F,
    roots: Set<Seq<char>>,
    c: Seq<char>,
) -> bool {
    exists|path: Seq<Seq<char>>|
        #[trigger] is_chain(fetch, path) && path.len() >= 1 && roots.contains(path[0]) && path.last() == c
}

/// Every successful lookup of a commit lists the same commits.
pub open spec fn deterministic<F: Fn(&str) -> Result<Vec<String>, String>>(fetch: F) -> bool {
    forall|s1: &str, s2: &str, r1: Vec<String>, r2: Vec<String>|
        s1@ == s2@ && #[trigger] call_ensures(fetch, (s1,), Ok(r1)) && #[trigger] call_ensures(
            fetch,
            (s2,),
            Ok(r2),
        ) ==> views(r1@) == views(r2@)
}

/// An error of the closure: one that a lookup returned, or the message of a
/// cycle met on the search path from a root: the path starts at a root,
/// passes each commit once and ends at a commit it passed.
pub open spec fn closure_error<F: Fn(&str) -> Result<Vec<String>, String>>(
    fetch: F,
    roots: Set<Seq<char>>,
    e: Seq<char>,
) -> bool {
    ||| exists|s: &str, x: String| #[trigger] call_ensures(fetch, (s,), Err(x)) && x@ == e
    ||| exists|path: Seq<Seq<char>>|
        is_cycle(fetch, path) && path.drop_last().no_duplicates() && roots.contains(path[0]) && e
            == cycle_message(path)
}

/// Build a human-readable cycle path string
fn build_cycle_path(stack: &Vec<String>, repeat: &str) -> (r: String)
    ensures
        r@ == join_seq(views(stack@).push(repeat@), " -> "@),
{
    let mut path: Vec<String> = Vec::new();
    let mut i: usize = 0;
    while i < stack.len()
        invariant
            i <= stack@.len(),
            path@.len() == i,
            views(path@) == views(stack@).subrange(0, i as int),
        decreases stack@.len() - i,
    {
        let ghost old_path = path@;
        path.push(to_owned_string(stack[i].as_str()));
        proof {
            assert(path@ == old_path.push(path@[i as int]));
            assert(views(path@) =~= views(old_path).push(stack@[i as int]@));
            assert(views(stack@).subrange(0, i + 1) =~= views(stack@).subrange(0, i as int).push(
                stack@[i as int]@,
            ));
        }
        i += 1;
    }
    let ghost old_path = path@;
    path.push(to_owned_string(repeat));
    proof {
        assert(views(stack@).subrange(0, stack@.len() as int) =~= views(stack@));
        assert(views(path@) =~= views(old_path).push(repeat@));
        assert(path.deep_view() =~= views(path@));
        assert(path.deep_view().subrange(0, path@.len() as int) =~= path.deep_view());
    }
    join_range(&path, 0, path.len(), " -> ")
}

/// Whether `v` holds `s`.
fn contains_str(v: &Vec<String>, s: &str) -> (r: bool)
    ensures
        r == views(v@).contains(s@),
{
    let mut i: usize = 0;
    while i < v.len()
        invariant
            i <= v@.len(),
            forall|j: int| 0 <= j < i ==> v@[j]@ != s@,
        decreases v@.len() - i,
    {
        if str_eq(v[i].as_str(), s) {
            assert(views(v@)[i as int] == s@);
            return true;
        }
        i += 1;
    }
    assert forall|j: int| 0 <= j < views(v@).len() implies views(v@)[j] != s@ by {
        assert(views(v@)[j] == v@[j]@);
    }
    false
}

/// A list of distinct commits of a finite set is no longer than the set.
proof fn lemma_distinct_in_set(s: Seq<Seq<char>>, u: Set<Seq<char>>)
    requires
        u.finite(),
        s.no_duplicates(),
        forall|i: int| 0 <= i < s.len() ==> u.contains(s[i]),
    ensures
        s.len() <= u.len(),
{
    s.unique_seq_to_set();
    assert(s.to_set().subset_of(u));
    vstd::set_lib::lemma_len_subset(s.to_set(), u);
}

/// Visit a commit in dependency graph traversal (DFS with cycle detection)
fn visit_commit<F: Fn(&str) -> Result<Vec<String>, String>>(
    commit: &str,
    fetch: &F,
    stack: &mut Vec<String>,
    resolved: &mut Vec<String>,
    Ghost(u): Ghost<Set<Seq<char>>>,
    Ghost(roots): Ghost<Set<Seq<char>>>,
) -> (r: Result<(), String>)
    requires
        old(stack)@.len() > 0 ==> roots.contains(old(stack)@[0]@),
        old(stack)@.len() == 0 ==> roots.contains(commit@),
        forall|i: int| 0 <= i < old(resolved)@.len() ==> reachable(*fetch, roots, #[trigger] old(resolved)@[i]@),
        forall|s: &str| call_requires(*fetch, (s,)),
        u.finite(),
        closed_universe(*fetch, u),
        u.contains(commit@),
        forall|i: int| 0 <= i < old(stack)@.len() ==> u.contains(#[trigger] old(stack)@[i]@),
        views(old(stack)@).no_duplicates(),
        is_chain(*fetch, views(old(stack)@)),
        old(stack)@.len() > 0 ==> requires_edge(*fetch, old(stack)@.last()@, commit@),
        resolved_in_order(*fetch, views(old(resolved)@)),
        forall|i: int|
            0 <= i < old(stack)@.len() ==> !views(old(resolved)@).contains(
                #[trigger] old(stack)@[i]@,
            ),
    ensures
        match r {
            Ok(()) => {
                &&& final(stack)@ == old(stack)@
                &&& views(final(resolved)@).subrange(0, old(resolved)@.len() as int) == views(
                    old(resolved)@,
                )
                &&& old(resolved)@.len() <= final(resolved)@.len()
                &&& views(final(resolved)@).contains(commit@)
                &&& resolved_in_order(*fetch, views(final(resolved)@))
                &&& forall|i: int|
                    0 <= i < old(stack)@.len() ==> !views(final(resolved)@).contains(
                        #[trigger] old(stack)@[i]@,
                    )
                &&& forall|i: int|
                    0 <= i < final(resolved)@.len() ==> reachable(*fetch, roots, #[trigger] final(resolved)@[i]@)
            },
            Err(e) => closure_error(*fetch, roots, e@),
        },
    decreases u.len() - old(stack)@.len(),
{
    proof {
        lemma_distinct_in_set(views(stack@), u);
    }
    if contains_str(resolved, commit) {
        return Ok(());
    }
    if contains_str(stack, commit) {
        let msg_path = build_cycle_path(stack, commit);
        let mut msg = to_owned_string("Circular dependency detected: ");
        push_str(&mut msg, msg_path.as_str());
        proof {
            let path = views(stack@).push(commit@);
            assert(path.drop_last() =~= views(stack@));
            assert forall|i: int| 0 <= i < path.len() - 1 implies #[trigger] requires_edge(
                *fetch,
                path[i],
                path[i + 1],
            ) by {
                if i < path.len() - 2 {
                    assert(path[i] == views(stack@)[i] && path[i + 1] == views(stack@)[i + 1]);
                } else {
                    assert(path[i] == stack@.last()@);
                }
            }
            assert(is_cycle(*fetch, path));
            assert(msg@ == cycle_message(path));
            assert(path[0] == stack@[0]@);
        }
        return Err(msg);
    }
    let ghost stack0 = stack@;
    let ghost resolved0 = resolved@;
    proof {
        assert forall|i: int| 0 <= i < views(stack@).len() implies views(stack@)[i] != commit@ by {
            assert(views(stack@).contains(views(stack@)[i]));
        }
    }
    stack.push(to_owned_string(commit));
    proof {
        assert(views(stack@) =~= views(stack0).push(commit@));
        assert(views(stack@).no_duplicates());
        lemma_distinct_in_set(views(stack@), u);
        assert forall|i: int| 0 <= i < views(stack@).len() - 1 implies #[trigger] requires_edge(
            *fetch,
            views(stack@)[i],
            views(stack@)[i + 1],
        ) by {
            if i < views(stack0).len() - 1 {
                assert(views(stack@)[i] == views(stack0)[i]);
                assert(views(stack@)[i + 1] == views(stack0)[i + 1]);
            } else {
                assert(views(stack@)[i] == stack0.last()@);
            }
        }
        let p = views(stack@);
        assert(p[0] == stack@[0]@);
        if stack0.len() > 0 {
            assert(stack@[0] == stack0[0]);
        } else {
            assert(stack@[0]@ == commit@);
        }
        assert(roots.contains(p[0]));
        assert(p.last() == commit@);
        assert(is_chain(*fetch, p));
        assert(reachable(*fetch, roots, commit@));
    }
    let requires_list = match fetch(commit) {
        Ok(list) => list,
        Err(e) => {
            return Err(e);
        },
    };
    let mut j: usize = 0;
    while j < requires_list.len()
        invariant
            forall|s: &str| call_requires(*fetch, (s,)),
            u.finite(),
            closed_universe(*fetch, u),
            u.contains(commit@),
            call_ensures(*fetch, (commit,), Ok(requires_list)),
            views(stack@) == views(stack0).push(commit@),
            stack0 == old(stack)@,
            resolved0 == old(resolved)@,
            stack@.len() == stack0.len() + 1,
            stack@.subrange(0, stack0.len() as int) == stack0,
            forall|i: int| 0 <= i < stack@.len() ==> u.contains(#[trigger] stack@[i]@),
            views(stack@).no_duplicates(),
            is_chain(*fetch, views(stack@)),
            stack@.last()@ == commit@,
            stack@.len() <= u.len(),
            resolved_in_order(*fetch, views(resolved@)),
            forall|i: int| 0 <= i < stack@.len() ==> !views(resolved@).contains(#[trigger] stack@[i]@),
            resolved0.len() <= resolved@.len(),
            views(resolved@).subrange(0, resolved0.len() as int) == views(resolved0),
            j <= requires_list@.len(),
            forall|k: int| 0 <= k < j ==> views(resolved@).contains(#[trigger] requires_list@[k]@),
            roots.contains(stack@[0]@),
            reachable(*fetch, roots, commit@),
            forall|i: int| 0 <= i < resolved@.len() ==> reachable(*fetch, roots, #[trigger] resolved@[i]@),
        decreases requires_list@.len() - j,
    {
        let req = requires_list[j].as_str();
        proof {
            assert(u.contains(requires_list@[j as int]@));
            assert(views(requires_list@)[j as int] == requires_list@[j as int]@);
            assert(requires_edge(*fetch, stack@.last()@, req@));
        }
        let ghost before = views(resolved@);
        match visit_commit(req, fetch, stack, resolved, Ghost(u), Ghost(roots)) {
            Ok(()) => {},
            Err(e) => {
                return Err(e);
            },
        }
        proof {
            assert forall|k: int| 0 <= k < j + 1 implies views(resolved@).contains(
                #[trigger] requires_list@[k]@,
            ) by {
                if k < j {
                    let w = choose|w: int| 0 <= w < before.len() && before[w] == requires_list@[k]@;
                    assert(views(resolved@).subrange(0, before.len() as int)[w] == before[w]);
                    assert(views(resolved@)[w] == before[w]);
                }
            }
            assert(views(resolved@).subrange(0, resolved0.len() as int) =~= views(resolved@).subrange(
                0,
                before.len() as int,
            ).subrange(0, resolved0.len() as int));
        }
        j += 1;
    }
    proof {
        let last = (stack@.len() - 1) as int;
        assert(!views(resolved@).contains(stack@[last]@));
        assert(stack@[last]@ == commit@);
        assert(!views(resolved@).contains(commit@));
    }
    stack.pop();
    proof {
        assert(stack@ =~= stack0);
    }
    let ghost mid = views(resolved@);
    resolved.push(to_owned_string(commit));
    proof {
        let v = views(resolved@);
        assert(v =~= mid.push(commit@));
        assert(v.no_duplicates());
        assert forall|i: int| 0 <= i < v.len() implies #[trigger] entry_in_order(*fetch, v, i) by {
            if i < mid.len() {
                assert(entry_in_order(*fetch, mid, i));
                assert(v.subrange(0, i) =~= mid.subrange(0, i));
                assert(v[i] == mid[i]);
            } else {
                assert(v.subrange(0, i) =~= mid);
                assert(commit@ == v[i]);
                assert forall|k: int| 0 <= k < requires_list@.len() implies #[trigger] v.subrange(
                    0,
                    i,
                ).contains(requires_list@[k]@) by {
                    assert(mid.contains(requires_list@[k]@));
                }
            }
        }
        assert(v.subrange(0, resolved0.len() as int) =~= mid.subrange(0, resolved0.len() as int));
        assert forall|i: int| 0 <= i < stack0.len() implies !v.contains(#[trigger] stack0[i]@) by {
            let full = views(stack0).push(commit@);
            assert(full.no_duplicates());
            assert(full[i] == stack0[i]@);
            assert(full[stack0.len() as int] == commit@);
            assert(stack0[i]@ != commit@);
            assert(stack@ == stack0);
            assert(!mid.contains(stack@[i]@));
            if v.contains(stack0[i]@) {
                let w = choose|w: int| 0 <= w < v.len() && v[w] == stack0[i]@;
                if w < mid.len() {
                    assert(mid[w] == v[w]);
                }
            }
        }
        assert(v.contains(commit@)) by {
            assert(v[mid.len() as int] == commit@);
        }
        assert forall|i: int| 0 <= i < resolved@.len() implies reachable(*fetch, roots, #[trigger] resolved@[i]@) by {
            if i < mid.len() {
                assert(resolved@[i]@ == mid[i]);
            } else {
                assert(resolved@[i]@ == commit@);
            }
        }
    }
    Ok(())
}

/// Resolve the full dependency closure (transitive dependencies) with custom fetch
pub fn resolve_dependency_closure_with_fetch<F: Fn(&str) -> Result<Vec<String>, String>>(
    dependencies: &[Dependency],
    fetch: F,
) -> (r: Result<Vec<String>, String>)
    requires
        forall|s: &str| call_requires(fetch, (s,)),
        finite_closure(fetch, dependencies@),
    ensures
        match r {
            Ok(v) => {
                &&& resolved_in_order(fetch, views(v@))
                &&& forall|i: int|
                    0 <= i < dependencies@.len() ==> views(v@).contains(
                        #[trigger] dependencies@[i].commit@,
                    )
                &&& forall|i: int|
                    0 <= i < v@.len() ==> reachable(fetch, root_set(dependencies@), #[trigger] v@[i]@)
                &&& deterministic(fetch) ==> forall|c: Seq<char>|
                    reachable(fetch, root_set(dependencies@), c) ==> #[trigger] views(v@).contains(c)
            },
            Err(e) => closure_error(fetch, root_set(dependencies@), e@),
        },
{
    let ghost u = choose|u: Set<Seq<char>>|
        #![trigger u.finite()]
        u.finite() && closed_universe(fetch, u) && forall|i: int|
            0 <= i < dependencies@.len() ==> u.contains(#[trigger] dependencies@[i].commit@);
    let mut resolved: Vec<String> = Vec::new();
    let mut stack: Vec<String> = Vec::new();
    let mut i: usize = 0;
    proof {
        assert(views(resolved@) =~= Seq::<Seq<char>>::empty());
        assert(views(stack@) =~= Seq::<Seq<char>>::empty());
    }
    while i < dependencies.len()
        invariant
            forall|s: &str| call_requires(fetch, (s,)),
            u.finite(),
            closed_universe(fetch, u),
            forall|k: int| 0 <= k < dependencies@.len() ==> u.contains(#[trigger] dependencies@[k].commit@),
            stack@.len() == 0,
            views(stack@) == Seq::<Seq<char>>::empty(),
            resolved_in_order(fetch, views(resolved@)),
            i <= dependencies@.len(),
            forall|k: int| 0 <= k < i ==> views(resolved@).contains(#[trigger] dependencies@[k].commit@),
            forall|k: int| 0 <= k < resolved@.len() ==> reachable(fetch, root_set(dependencies@), #[trigger] resolved@[k]@),
        decreases dependencies@.len() - i,
    {
        let dep = &dependencies[i];
        let ghost before = views(resolved@);
        proof {
            assert(root_set(dependencies@).contains(dep.commit@));
        }
        match visit_commit(dep.commit.as_str(), &fetch, &mut stack, &mut resolved, Ghost(u), Ghost(root_set(dependencies@))) {
            Ok(()) => {},
            Err(e) => {
                return Err(e);
            },
        }
        proof {
            assert(views(stack@) =~= Seq::<Seq<char>>::empty());
            assert forall|k: int| 0 <= k < i + 1 implies views(resolved@).contains(
                #[trigger] dependencies@[k].commit@,
            ) by {
                if k < i {
                    let w = choose|w: int| 0 <= w < before.len() && before[w] == dependencies@[k].commit@;
                    assert(views(resolved@).subrange(0, before.len() as int)[w] == before[w]);
                    assert(views(resolved@)[w] == before[w]);
                }
            }
        }
        i += 1;
    }
    proof {
        assert forall|c: Seq<char>| deterministic(fetch) && reachable(fetch, root_set(dependencies@), c) implies #[trigger] views(resolved@).contains(c) by {
            let path = choose|path: Seq<Seq<char>>|
                #[trigger] is_chain(fetch, path) && path.len() >= 1 && root_set(dependencies@).contains(path[0]) && path.last() == c;
            lemma_chain_in_closure(fetch, dependencies@, views(resolved@), path);
        }
    }
    Ok(resolved)
}

/// Under a deterministic lookup, a closure that holds the roots and lists
/// each entry after what it requires holds every commit of a chain from a
/// root.
proof fn lemma_chain_in_closure<F: Fn(&str) -> Result<Vec<String>, String>>(
    fetch: F,
    deps: Seq<Dependency>,
    v: Seq<Seq<char>>,
    path: Seq<Seq<char>>,
)
    requires
        deterministic(fetch),
        resolved_in_order(fetch, v),
        forall|i: int| 0 <= i < deps.len() ==> v.contains(#[trigger] deps[i].commit@),
        is_chain(fetch, path),
        path.len() >= 1,
        root_set(deps).contains(path[0]),
    ensures
        v.contains(path.last()),
    decreases path.len(),
{
    if path.len() == 1 {
        let i = choose|i: int| 0 <= i < deps.len() && #[trigger] deps[i].commit@ == path[0];
        assert(v.contains(deps[i].commit@));
    } else {
        let prev = path.drop_last();
        assert(is_chain(fetch, prev)) by {
            assert forall|i: int| 0 <= i < prev.len() - 1 implies #[trigger] requires_edge(fetch, prev[i], prev[i + 1]) by {
                assert(requires_edge(fetch, path[i], path[i + 1]));
            }
        }
        lemma_chain_in_closure(fetch, deps, v, prev);
        let a = prev.last();
        let b = path.last();
        let n = path.len() - 2;
        assert(requires_edge(fetch, path[n], path[n + 1]));
        assert(path[n] == a && path[n + 1] == b);
        let (s, r) = choose|s: &str, r: Vec<String>|
            s@ == a && #[trigger] call_ensures(fetch, (s,), Ok(r)) && views(r@).contains(b);
        let idx = choose|idx: int| 0 <= idx < v.len() && v[idx] == a;
        assert(entry_in_order(fetch, v, idx));
        let (s2, r2) = choose|s2: &str, r2: Vec<String>|
            s2@ == v[idx] && #[trigger] call_ensures(fetch, (s2,), Ok(r2)) && forall|k: int|
                0 <= k < r2@.len() ==> #[trigger] v.subrange(0, idx).contains(r2@[k]@);
        assert(views(r@) == views(r2@));
        let k = choose|k: int| 0 <= k < views(r@).len() && views(r@)[k] == b;
        assert(views(r2@)[k] == r2@[k]@);
        assert(v.subrange(0, idx).contains(r2@[k]@));
        let w = choose|w: int| 0 <= w < idx && v.subrange(0, idx)[w] == b;
        assert(v[w] == b);
    }
}

} // verus!
