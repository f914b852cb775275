//! The order in which a package and its missing dependencies are built:
//! in waves, each wave every remaining package whose dependencies are all
//! built.
//!
//! Packages are the nodes of the dependency graph, numbered from 0; an edge
//! runs from a dependency to the package that needs it. A node that is not
//! `wanted` marks a package that is built already and is not waited for.
use vstd::prelude::*;
use crate::builder::runtime::file_name;
use crate::builder::runtime::file_name_of;
use crate::text::to_owned_string;
use crate::text::push_str;
use crate::text::push_char;
use crate::text::ends_with;
use crate::text::is_suffix;

verus! {

/// The graph has `n` nodes and every edge stays among them.
pub open spec fn graph_wf(incoming: Seq<Vec<usize>>, wanted: Seq<bool>, n: nat) -> bool {
    &&& incoming.len() == n
    &&& wanted.len() == n
    &&& forall|i: int, k: int|
        0 <= i < n && 0 <= k < incoming[i]@.len() ==> #[trigger] incoming[i]@[k] < n
}

/// Every node of `v` is below `n`.
pub open spec fn nodes_below(v: Seq<usize>, n: nat) -> bool {
    forall|i: int| 0 <= i < v.len() ==> #[trigger] v[i] < n
}

/// The nodes that `completed` marks.
pub open spec fn done_set(completed: Seq<bool>) -> Set<usize> {
    Set::new(|i: usize| i < completed.len() && completed[i as int])
}

/// Every wanted dependency of `node` is done.
pub open spec fn is_ready(incoming: Seq<Vec<usize>>, wanted: Seq<bool>, done: Set<usize>, node: usize) -> bool {
    forall|k: int|
        0 <= k < incoming[node as int]@.len() ==> (wanted[#[trigger] incoming[node as int]@[k] as int]
            ==> done.contains(incoming[node as int]@[k]))
}

/// The ready nodes of `rem`, in order.
pub open spec fn ready_nodes(
    incoming: Seq<Vec<usize>>,
    wanted: Seq<bool>,
    done: Set<usize>,
    rem: Seq<usize>,
) -> Seq<usize>
    decreases rem.len(),
{
    if rem.len() == 0 {
        Seq::empty()
    } else {
        let r = ready_nodes(incoming, wanted, done, rem.drop_last());
        if is_ready(incoming, wanted, done, rem.last()) {
            r.push(rem.last())
        } else {
            r
        }
    }
}

/// The nodes of `rem` that are not done, in order.
pub open spec fn not_done(done: Set<usize>, rem: Seq<usize>) -> Seq<usize>
    decreases rem.len(),
{
    if rem.len() == 0 {
        Seq::empty()
    } else {
        let r = not_done(done, rem.drop_last());
        if done.contains(rem.last()) {
            r
        } else {
            r.push(rem.last())
        }
    }
}

/// The waves of building `rem` when `done` is built: each wave is every
/// ready node that remains; the plan is stuck (`true`) when nodes remain
/// and none is ready. `fuel` bounds the number of waves.
pub open spec fn plan(
    incoming: Seq<Vec<usize>>,
    wanted: Seq<bool>,
    rem: Seq<usize>,
    done: Set<usize>,
    fuel: nat,
) -> (Seq<Seq<usize>>, bool)
    decreases fuel,
{
    if rem.len() == 0 {
        (Seq::empty(), false)
    } else if fuel == 0 {
        (Seq::empty(), true)
    } else {
        let w = ready_nodes(incoming, wanted, done, rem);
        if w.len() == 0 {
            (Seq::empty(), true)
        } else {
            let d2 = done.union(w.to_set());
            let p = plan(incoming, wanted, not_done(d2, rem), d2, (fuel - 1) as nat);
            (seq![w] + p.0, p.1)
        }
    }
}

/// The ready nodes are nodes of `rem`, and ready.
proof fn lemma_ready_nodes(incoming: Seq<Vec<usize>>, wanted: Seq<bool>, done: Set<usize>, rem: Seq<usize>)
    ensures
        forall|i: int|
            0 <= i < ready_nodes(incoming, wanted, done, rem).len() ==> rem.contains(
                #[trigger] ready_nodes(incoming, wanted, done, rem)[i],
            ) && is_ready(incoming, wanted, done, ready_nodes(incoming, wanted, done, rem)[i]),
    decreases rem.len(),
{
    if rem.len() > 0 {
        lemma_ready_nodes(incoming, wanted, done, rem.drop_last());
        let r = ready_nodes(incoming, wanted, done, rem.drop_last());
        assert forall|i: int| 0 <= i < r.len() implies rem.contains(#[trigger] r[i]) by {
            let j = choose|j: int| 0 <= j < rem.drop_last().len() && rem.drop_last()[j] == r[i];
            assert(rem[j] == r[i]);
        }
        assert(rem[rem.len() - 1] == rem.last());
    }
}

/// The nodes not done are nodes of `rem`: no more of them, and fewer when
/// a node of `rem` is done.
proof fn lemma_not_done_len(done: Set<usize>, rem: Seq<usize>)
    ensures
        not_done(done, rem).len() <= rem.len(),
        (exists|i: int| 0 <= i < rem.len() && done.contains(#[trigger] rem[i])) ==> not_done(done, rem).len()
            < rem.len(),
        forall|i: int|
            0 <= i < not_done(done, rem).len() ==> !done.contains(#[trigger] not_done(done, rem)[i])
                && rem.contains(not_done(done, rem)[i]),
    decreases rem.len(),
{
    if rem.len() > 0 {
        let p = rem.drop_last();
        lemma_not_done_len(done, p);
        if exists|i: int| 0 <= i < rem.len() && done.contains(#[trigger] rem[i]) {
            let i = choose|i: int| 0 <= i < rem.len() && done.contains(#[trigger] rem[i]);
            if i < rem.len() - 1 {
                assert(p[i] == rem[i]);
            }
        }
        let r = not_done(done, p);
        assert forall|i: int| 0 <= i < r.len() implies rem.contains(#[trigger] r[i]) by {
            let j = choose|j: int| 0 <= j < p.len() && p[j] == r[i];
            assert(rem[j] == r[i]);
        }
        assert(rem[rem.len() - 1] == rem.last());
    }
}

/// The nodes of a plan's waves are ready when their wave comes: each
/// node's dependencies are done or built in an earlier wave.
pub open spec fn plan_sound(
    incoming: Seq<Vec<usize>>,
    wanted: Seq<bool>,
    done: Set<usize>,
    waves: Seq<Seq<usize>>,
) -> bool
    decreases waves.len(),
{
    if waves.len() == 0 {
        true
    } else {
        (forall|i: int| 0 <= i < waves[0].len() ==> is_ready(incoming, wanted, done, #[trigger] waves[0][i]))
            && plan_sound(incoming, wanted, done.union(waves[0].to_set()), waves.drop_first())
    }
}

/// A plan builds each package only after its dependencies: every node of a
/// wave has all its wanted dependencies built before the wave.
pub proof fn lemma_plan_sound(
    incoming: Seq<Vec<usize>>,
    wanted: Seq<bool>,
    rem: Seq<usize>,
    done: Set<usize>,
    fuel: nat,
)
    ensures
        plan_sound(incoming, wanted, done, plan(incoming, wanted, rem, done, fuel).0),
    decreases fuel,
{
    if rem.len() > 0 && fuel > 0 {
        let w = ready_nodes(incoming, wanted, done, rem);
        if w.len() > 0 {
            let d2 = done.union(w.to_set());
            lemma_ready_nodes(incoming, wanted, done, rem);
            lemma_plan_sound(incoming, wanted, not_done(d2, rem), d2, (fuel - 1) as nat);
            let ws = plan(incoming, wanted, rem, done, fuel).0;
            let rest = plan(incoming, wanted, not_done(d2, rem), d2, (fuel - 1) as nat).0;
            assert(ws[0] == w);
            assert(ws.drop_first() =~= rest);
        }
    }
}

/// `order` lists each wanted dependency of a node before the node: a
/// topological order of the graph.
pub open spec fn topo_order(incoming: Seq<Vec<usize>>, wanted: Seq<bool>, order: Seq<usize>) -> bool {
    forall|i: int, k: int|
        0 <= i < order.len() && 0 <= k < incoming[order[i] as int]@.len() && wanted[
            #[trigger] incoming[order[i] as int]@[k] as int
        ] ==> exists|j: int| 0 <= j < i && order[j] == incoming[order[i] as int]@[k]
}

/// A node of `order` that is not done has a ready node that is not done at
/// or before it.
proof fn lemma_exists_ready(
    incoming: Seq<Vec<usize>>,
    wanted: Seq<bool>,
    order: Seq<usize>,
    done: Set<usize>,
    i: int,
)
    requires
        topo_order(incoming, wanted, order),
        0 <= i < order.len(),
        !done.contains(order[i]),
    ensures
        exists|j: int| 0 <= j <= i && !done.contains(order[j]) && is_ready(incoming, wanted, done, #[trigger] order[j]),
    decreases i,
{
    if !is_ready(incoming, wanted, done, order[i]) {
        let k = choose|k: int|
            0 <= k < incoming[order[i] as int]@.len() && !(wanted[incoming[order[i] as int]@[k] as int]
                ==> done.contains(incoming[order[i] as int]@[k]));
        let d = incoming[order[i] as int]@[k];
        assert(wanted[d as int]);
        let j = choose|j: int| 0 <= j < i && order[j] == incoming[order[i] as int]@[k];
        lemma_exists_ready(incoming, wanted, order, done, j);
    }
}

/// The nodes of `s` that are not done are in `not_done`.
proof fn lemma_in_not_done(done: Set<usize>, s: Seq<usize>, i: int)
    requires
        0 <= i < s.len(),
        !done.contains(s[i]),
    ensures
        not_done(done, s).contains(s[i]),
    decreases s.len(),
{
    if i < s.len() - 1 {
        lemma_in_not_done(done, s.drop_last(), i);
        let r = not_done(done, s.drop_last());
        let j = choose|j: int| 0 <= j < r.len() && r[j] == s[i];
        if !done.contains(s.last()) {
            assert(r.push(s.last())[j] == s[i]);
        }
    } else {
        assert(not_done(done, s).last() == s[i]);
    }
}

/// A ready node of `rem` makes the ready nodes not empty.
proof fn lemma_ready_nonempty(
    incoming: Seq<Vec<usize>>,
    wanted: Seq<bool>,
    done: Set<usize>,
    rem: Seq<usize>,
    x: usize,
)
    requires
        rem.contains(x),
        is_ready(incoming, wanted, done, x),
    ensures
        ready_nodes(incoming, wanted, done, rem).len() > 0,
    decreases rem.len(),
{
    if rem.last() != x {
        let i = choose|i: int| 0 <= i < rem.len() && rem[i] == x;
        assert(rem.drop_last()[i] == x);
        lemma_ready_nonempty(incoming, wanted, done, rem.drop_last(), x);
    }
}

/// Taking out what is done in two steps is taking it out at once.
proof fn lemma_not_done_twice(d1: Set<usize>, d2: Set<usize>, s: Seq<usize>)
    requires
        d1.subset_of(d2),
    ensures
        not_done(d2, not_done(d1, s)) == not_done(d2, s),
    decreases s.len(),
{
    if s.len() > 0 {
        lemma_not_done_twice(d1, d2, s.drop_last());
        if !d1.contains(s.last()) {
            let r = not_done(d1, s.drop_last());
            assert(r.push(s.last()).drop_last() =~= r);
        }
    }
}

/// With a topological order, the build never gets stuck: there is always a
/// package whose dependencies are built, until all are.
pub proof fn lemma_topo_never_stuck(
    incoming: Seq<Vec<usize>>,
    wanted: Seq<bool>,
    order: Seq<usize>,
    done: Set<usize>,
    fuel: nat,
)
    requires
        topo_order(incoming, wanted, order),
        fuel >= not_done(done, order).len(),
    ensures
        !plan(incoming, wanted, not_done(done, order), done, fuel).1,
    decreases fuel,
{
    let rem = not_done(done, order);
    if rem.len() > 0 {
        lemma_not_done_len(done, order);
        assert(!done.contains(rem[0]) && order.contains(rem[0]));
        let i = choose|i: int| 0 <= i < order.len() && order[i] == rem[0];
        lemma_exists_ready(incoming, wanted, order, done, i);
        let j = choose|j: int| 0 <= j <= i && !done.contains(order[j]) && is_ready(incoming, wanted, done, #[trigger] order[j]);
        lemma_in_not_done(done, order, j);
        lemma_ready_nonempty(incoming, wanted, done, rem, order[j]);
        let w = ready_nodes(incoming, wanted, done, rem);
        let d2 = done.union(w.to_set());
        lemma_ready_nodes(incoming, wanted, done, rem);
        assert(w.to_set().contains(w[0]));
        let m = choose|m: int| 0 <= m < rem.len() && rem[m] == w[0];
        lemma_not_done_len(d2, rem);
        lemma_not_done_twice(done, d2, order);
        lemma_topo_never_stuck(incoming, wanted, order, d2, (fuel - 1) as nat);
    }
}

/// Whether every wanted dependency of `node` is done.
fn node_ready(incoming: &Vec<Vec<usize>>, wanted: &Vec<bool>, completed: &Vec<bool>, node: usize) -> (r: bool)
    requires
        graph_wf(incoming@, wanted@, incoming@.len()),
        completed@.len() == incoming@.len(),
        node < incoming@.len(),
    ensures
        r == is_ready(incoming@, wanted@, done_set(completed@), node),
{
    let deps = &incoming[node];
    let mut k: usize = 0;
    while k < deps.len()
        invariant
            graph_wf(incoming@, wanted@, incoming@.len()),
            completed@.len() == incoming@.len(),
            node < incoming@.len(),
            deps@ == incoming@[node as int]@,
            k <= deps@.len(),
            forall|j: int|
                0 <= j < k ==> (wanted@[#[trigger] deps@[j] as int] ==> done_set(completed@).contains(
                    deps@[j],
                )),
        decreases deps@.len() - k,
    {
        let d = deps[k];
        assert(d < incoming@.len());
        if wanted[d] && !completed[d] {
            assert(!done_set(completed@).contains(d));
            return false;
        }
        k += 1;
    }
    true
}

/// The ready nodes of `remaining`.
fn ready_wave(
    incoming: &Vec<Vec<usize>>,
    wanted: &Vec<bool>,
    completed: &Vec<bool>,
    remaining: &Vec<usize>,
) -> (r: Vec<usize>)
    requires
        graph_wf(incoming@, wanted@, incoming@.len()),
        completed@.len() == incoming@.len(),
        nodes_below(remaining@, incoming@.len()),
    ensures
        r@ == ready_nodes(incoming@, wanted@, done_set(completed@), remaining@),
{
    let ghost done = done_set(completed@);
    let mut wave: Vec<usize> = Vec::new();
    let mut i: usize = 0;
    while i < remaining.len()
        invariant
            graph_wf(incoming@, wanted@, incoming@.len()),
            completed@.len() == incoming@.len(),
            nodes_below(remaining@, incoming@.len()),
            done == done_set(completed@),
            i <= remaining@.len(),
            wave@ == ready_nodes(incoming@, wanted@, done, remaining@.subrange(0, i as int)),
        decreases remaining@.len() - i,
    {
        proof {
            assert(remaining@.subrange(0, i + 1).drop_last() =~= remaining@.subrange(0, i as int));
        }
        let node = remaining[i];
        if node_ready(incoming, wanted, completed, node) {
            wave.push(node);
        }
        i += 1;
    }
    proof {
        assert(remaining@.subrange(0, remaining@.len() as int) =~= remaining@);
    }
    wave
}

/// Marks the nodes of `wave` done.
fn mark_done(completed: &mut Vec<bool>, wave: &Vec<usize>)
    requires
        nodes_below(wave@, old(completed)@.len()),
    ensures
        final(completed)@.len() == old(completed)@.len(),
        done_set(final(completed)@) == done_set(old(completed)@).union(wave@.to_set()),
{
    let ghost start = done_set(completed@);
    let mut i: usize = 0;
    while i < wave.len()
        invariant
            completed@.len() == old(completed)@.len(),
            nodes_below(wave@, completed@.len()),
            start == done_set(old(completed)@),
            i <= wave@.len(),
            done_set(completed@) == start.union(wave@.subrange(0, i as int).to_set()),
        decreases wave@.len() - i,
    {
        let node = wave[i];
        let ghost before = done_set(completed@);
        completed.set(node, true);
        proof {
            assert(wave@.subrange(0, i + 1) =~= wave@.subrange(0, i as int).push(node));
            wave@.subrange(0, i as int).lemma_push_to_set_commute(node);
            assert(done_set(completed@) =~= before.insert(node));
            assert(start.union(wave@.subrange(0, i + 1).to_set()) =~= start.union(
                wave@.subrange(0, i as int).to_set(),
            ).insert(node));
        }
        i += 1;
    }
    proof {
        assert(wave@.subrange(0, wave@.len() as int) =~= wave@);
    }
}

/// The nodes of `remaining` that are not done.
fn keep_not_done(completed: &Vec<bool>, remaining: &Vec<usize>) -> (r: Vec<usize>)
    requires
        nodes_below(remaining@, completed@.len()),
    ensures
        r@ == not_done(done_set(completed@), remaining@),
{
    let mut kept: Vec<usize> = Vec::new();
    let mut i: usize = 0;
    while i < remaining.len()
        invariant
            nodes_below(remaining@, completed@.len()),
            i <= remaining@.len(),
            kept@ == not_done(done_set(completed@), remaining@.subrange(0, i as int)),
        decreases remaining@.len() - i,
    {
        proof {
            assert(remaining@.subrange(0, i + 1).drop_last() =~= remaining@.subrange(0, i as int));
        }
        let node = remaining[i];
        if !completed[node] {
            kept.push(node);
        }
        i += 1;
    }
    proof {
        assert(remaining@.subrange(0, remaining@.len() as int) =~= remaining@);
    }
    kept
}

/// The texts of the waves.
pub open spec fn wave_views(v: Seq<Vec<usize>>) -> Seq<Seq<usize>> {
    v.map_values(|w: Vec<usize>| w@)
}

/// The waves in which the nodes of `build_order` can be built, and whether
/// the plan got stuck on a dependency cycle.
pub fn plan_waves(build_order: &Vec<usize>, incoming: &Vec<Vec<usize>>, wanted: &Vec<bool>) -> (r: (
    Vec<Vec<usize>>,
    bool,
))
    requires
        graph_wf(incoming@, wanted@, incoming@.len()),
        nodes_below(build_order@, incoming@.len()),
    ensures
        (wave_views(r.0@), r.1) == plan(
            incoming@,
            wanted@,
            build_order@,
            Set::empty(),
            build_order@.len() as nat,
        ),
{
    let n = incoming.len();
    let mut completed: Vec<bool> = Vec::new();
    while completed.len() < n
        invariant
            completed@.len() <= n,
            forall|i: int| 0 <= i < completed@.len() ==> !completed@[i],
        decreases n - completed@.len(),
    {
        completed.push(false);
    }
    proof {
        assert(done_set(completed@) =~= Set::<usize>::empty());
    }
    let ghost target = plan(incoming@, wanted@, build_order@, Set::empty(), build_order@.len() as nat);
    let mut remaining: Vec<usize> = build_order.clone();
    proof {
        assert(remaining@ == build_order@);
    }
    let mut waves: Vec<Vec<usize>> = Vec::new();
    let ghost mut fuel: nat = build_order@.len() as nat;
    loop
        invariant
            graph_wf(incoming@, wanted@, incoming@.len()),
            n == incoming@.len(),
            completed@.len() == n,
            nodes_below(remaining@, n as nat),
            remaining@.len() <= fuel,
            target == plan(incoming@, wanted@, build_order@, Set::empty(), build_order@.len() as nat),
            (wave_views(waves@) + plan(incoming@, wanted@, remaining@, done_set(completed@), fuel).0, plan(
                incoming@,
                wanted@,
                remaining@,
                done_set(completed@),
                fuel,
            ).1) == target,
        decreases remaining@.len(),
    {
        let ghost done = done_set(completed@);
        let ghost p = plan(incoming@, wanted@, remaining@, done, fuel);
        if remaining.len() == 0 {
            proof {
                assert(p.0 =~= Seq::<Seq<usize>>::empty());
                assert(!p.1);
                assert(wave_views(waves@) + p.0 =~= wave_views(waves@));
            }
            return (waves, false);
        }
        let wave = ready_wave(incoming, wanted, &completed, &remaining);
        if wave.len() == 0 {
            proof {
                assert(p.0 =~= Seq::<Seq<usize>>::empty());
                assert(p.1);
                assert(wave_views(waves@) + p.0 =~= wave_views(waves@));
            }
            return (waves, true);
        }
        proof {
            lemma_ready_nodes(incoming@, wanted@, done, remaining@);
            assert(remaining@.contains(wave@[0]));
        }
        mark_done(&mut completed, &wave);
        let next = keep_not_done(&completed, &remaining);
        proof {
            let d2 = done.union(wave@.to_set());
            assert(wave@.to_set().contains(wave@[0]));
            let j = choose|j: int| 0 <= j < remaining@.len() && remaining@[j] == wave@[0];
            assert(d2.contains(remaining@[j]));
            lemma_not_done_len(d2, remaining@);
            assert forall|i: int| 0 <= i < next@.len() implies #[trigger] next@[i] < n by {
                assert(remaining@.contains(next@[i]));
            }
            let q = plan(incoming@, wanted@, next@, d2, (fuel - 1) as nat);
            assert(p == (seq![wave@] + q.0, q.1));
            let ghost old_views = wave_views(waves@);
            assert(wave_views(waves@.push(wave)) =~= old_views.push(wave@));
            assert(old_views.push(wave@) + q.0 =~= old_views + (seq![wave@] + q.0));
            fuel = (fuel - 1) as nat;
        }
        remaining = next;
        waves.push(wave);
    }
}

/// The first bootstrap package of a wave.
pub open spec fn first_bootstrap(w: Seq<usize>, bootstrap: Seq<bool>, i: int) -> bool {
    0 <= i < w.len() && bootstrap[w[i] as int] && forall|j: int| 0 <= j < i ==> !bootstrap[#[trigger] w[j] as int]
}

/// What the parallel builder does, wave after wave: which packages it
/// builds next, given what is built.
pub struct WaveScheduler {
    pub incoming: Vec<Vec<usize>>,
    pub wanted: Vec<bool>,
    /// bootstrap packages share one build directory and are built one at
    /// a time
    pub bootstrap: Vec<bool>,
    pub remaining: Vec<usize>,
    pub completed: Vec<bool>,
}

/// The message when no remaining package can be built.
pub open spec fn stuck_message() -> Seq<char> {
    "Cannot make progress: all remaining packages have unmet dependencies"@
}

impl WaveScheduler {
    /// The tables cover the same nodes, and the nodes to build are among
    /// them.
    pub open spec fn wf(&self) -> bool {
        let n = self.incoming@.len();
        &&& graph_wf(self.incoming@, self.wanted@, n)
        &&& self.bootstrap@.len() == n
        &&& self.completed@.len() == n
        &&& nodes_below(self.remaining@, n)
    }

    /// The packages built so far.
    pub open spec fn done(&self) -> Set<usize> {
        done_set(self.completed@)
    }

    /// A scheduler for `build_order`, with nothing built.
    pub fn new(build_order: Vec<usize>, incoming: Vec<Vec<usize>>, wanted: Vec<bool>, bootstrap: Vec<bool>) -> (r: Self)
        requires
            graph_wf(incoming@, wanted@, incoming@.len()),
            bootstrap@.len() == incoming@.len(),
            nodes_below(build_order@, incoming@.len()),
        ensures
            r.wf(),
            r.remaining@ == build_order@,
            r.done() == Set::<usize>::empty(),
            r.incoming@ == incoming@,
            r.wanted@ == wanted@,
            r.bootstrap@ == bootstrap@,
    {
        let n = incoming.len();
        let mut completed: Vec<bool> = Vec::new();
        while completed.len() < n
            invariant
                completed@.len() <= n,
                forall|i: int| 0 <= i < completed@.len() ==> !completed@[i],
            decreases n - completed@.len(),
        {
            completed.push(false);
        }
        proof {
            assert(done_set(completed@) =~= Set::<usize>::empty());
        }
        WaveScheduler { incoming, wanted, bootstrap, remaining: build_order, completed }
    }

    /// Whether every package is built.
    pub fn is_finished(&self) -> (r: bool)
        ensures
            r == (self.remaining@.len() == 0),
    {
        self.remaining.len() == 0
    }

    /// The packages to build next: every remaining package whose
    /// dependencies are built, or, when one of them is a bootstrap
    /// package, the first of those alone. An error when none is ready.
    pub fn next_wave(&self) -> (r: Result<Vec<usize>, String>)
        requires
            self.wf(),
        ensures
            ({
                let w = ready_nodes(self.incoming@, self.wanted@, self.done(), self.remaining@);
                &&& w.len() == 0 ==> (r matches Err(e) && e@ == stuck_message())
                &&& w.len() > 0 && (exists|i: int| first_bootstrap(w, self.bootstrap@, i)) ==> (r matches Ok(v)
                    && exists|i: int| first_bootstrap(w, self.bootstrap@, i) && v@ == seq![w[i]])
                &&& w.len() > 0 && !(exists|i: int| first_bootstrap(w, self.bootstrap@, i)) ==> (r matches Ok(
                    v,
                ) && v@ == w)
            }),
            r matches Ok(v) ==> forall|i: int|
                0 <= i < v@.len() ==> is_ready(self.incoming@, self.wanted@, self.done(), #[trigger] v@[i]),
    {
        let wave = ready_wave(&self.incoming, &self.wanted, &self.completed, &self.remaining);
        let ghost w = wave@;
        proof {
            lemma_ready_nodes(self.incoming@, self.wanted@, self.done(), self.remaining@);
        }
        if wave.len() == 0 {
            return Err(to_owned_string("Cannot make progress: all remaining packages have unmet dependencies"));
        }
        let mut i: usize = 0;
        while i < wave.len()
            invariant
                self.wf(),
                w == wave@,
                w == ready_nodes(self.incoming@, self.wanted@, self.done(), self.remaining@),
                i <= wave@.len(),
                forall|j: int| 0 <= j < wave@.len() ==> #[trigger] wave@[j] < self.incoming@.len(),
                forall|j: int| 0 <= j < i ==> !self.bootstrap@[#[trigger] wave@[j] as int],
            decreases wave@.len() - i,
        {
            if self.bootstrap[wave[i]] {
                let mut single: Vec<usize> = Vec::new();
                single.push(wave[i]);
                proof {
                    lemma_ready_nodes(self.incoming@, self.wanted@, self.done(), self.remaining@);
                    assert(first_bootstrap(w, self.bootstrap@, i as int));
                    assert(single@ =~= seq![w[i as int]]);
                    assert(is_ready(self.incoming@, self.wanted@, self.done(), w[i as int]));
                }
                return Ok(single);
            }
            i += 1;
        }
        proof {
            assert forall|k: int| !first_bootstrap(w, self.bootstrap@, k) by {
                if first_bootstrap(w, self.bootstrap@, k) {
                    assert(!self.bootstrap@[w[k] as int]);
                }
            }
        }
        Ok(wave)
    }

    /// Records that the packages of `wave` are built.
    pub fn finish_wave(&mut self, wave: &Vec<usize>)
        requires
            old(self).wf(),
            nodes_below(wave@, old(self).incoming@.len()),
        ensures
            final(self).wf(),
            final(self).incoming@ == old(self).incoming@,
            final(self).wanted@ == old(self).wanted@,
            final(self).bootstrap@ == old(self).bootstrap@,
            final(self).done() == old(self).done().union(wave@.to_set()),
            final(self).remaining@ == not_done(final(self).done(), old(self).remaining@),
    {
        mark_done(&mut self.completed, wave);
        let next = keep_not_done(&self.completed, &self.remaining);
        proof {
            lemma_not_done_len(self.done(), self.remaining@);
            assert forall|i: int| 0 <= i < next@.len() implies #[trigger] next@[i] < self.incoming@.len() by {
                assert(self.remaining@.contains(next@[i]));
            }
        }
        self.remaining = next;
    }
}

/// The name a wave shows for a manifest: its file name without trailing
/// `.yaml`s, or `unknown`.
pub open spec fn wave_name_of(path: Seq<char>) -> Seq<char> {
    match file_name_of(path) {
        Some(n) => strip_yaml(n),
        None => "unknown"@,
    }
}

/// `s` without trailing `.yaml`s (`trim_end_matches(".yaml")`).
pub open spec fn strip_yaml(s: Seq<char>) -> Seq<char>
    decreases s.len(),
{
    if s.len() >= 5 && is_suffix(".yaml"@, s) {
        strip_yaml(s.subrange(0, s.len() - 5))
    } else {
        s
    }
}

/// The name of a manifest in a shown build plan.
pub fn wave_name(path: &str) -> (r: String)
    ensures
        r@ == wave_name_of(path@),
{
    match file_name(path) {
        Some(name) => {
            let mut s = name;
            proof {
                reveal_strlit(".yaml");
            }
            while s.unicode_len() >= 5 && ends_with(s.as_str(), ".yaml")
                invariant
                    strip_yaml(s@) == wave_name_of(path@),
                decreases s@.len(),
            {
                let n = s.unicode_len();
                s = s.as_str().substring_char(0, n - 5).to_owned();
            }
            s
        },
        None => to_owned_string("unknown"),
    }
}

/// `s` with each `/` replaced by `_`.
pub open spec fn underscored(s: Seq<char>) -> Seq<char> {
    s.map_values(|c: char| if c == '/' { '_' } else { c })
}

/// Appends `s` with each `/` replaced by `_`.
fn push_underscored(out: &mut String, s: &str)
    ensures
        final(out)@ == old(out)@ + underscored(s@),
{
    let n = s.unicode_len();
    let mut i: usize = 0;
    while i < n
        invariant
            n == s@.len(),
            i <= n,
            out@ == old(out)@ + underscored(s@.subrange(0, i as int)),
        decreases n - i,
    {
        let c = s.get_char(i);
        push_char(out, if c == '/' { '_' } else { c });
        proof {
            assert(underscored(s@.subrange(0, i + 1)) =~= underscored(s@.subrange(0, i as int)).push(
                if c == '/' { '_' } else { c },
            ));
        }
        i += 1;
    }
    proof {
        assert(s@.subrange(0, n as int) =~= s@);
    }
}

/// The build directory of a package in a parallel build: bootstrap
/// packages share `./build_rootfs` (their sysroot path is fixed); the
/// others get one of their own.
pub open spec fn package_build_dir_of(bootstrap: bool, slug: Seq<char>, flavor: Seq<char>) -> Seq<char> {
    if bootstrap {
        "./build_rootfs"@
    } else {
        "./build_rootfs_"@ + underscored(slug) + "_"@ + underscored(flavor)
    }
}

/// The build directory of a package in a parallel build.
pub fn package_build_dir(bootstrap: bool, slug: &str, flavor: &str) -> (r: String)
    ensures
        r@ == package_build_dir_of(bootstrap, slug@, flavor@),
{
    if bootstrap {
        return to_owned_string("./build_rootfs");
    }
    let mut d = to_owned_string("./build_rootfs_");
    push_underscored(&mut d, slug);
    push_str(&mut d, "_");
    push_underscored(&mut d, flavor);
    d
}

/// The build directory of a system in a parallel build.
pub fn system_build_dir(slug: &str) -> (r: String)
    ensures
        r@ == "./build_rootfs_"@ + underscored(slug@) + "_system"@,
{
    let mut d = to_owned_string("./build_rootfs_");
    push_underscored(&mut d, slug);
    push_str(&mut d, "_system");
    d
}

} // verus!
