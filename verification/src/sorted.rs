//! String-keyed maps and string sets held as vectors sorted by key, in the
//! order in which `BTreeMap` and `BTreeSet` walk their `String` keys
//! (lexicographic by character).
use vstd::prelude::*;
use crate::text::to_owned_string;

verus! {

/// `a` sorts strictly before `b`.
pub open spec fn seq_lt(a: Seq<char>, b: Seq<char>) -> bool
    decreases a.len(),
{
    if a.len() == 0 {
        b.len() > 0
    } else if b.len() == 0 {
        false
    } else if a[0] != b[0] {
        (a[0] as int) < (b[0] as int)
    } else {
        seq_lt(a.drop_first(), b.drop_first())
    }
}

/// Exactly one of `a < b`, `a == b`, `b < a` holds.
pub proof fn lemma_seq_lt_trichotomy(a: Seq<char>, b: Seq<char>)
    ensures
        seq_lt(a, b) || a == b || seq_lt(b, a),
        !(seq_lt(a, b) && seq_lt(b, a)),
        !(seq_lt(a, b) && a == b),
    decreases a.len(),
{
    if a.len() > 0 && b.len() > 0 {
        if a[0] == b[0] {
            lemma_seq_lt_trichotomy(a.drop_first(), b.drop_first());
            if a.drop_first() == b.drop_first() {
                assert(a =~= seq![a[0]] + a.drop_first());
                assert(b =~= seq![b[0]] + b.drop_first());
            }
        } else {
        }
    } else if a.len() == 0 && b.len() == 0 {
        assert(a =~= b);
    }
}

/// The order is transitive.
pub proof fn lemma_seq_lt_transitive(a: Seq<char>, b: Seq<char>, c: Seq<char>)
    requires
        seq_lt(a, b),
        seq_lt(b, c),
    ensures
        seq_lt(a, c),
    decreases a.len(),
{
    if a.len() > 0 && b.len() > 0 && c.len() > 0 {
        if a[0] == b[0] && b[0] == c[0] {
            lemma_seq_lt_transitive(a.drop_first(), b.drop_first(), c.drop_first());
        } else {
        }
    }
}

/// Keys strictly increasing.
pub open spec fn keys_sorted<V>(e: Seq<(String, V)>) -> bool {
    forall|i: int, j: int| 0 <= i < j < e.len() ==> seq_lt(#[trigger] e[i].0@, #[trigger] e[j].0@)
}

/// Strings strictly increasing.
pub open spec fn strs_sorted(e: Seq<String>) -> bool {
    forall|i: int, j: int| 0 <= i < j < e.len() ==> seq_lt(#[trigger] e[i]@, #[trigger] e[j]@)
}

/// The keys of a map.
pub open spec fn key_set<V>(e: Seq<(String, V)>) -> Set<Seq<char>> {
    Set::new(|k: Seq<char>| exists|i: int| 0 <= i < e.len() && e[i].0@ == k)
}

/// The strings of a set.
pub open spec fn str_set(e: Seq<String>) -> Set<Seq<char>> {
    Set::new(|k: Seq<char>| exists|i: int| 0 <= i < e.len() && e[i]@ == k)
}

/// Whether a character sorts before another.
fn char_lt(a: char, b: char) -> (r: bool)
    ensures
        r == ((a as int) < (b as int)),
{
    (a as u32) < (b as u32)
}

/// `a < b` in the order of `String`.
pub fn str_lt(a: &str, b: &str) -> (r: bool)
    ensures
        r == seq_lt(a@, b@),
{
    let n = a.unicode_len();
    let m = b.unicode_len();
    let mut i: usize = 0;
    assert(a@.subrange(0, n as int) =~= a@);
    assert(b@.subrange(0, m as int) =~= b@);
    while i < n && i < m && a.get_char(i) == b.get_char(i)
        invariant
            n == a@.len(),
            m == b@.len(),
            i <= n,
            i <= m,
            seq_lt(a@, b@) == seq_lt(a@.subrange(i as int, n as int), b@.subrange(i as int, m as int)),
        decreases n - i,
    {
        proof {
            let sa = a@.subrange(i as int, n as int);
            let sb = b@.subrange(i as int, m as int);
            assert(sa.drop_first() =~= a@.subrange(i + 1, n as int));
            assert(sb.drop_first() =~= b@.subrange(i + 1, m as int));
        }
        i += 1;
    }
    if i == n {
        return i < m;
    }
    if i == m {
        return false;
    }
    char_lt(a.get_char(i), b.get_char(i))
}

/// Where `k` belongs among sorted keys: the first entry not before it, and
/// whether that entry has the key.
pub fn key_slot<V>(e: &Vec<(String, V)>, k: &str) -> (r: (usize, bool))
    requires
        keys_sorted(e@),
    ensures
        r.0 <= e@.len(),
        forall|j: int| 0 <= j < r.0 ==> seq_lt(#[trigger] e@[j].0@, k@),
        r.1 == (r.0 < e@.len() && e@[r.0 as int].0@ == k@),
        !r.1 && r.0 < e@.len() ==> seq_lt(k@, e@[r.0 as int].0@),
        forall|j: int| r.0 < j < e@.len() ==> seq_lt(k@, #[trigger] e@[j].0@),
        r.1 <==> key_set(e@).contains(k@),
{
    let mut i: usize = 0;
    while i < e.len() && str_lt(e[i].0.as_str(), k)
        invariant
            i <= e@.len(),
            keys_sorted(e@),
            forall|j: int| 0 <= j < i ==> seq_lt(#[trigger] e@[j].0@, k@),
        decreases e@.len() - i,
    {
        i += 1;
    }
    let found = i < e.len() && crate::text::str_eq(e[i].0.as_str(), k);
    proof {
        if i < e@.len() {
            lemma_seq_lt_trichotomy(k@, e@[i as int].0@);
            assert forall|j: int| i < j < e@.len() implies seq_lt(k@, #[trigger] e@[j].0@) by {
                assert(seq_lt(e@[i as int].0@, e@[j].0@));
                if found {
                } else {
                    lemma_seq_lt_transitive(k@, e@[i as int].0@, e@[j].0@);
                }
            }
            if found {
                assert(key_set(e@).contains(k@));
            }
        }
        if !found {
            assert forall|j: int| 0 <= j < e@.len() implies e@[j].0@ != k@ by {
                if j < i {
                    lemma_seq_lt_trichotomy(e@[j].0@, k@);
                } else if j == i {
                    lemma_seq_lt_trichotomy(k@, e@[j].0@);
                } else {
                    lemma_seq_lt_trichotomy(k@, e@[j].0@);
                }
            }
        }
    }
    (i, found)
}

/// Where `k` belongs among sorted strings.
pub fn str_slot(e: &Vec<String>, k: &str) -> (r: (usize, bool))
    requires
        strs_sorted(e@),
    ensures
        r.0 <= e@.len(),
        forall|j: int| 0 <= j < r.0 ==> seq_lt(#[trigger] e@[j]@, k@),
        r.1 == (r.0 < e@.len() && e@[r.0 as int]@ == k@),
        forall|j: int| r.0 < j < e@.len() ==> seq_lt(k@, #[trigger] e@[j]@),
        !r.1 && r.0 < e@.len() ==> seq_lt(k@, e@[r.0 as int]@),
        r.1 <==> str_set(e@).contains(k@),
{
    let mut i: usize = 0;
    while i < e.len() && str_lt(e[i].as_str(), k)
        invariant
            i <= e@.len(),
            strs_sorted(e@),
            forall|j: int| 0 <= j < i ==> seq_lt(#[trigger] e@[j]@, k@),
        decreases e@.len() - i,
    {
        i += 1;
    }
    let found = i < e.len() && crate::text::str_eq(e[i].as_str(), k);
    proof {
        if i < e@.len() {
            lemma_seq_lt_trichotomy(k@, e@[i as int]@);
            assert forall|j: int| i < j < e@.len() implies seq_lt(k@, #[trigger] e@[j]@) by {
                assert(seq_lt(e@[i as int]@, e@[j]@));
                if !found {
                    lemma_seq_lt_transitive(k@, e@[i as int]@, e@[j]@);
                }
            }
            if found {
                assert(str_set(e@).contains(k@));
            }
        }
        if !found {
            assert forall|j: int| 0 <= j < e@.len() implies e@[j]@ != k@ by {
                if j < i {
                    lemma_seq_lt_trichotomy(e@[j]@, k@);
                } else {
                    lemma_seq_lt_trichotomy(k@, e@[j]@);
                }
            }
        }
    }
    (i, found)
}

/// Adds `k` to a sorted set of strings, as `BTreeSet::insert`.
pub fn set_insert(e: &mut Vec<String>, k: &str)
    requires
        strs_sorted(old(e)@),
    ensures
        strs_sorted(final(e)@),
        str_set(final(e)@) == str_set(old(e)@).insert(k@),
{
    let (i, found) = str_slot(e, k);
    if found {
        assert(str_set(old(e)@).insert(k@) =~= str_set(old(e)@));
        return;
    }
    let ghost before = e@;
    e.insert(i, to_owned_string(k));
    proof {
        assert forall|a: int, b: int| 0 <= a < b < e@.len() implies seq_lt(#[trigger] e@[a]@, #[trigger] e@[b]@) by {
            if b < i {
                assert(e@[a] == before[a] && e@[b] == before[b]);
            } else if b == i {
                assert(e@[a] == before[a]);
            } else if a < i {
                assert(e@[a] == before[a] && e@[b] == before[b - 1]);
                if i < before.len() {
                    assert(seq_lt(k@, before[i as int]@));
                }
                lemma_seq_lt_transitive(before[a]@, k@, before[b - 1]@);
            } else if a == i {
                assert(e@[b] == before[b - 1]);
            } else {
                assert(e@[a] == before[a - 1] && e@[b] == before[b - 1]);
            }
        }
        assert forall|x: Seq<char>| #![auto] str_set(e@).contains(x) == str_set(before).insert(k@).contains(x) by {
            if str_set(before).contains(x) {
                let w = choose|w: int| 0 <= w < before.len() && before[w]@ == x;
                if w < i {
                    assert(e@[w] == before[w]);
                } else {
                    assert(e@[w + 1] == before[w]);
                }
            }
            if x == k@ {
                assert(e@[i as int]@ == k@);
            }
            if str_set(e@).contains(x) {
                let w = choose|w: int| 0 <= w < e@.len() && e@[w]@ == x;
                if w < i {
                    assert(e@[w] == before[w]);
                } else if w > i {
                    assert(e@[w] == before[w - 1]);
                }
            }
        }
        assert(str_set(e@) =~= str_set(before).insert(k@));
    }
}

/// The map that sorted entries stand for, each value seen through `f`.
pub open spec fn kv_map<V, W>(e: Seq<(String, V)>, f: spec_fn(V) -> W) -> Map<Seq<char>, W>
    decreases e.len(),
{
    if e.len() == 0 {
        Map::empty()
    } else {
        kv_map(e.drop_last(), f).insert(e.last().0@, f(e.last().1))
    }
}

/// The keys of the map are those of the entries.
pub proof fn lemma_kv_keys<V, W>(e: Seq<(String, V)>, f: spec_fn(V) -> W, q: Seq<char>)
    ensures
        kv_map(e, f).contains_key(q) <==> key_set(e).contains(q),
    decreases e.len(),
{
    if e.len() > 0 {
        lemma_kv_keys(e.drop_last(), f, q);
        if key_set(e.drop_last()).contains(q) {
            let w = choose|w: int| 0 <= w < e.drop_last().len() && e.drop_last()[w].0@ == q;
            assert(e[w].0@ == q);
        }
        if key_set(e).contains(q) {
            let w = choose|w: int| 0 <= w < e.len() && e[w].0@ == q;
            if w < e.len() - 1 {
                assert(e.drop_last()[w].0@ == q);
            }
        }
    }
}

/// Sorted keys are distinct.
pub proof fn lemma_sorted_distinct<V>(e: Seq<(String, V)>, i: int, j: int)
    requires
        keys_sorted(e),
        0 <= i < e.len(),
        0 <= j < e.len(),
        i != j,
    ensures
        e[i].0@ != e[j].0@,
{
    if i < j {
        lemma_seq_lt_trichotomy(e[i].0@, e[j].0@);
    } else {
        lemma_seq_lt_trichotomy(e[j].0@, e[i].0@);
    }
}

/// The map gives each key of sorted entries its entry's value.
pub proof fn lemma_kv_lookup<V, W>(e: Seq<(String, V)>, f: spec_fn(V) -> W, i: int)
    requires
        keys_sorted(e),
        0 <= i < e.len(),
    ensures
        kv_map(e, f).contains_key(e[i].0@),
        kv_map(e, f)[e[i].0@] == f(e[i].1),
    decreases e.len(),
{
    if i < e.len() - 1 {
        let d = e.drop_last();
        assert(keys_sorted(d)) by {
            assert forall|a: int, b: int| 0 <= a < b < d.len() implies seq_lt(#[trigger] d[a].0@, #[trigger] d[b].0@) by {
                assert(d[a] == e[a] && d[b] == e[b]);
            }
        }
        assert(d[i] == e[i]);
        lemma_kv_lookup(d, f, i);
        lemma_sorted_distinct(e, i, e.len() - 1);
    }
}

/// Replacing the value of an entry updates the map at its key.
pub proof fn lemma_kv_update<V, W>(e: Seq<(String, V)>, f: spec_fn(V) -> W, i: int, x: (String, V))
    requires
        keys_sorted(e),
        0 <= i < e.len(),
        x.0@ == e[i].0@,
    ensures
        keys_sorted(e.update(i, x)),
        kv_map(e.update(i, x), f) == kv_map(e, f).insert(x.0@, f(x.1)),
{
    let u = e.update(i, x);
    assert forall|a: int, b: int| 0 <= a < b < u.len() implies seq_lt(#[trigger] u[a].0@, #[trigger] u[b].0@) by {
        assert(seq_lt(e[a].0@, e[b].0@));
    }
    let m = kv_map(e, f).insert(x.0@, f(x.1));
    assert forall|q: Seq<char>| #![auto] kv_map(u, f).contains_key(q) == m.contains_key(q) by {
        lemma_kv_keys(u, f, q);
        lemma_kv_keys(e, f, q);
        if key_set(e).contains(q) {
            let w = choose|w: int| 0 <= w < e.len() && e[w].0@ == q;
            assert(u[w].0@ == q);
        }
        if key_set(u).contains(q) {
            let w = choose|w: int| 0 <= w < u.len() && u[w].0@ == q;
            assert(e[w].0@ == q);
        }
    }
    assert forall|q: Seq<char>| #[trigger] kv_map(u, f).contains_key(q) implies kv_map(u, f)[q] == m[q] by {
        lemma_kv_keys(u, f, q);
        let w = choose|w: int| 0 <= w < u.len() && u[w].0@ == q;
        lemma_kv_lookup(u, f, w);
        if w != i {
            lemma_kv_lookup(e, f, w);
            lemma_sorted_distinct(e, w, i);
        }
    }
    assert(kv_map(u, f) =~= m);
}

/// Inserting an entry with a new key in its place keeps the keys sorted and
/// adds the key to the map.
pub proof fn lemma_kv_insert<V, W>(e: Seq<(String, V)>, f: spec_fn(V) -> W, i: int, x: (String, V))
    requires
        keys_sorted(e),
        0 <= i <= e.len(),
        forall|j: int| 0 <= j < i ==> seq_lt(#[trigger] e[j].0@, x.0@),
        forall|j: int| i <= j < e.len() ==> seq_lt(x.0@, #[trigger] e[j].0@),
    ensures
        keys_sorted(e.insert(i, x)),
        kv_map(e.insert(i, x), f) == kv_map(e, f).insert(x.0@, f(x.1)),
{
    let u = e.insert(i, x);
    assert forall|a: int, b: int| 0 <= a < b < u.len() implies seq_lt(#[trigger] u[a].0@, #[trigger] u[b].0@) by {
        if b < i {
            assert(u[a] == e[a] && u[b] == e[b]);
        } else if b == i {
            assert(u[a] == e[a]);
        } else if a < i {
            assert(u[a] == e[a] && u[b] == e[b - 1]);
            lemma_seq_lt_transitive(e[a].0@, x.0@, e[b - 1].0@);
        } else if a == i {
            assert(u[b] == e[b - 1]);
        } else {
            assert(u[a] == e[a - 1] && u[b] == e[b - 1]);
        }
    }
    let m = kv_map(e, f).insert(x.0@, f(x.1));
    assert forall|q: Seq<char>| #![auto] kv_map(u, f).contains_key(q) == m.contains_key(q) by {
        lemma_kv_keys(u, f, q);
        lemma_kv_keys(e, f, q);
        if key_set(e).contains(q) {
            let w = choose|w: int| 0 <= w < e.len() && e[w].0@ == q;
            if w < i {
                assert(u[w] == e[w]);
            } else {
                assert(u[w + 1] == e[w]);
            }
        }
        if q == x.0@ {
            assert(u[i] == x);
        }
        if key_set(u).contains(q) {
            let w = choose|w: int| 0 <= w < u.len() && u[w].0@ == q;
            if w < i {
                assert(u[w] == e[w]);
            } else if w > i {
                assert(u[w] == e[w - 1]);
            }
        }
    }
    assert forall|q: Seq<char>| #[trigger] kv_map(u, f).contains_key(q) implies kv_map(u, f)[q] == m[q] by {
        lemma_kv_keys(u, f, q);
        let w = choose|w: int| 0 <= w < u.len() && u[w].0@ == q;
        lemma_kv_lookup(u, f, w);
        if w < i {
            assert(u[w] == e[w]);
            lemma_kv_lookup(e, f, w);
            lemma_seq_lt_trichotomy(e[w].0@, x.0@);
        } else if w > i {
            assert(u[w] == e[w - 1]);
            lemma_kv_lookup(e, f, w - 1);
            lemma_seq_lt_trichotomy(x.0@, e[w - 1].0@);
        }
    }
    assert(kv_map(u, f) =~= m);
}

} // verus!
