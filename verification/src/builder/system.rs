//! System assembly: the environment of a system build and the packages a
//! system pulls in.
use vstd::prelude::*;
use crate::builder::manifest::SystemManifest;
use crate::builder::manifest::SystemPackage;
use crate::builder::manifest::Dependency;
use crate::text::str_eq;
use crate::text::to_owned_string;

verus! {

/// An environment: pairs of variable and value, each variable once.
pub open spec fn env_map(v: Seq<(String, String)>) -> Map<Seq<char>, Seq<char>>
    decreases v.len(),
{
    if v.len() == 0 {
        Map::empty()
    } else {
        env_map(v.drop_last()).insert(v.last().0@, v.last().1@)
    }
}

/// Each variable occurs once.
pub open spec fn distinct_keys(v: Seq<(String, String)>) -> bool {
    forall|i: int, j: int| 0 <= i < j < v.len() ==> v[i].0@ != v[j].0@
}

/// The map of a list with distinct variables gives each variable its value.
proof fn lemma_env_map_lookup(v: Seq<(String, String)>, i: int)
    requires
        distinct_keys(v),
        0 <= i < v.len(),
    ensures
        env_map(v).contains_key(v[i].0@),
        env_map(v)[v[i].0@] == v[i].1@,
    decreases v.len(),
{
    if i < v.len() - 1 {
        lemma_env_map_lookup(v.drop_last(), i);
    }
}

/// The variables of the map are those of the list.
proof fn lemma_env_map_keys(v: Seq<(String, String)>, k: Seq<char>)
    ensures
        env_map(v).contains_key(k) <==> exists|i: int| 0 <= i < v.len() && v[i].0@ == k,
    decreases v.len(),
{
    if v.len() > 0 {
        lemma_env_map_keys(v.drop_last(), k);
        if exists|i: int| 0 <= i < v.len() - 1 && v.drop_last()[i].0@ == k {
            let i = choose|i: int| 0 <= i < v.len() - 1 && v.drop_last()[i].0@ == k;
            assert(v[i].0@ == k);
        }
        if exists|i: int| 0 <= i < v.len() && v[i].0@ == k {
            let i = choose|i: int| 0 <= i < v.len() && v[i].0@ == k;
            if i < v.len() - 1 {
                assert(v.drop_last()[i].0@ == k);
            }
        }
    }
}

/// Sets `key` to `value`, replacing an earlier value, as `HashMap::insert`.
pub fn env_insert(env: &mut Vec<(String, String)>, key: &str, value: &str)
    requires
        distinct_keys(old(env)@),
    ensures
        distinct_keys(final(env)@),
        env_map(final(env)@) == env_map(old(env)@).insert(key@, value@),
{
    let mut i: usize = 0;
    while i < env.len()
        invariant
            i <= env@.len(),
            env@ == old(env)@,
            distinct_keys(env@),
            forall|j: int| 0 <= j < i ==> env@[j].0@ != key@,
        decreases env@.len() - i,
    {
        if str_eq(env[i].0.as_str(), key) {
            let ghost before = env@;
            let entry = (to_owned_string(key), to_owned_string(value));
            env.set(i, entry);
            proof {
                assert forall|a: int, b: int| 0 <= a < b < env@.len() implies env@[a].0@ != env@[b].0@ by {
                    assert(before[a].0@ != before[b].0@);
                }
                assert forall|k: Seq<char>| #![auto] env_map(env@).contains_key(k) == env_map(before).insert(key@, value@).contains_key(k)
                by {
                    lemma_env_map_keys(env@, k);
                    lemma_env_map_keys(before, k);
                    if exists|q: int| 0 <= q < before.len() && before[q].0@ == k {
                        let q = choose|q: int| 0 <= q < before.len() && before[q].0@ == k;
                        assert(env@[q].0@ == k || q == i);
                    }
                    if exists|q: int| 0 <= q < env@.len() && env@[q].0@ == k {
                        let q = choose|q: int| 0 <= q < env@.len() && env@[q].0@ == k;
                        assert(before[q].0@ == k || q == i);
                    }
                }
                assert forall|k: Seq<char>| #[trigger] env_map(env@).contains_key(k) implies env_map(env@)[k] == env_map(before).insert(key@, value@)[k]
                by {
                    lemma_env_map_keys(env@, k);
                    let q = choose|q: int| 0 <= q < env@.len() && env@[q].0@ == k;
                    lemma_env_map_lookup(env@, q);
                    if q != i {
                        lemma_env_map_lookup(before, q);
                    }
                }
                assert(env_map(env@) =~= env_map(before).insert(key@, value@));
            }
            return;
        }
        i += 1;
    }
    let ghost before = env@;
    env.push((to_owned_string(key), to_owned_string(value)));
    proof {
        assert(env@.drop_last() =~= before);
        assert(env@.last().0@ == key@ && env@.last().1@ == value@);
        assert forall|a: int, b: int| 0 <= a < b < env@.len() implies env@[a].0@ != env@[b].0@ by {
            if b < before.len() {
                assert(before[a].0@ != before[b].0@);
            }
        }
    }
}

/// The variables of a system build that follow from its manifest, after
/// the variables of its inputs.
pub open spec fn system_env(m: SystemManifest, inputs: Map<Seq<char>, Seq<char>>) -> Map<Seq<char>, Seq<char>> {
    let e = inputs.insert("SYSTEM_NAME"@, m.system.name@).insert("SYSTEM_SLUG"@, m.system.slug@).insert(
        "SYSTEM_VERSION"@,
        m.system.version@,
    ).insert("TARGET_DIR"@, "/target"@).insert("SYSTEM_TARGET"@, "/target"@);
    let e = match m.system.architecture {
        Some(a) => e.insert("SYSTEM_ARCH"@, a@),
        None => e,
    };
    let e = match m.system.boot_method {
        Some(b) => e.insert("SYSTEM_BOOT_METHOD"@, b@),
        None => e,
    };
    match m.system.description {
        Some(d) => e.insert("SYSTEM_DESCRIPTION"@, d@),
        None => e,
    }
}

/// The value of `key` in a list with distinct variables.
pub fn env_get(env: &Vec<(String, String)>, key: &str) -> (r: Option<String>)
    requires
        distinct_keys(env@),
    ensures
        match r {
            Some(v) => env_map(env@).contains_key(key@) && env_map(env@)[key@] == v@,
            None => !env_map(env@).contains_key(key@),
        },
{
    let mut i: usize = 0;
    while i < env.len()
        invariant
            i <= env@.len(),
            distinct_keys(env@),
            forall|j: int| 0 <= j < i ==> env@[j].0@ != key@,
        decreases env@.len() - i,
    {
        if str_eq(env[i].0.as_str(), key) {
            proof {
                lemma_env_map_lookup(env@, i as int);
            }
            return Some(to_owned_string(env[i].1.as_str()));
        }
        i += 1;
    }
    proof {
        lemma_env_map_keys(env@, key@);
    }
    None
}

/// The environment of a system build: the variables of its inputs (which
/// the caller fetched) and those of the system manifest.
pub fn build_system_env_vars(manifest: &SystemManifest, input_env_vars: Vec<(String, String)>) -> (r:
    Vec<(String, String)>)
    requires
        distinct_keys(input_env_vars@),
    ensures
        distinct_keys(r@),
        env_map(r@) == system_env(*manifest, env_map(input_env_vars@)),
{
    let mut env_vars = input_env_vars;
    env_insert(&mut env_vars, "SYSTEM_NAME", manifest.system.name.as_str());
    env_insert(&mut env_vars, "SYSTEM_SLUG", manifest.system.slug.as_str());
    env_insert(&mut env_vars, "SYSTEM_VERSION", manifest.system.version.as_str());
    env_insert(&mut env_vars, "TARGET_DIR", "/target");
    env_insert(&mut env_vars, "SYSTEM_TARGET", "/target");
    match &manifest.system.architecture {
        Some(arch) => env_insert(&mut env_vars, "SYSTEM_ARCH", arch.as_str()),
        None => {},
    }
    match &manifest.system.boot_method {
        Some(boot) => env_insert(&mut env_vars, "SYSTEM_BOOT_METHOD", boot.as_str()),
        None => {},
    }
    match &manifest.system.description {
        Some(desc) => env_insert(&mut env_vars, "SYSTEM_DESCRIPTION", desc.as_str()),
        None => {},
    }
    env_vars
}

/// Copies an optional string.
fn clone_opt(s: &Option<String>) -> (r: Option<String>)
    ensures
        match *s {
            Some(x) => r matches Some(y) && y@ == x@,
            None => r is None,
        },
{
    match s {
        Some(x) => Some(to_owned_string(x.as_str())),
        None => None,
    }
}

/// The dependencies of a system: one per package, with its commit and
/// name and no manifest reference.
pub fn dependencies_from_system_packages(packages: &[SystemPackage]) -> (r: Vec<Dependency>)
    ensures
        r@.len() == packages@.len(),
        forall|i: int|
            0 <= i < r@.len() ==> (#[trigger] r@[i]).commit@ == packages@[i].commit@
                && r@[i].manifest_ref is None && match packages@[i].name {
                Some(n) => r@[i].name matches Some(m) && m@ == n@,
                None => r@[i].name is None,
            },
{
    let mut out: Vec<Dependency> = Vec::new();
    let mut i: usize = 0;
    while i < packages.len()
        invariant
            i <= packages@.len(),
            out@.len() == i,
            forall|j: int|
                0 <= j < i ==> (#[trigger] out@[j]).commit@ == packages@[j].commit@
                    && out@[j].manifest_ref is None && match packages@[j].name {
                    Some(n) => out@[j].name matches Some(m) && m@ == n@,
                    None => out@[j].name is None,
                },
        decreases packages@.len() - i,
    {
        let pkg = &packages[i];
        out.push(
            Dependency {
                commit: to_owned_string(pkg.commit.as_str()),
                name: clone_opt(&pkg.name),
                manifest_ref: None,
            },
        );
        i += 1;
    }
    out
}

} // verus!
