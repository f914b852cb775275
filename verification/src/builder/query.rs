//! Queries of the command line: finding installed packages and versions,
//! package references in the repository, and deployments in `ostree admin
//! status` output.
use vstd::prelude::*;
use crate::builder::scan::split_whitespace;
use crate::builder::scan::words;
use crate::builder::scan::texts;
use crate::text::split_char;
use crate::text::split_seq;
use crate::text::join_range;
use crate::text::join_seq;
use crate::text::str_eq;
use crate::text::to_owned_string;
use crate::text::push_str;
use crate::text::push_char;
use crate::text::contains;
use crate::text::contains_seq;
use crate::text::occurs_at;
use crate::text::contains_char;
use crate::text::has_char;
use crate::text::starts_with;
use crate::text::ends_with;
use crate::text::is_prefix;
use crate::text::is_suffix;
use crate::text::rfind_char;
use crate::text::find_char;
use crate::text::substring;
use crate::text::lines;
use crate::text::lines_seq;

verus! {

/// The index of the first piece at or after `i` that satisfies `p`, or the
/// number of pieces.
pub open spec fn first_index(parts: Seq<Seq<char>>, p: spec_fn(Seq<char>) -> bool, i: nat) -> nat
    decreases parts.len() - i,
{
    if i >= parts.len() {
        parts.len()
    } else if p(parts[i as int]) {
        i
    } else {
        first_index(parts, p, i + 1)
    }
}

/// The first index at or after `i` is where the search stops.
pub(crate) proof fn lemma_first_index_bounds(parts: Seq<Seq<char>>, p: spec_fn(Seq<char>) -> bool, i: nat)
    requires
        i <= parts.len(),
    ensures
        i <= first_index(parts, p, i) <= parts.len(),
        first_index(parts, p, i) < parts.len() ==> p(parts[first_index(parts, p, i) as int]),
    decreases parts.len() - i,
{
    if i < parts.len() && !p(parts[i as int]) {
        lemma_first_index_bounds(parts, p, i + 1);
    }
}

/// Finds the first piece that satisfies `pred`, which `test` decides.
pub(crate) fn find_piece<F: Fn(&str) -> bool>(parts: &Vec<String>, test: &F, Ghost(pred): Ghost<spec_fn(Seq<char>) -> bool>) -> (r: usize)
    requires
        forall|s: &str| call_requires(*test, (s,)),
        forall|s: &str, b: bool| call_ensures(*test, (s,), b) ==> b == pred(s@),
    ensures
        r == first_index(parts.deep_view(), pred, 0),
{
    let ghost ps = parts.deep_view();
    let mut i: usize = 0;
    while i < parts.len() && !test(parts[i].as_str())
        invariant
            ps == parts.deep_view(),
            i <= parts@.len(),
            first_index(ps, pred, i as nat) == first_index(ps, pred, 0),
            forall|s: &str| call_requires(*test, (s,)),
            forall|s: &str, b: bool| call_ensures(*test, (s,), b) ==> b == pred(s@),
        decreases parts@.len() - i,
    {
        assert(ps[i as int] == parts@[i as int]@);
        i += 1;
    }
    proof {
        if i < parts@.len() {
            assert(ps[i as int] == parts@[i as int]@);
        }
    }
    i
}

/// An end marker of the package part of a commit reference.
pub open spec fn is_end_marker(p: Seq<char>) -> bool {
    p == "outputs"@ || p == "bundles"@ || p == "files"@
}

/// The provider key of a commit: what lies between "pkg" and the first
/// "outputs", "bundles" or "files" component, or the commit itself.
pub open spec fn provider_key_of(commit: Seq<char>) -> Seq<char> {
    let parts = split_seq(commit, '/');
    let start = first_index(parts, |p: Seq<char>| p == "pkg"@, 0);
    let end = first_index(parts, |p: Seq<char>| is_end_marker(p), 0);
    if start < parts.len() && end < parts.len() && end > start + 1 {
        join_seq(parts.subrange((start + 1) as int, end as int), "/"@)
    } else {
        commit
    }
}

/// Extract provider key from commit ref.
/// e.g., "x86_64/pkg/libs/system/glibc/2.39/outputs/lib" -> "libs/system/glibc/2.39"
pub fn extract_provider_key(commit: &str) -> (r: String)
    ensures
        r@ == provider_key_of(commit@),
{
    let parts = split_char(commit, '/');
    let ghost ps = parts.deep_view();
    let is_pkg = |p: &str| -> (b: bool)
        ensures
            b == (p@ == "pkg"@),
        { str_eq(p, "pkg") };
    let is_end = |p: &str| -> (b: bool)
        ensures
            b == is_end_marker(p@),
        { str_eq(p, "outputs") || str_eq(p, "bundles") || str_eq(p, "files") };
    let start = find_piece(&parts, &is_pkg, Ghost(|p: Seq<char>| p == "pkg"@));
    let end = find_piece(&parts, &is_end, Ghost(|p: Seq<char>| is_end_marker(p)));
    if start < parts.len() && end < parts.len() && end > start + 1 {
        join_range(&parts, start + 1, end, "/")
    } else {
        to_owned_string(commit)
    }
}

/// A path that looks like a library file.
pub open spec fn library_path(p: Seq<char>) -> bool {
    contains_seq(p, "/lib/"@) || contains_seq(p, "/lib64/"@) || is_suffix(".so"@, p) || contains_seq(p, ".so."@)
}

/// Check if a path looks like a library file.
pub fn is_library_path(path: &str) -> (r: bool)
    ensures
        r == library_path(path@),
{
    contains(path, "/lib/") || contains(path, "/lib64/") || ends_with(path, ".so") || contains(path, ".so.")
}

/// The id of a deployment, without any "(staged)" marks at its end.
pub open spec fn strip_staged(s: Seq<char>) -> Seq<char>
    decreases s.len(),
{
    if is_suffix("(staged)"@, s) && "(staged)"@.len() > 0 {
        strip_staged(s.subrange(0, s.len() - "(staged)"@.len()))
    } else {
        s
    }
}

/// Removes repeated "(staged)" marks at the end.
fn trim_staged(s: &str) -> (r: String)
    ensures
        r@ == strip_staged(s@),
{
    proof {
        reveal_strlit("(staged)");
    }
    let mut cur = to_owned_string(s);
    while ends_with(cur.as_str(), "(staged)")
        invariant
            "(staged)"@.len() == 8,
            strip_staged(cur@) == strip_staged(s@),
        decreases cur@.len(),
    {
        let n = cur.as_str().unicode_len();
        cur = substring(cur.as_str(), 0, n - 8);
    }
    cur
}

/// The deployment id that a line of `ostree admin status` shows, if any:
/// lines of deployments start with '*' (the current one) or a space, but
/// detail lines are indented by four spaces; the id is the third word of
/// the current deployment's line and the second of the others.
pub open spec fn deployment_id(line: Seq<char>) -> Option<Seq<char>> {
    let current = line.len() > 0 && line[0] == '*';
    let w = words(line);
    if !(current || (line.len() > 0 && line[0] == ' ')) {
        None
    } else if is_prefix("    "@, line) {
        None
    } else if current && w.len() > 2 {
        Some(strip_staged(w[2]))
    } else if !current && w.len() > 1 {
        Some(strip_staged(w[1]))
    } else {
        None
    }
}

/// The deployment ids of status lines, in order.
pub open spec fn deployment_ids(ls: Seq<Seq<char>>) -> Seq<Seq<char>>
    decreases ls.len(),
{
    if ls.len() == 0 {
        Seq::empty()
    } else {
        let prev = deployment_ids(ls.drop_last());
        match deployment_id(ls.last()) {
            Some(id) => prev.push(id),
            None => prev,
        }
    }
}

/// The deployments that `ostree admin status` lists, newest first.
pub fn parse_deployments(status: &str) -> (r: Vec<String>)
    ensures
        texts(r@) == deployment_ids(lines_seq(status@)),
{
    let ls = lines(status);
    let ghost lv = ls.deep_view();
    let mut out: Vec<String> = Vec::new();
    let mut i: usize = 0;
    while i < ls.len()
        invariant
            lv == ls.deep_view(),
            i <= ls@.len(),
            texts(out@) == deployment_ids(lv.subrange(0, i as int)),
        decreases ls@.len() - i,
    {
        proof {
            assert(lv.subrange(0, i + 1).drop_last() =~= lv.subrange(0, i as int));
            assert(lv[i as int] == ls@[i as int]@);
            reveal_strlit("    ");
        }
        let line = ls[i].as_str();
        let n = line.unicode_len();
        let current = n > 0 && line.get_char(0) == '*';
        let spaced = n > 0 && line.get_char(0) == ' ';
        if (current || spaced) && !starts_with(line, "    ") {
            let w = split_whitespace(line);
            let ghost before = out@;
            if current && w.len() > 2 {
                out.push(trim_staged(w[2].as_str()));
                proof {
                    assert(texts(out@) =~= texts(before).push(strip_staged(words(line@)[2])));
                }
            } else if !current && w.len() > 1 {
                out.push(trim_staged(w[1].as_str()));
                proof {
                    assert(texts(out@) =~= texts(before).push(strip_staged(words(line@)[1])));
                }
            }
        }
        i += 1;
    }
    proof {
        assert(lv.subrange(0, lv.len() as int) =~= lv);
    }
    out
}

/// A version key "version/checksum": the part before the first '/' and
/// the rest.
pub open spec fn version_key_parts(key: Seq<char>) -> Option<(Seq<char>, Seq<char>)> {
    if !has_char(key, '/') {
        None
    } else {
        let i = choose|i: int| 0 <= i < key.len() && key[i] == '/' && forall|j: int| 0 <= j < i ==> key[j] != '/';
        Some((key.subrange(0, i), key.subrange(i + 1, key.len() as int)))
    }
}

/// Parse version key "version/checksum" into parts
pub fn parse_version_key(key: &str) -> (r: Result<(String, String), String>)
    ensures
        match version_key_parts(key@) {
            Some((v, c)) => r matches Ok((a, b)) && a@ == v && b@ == c,
            None => r matches Err(m) && m@ == "Invalid version key: "@ + key@,
        },
{
    match find_char(key, '/') {
        Some(i) => {
            proof {
                let c = choose|c: int| 0 <= c < key@.len() && key@[c] == '/' && forall|j: int| 0 <= j < c ==> key@[j] != '/';
                assert(exists|c: int| 0 <= c < key@.len() && key@[c] == '/' && forall|j: int| 0 <= j < c ==> key@[j] != '/') by {
                    assert(key@[i as int] == '/');
                }
                if c < i {
                    assert(key@[c] != '/');
                }
                if c > i {
                    assert(key@[i as int] != '/');
                }
                assert(crate::text::has_char(key@, '/'));
            }
            let n = key.unicode_len();
            Ok((substring(key, 0, i), substring(key, i + 1, n)))
        },
        None => {
            let mut m = to_owned_string("Invalid version key: ");
            push_str(&mut m, key);
            Err(m)
        },
    }
}

/// The version keys that a query matches: those starting with it.
pub open spec fn version_matches(query: Seq<char>, keys: Seq<Seq<char>>) -> Seq<Seq<char>>
    decreases keys.len(),
{
    if keys.len() == 0 {
        Seq::empty()
    } else {
        let prev = version_matches(query, keys.drop_last());
        if is_prefix(query + "/"@, keys.last()) || is_prefix(query, keys.last()) {
            prev.push(keys.last())
        } else {
            prev
        }
    }
}

/// The version that a query names among the installed version keys: the
/// key itself, or the only key that starts with it.
pub open spec fn version_outcome(query: Seq<char>, keys: Seq<Seq<char>>, r: Result<String, String>) -> bool {
    let m = version_matches(query, keys);
    if keys.contains(query) {
        r matches Ok(v) && v@ == query
    } else if m.len() == 0 {
        r matches Err(e) && e@ == "Version '"@ + query + "' not found. Available: "@ + join_seq(keys, ", "@)
    } else if m.len() == 1 {
        r matches Ok(v) && v@ == m[0]
    } else {
        r matches Err(e) && e@ == "Ambiguous version '"@ + query + "'. Matches: "@ + join_seq(m, ", "@)
    }
}

/// Whether a list holds a string.
fn holds(v: &Vec<String>, s: &str) -> (r: bool)
    ensures
        r == v.deep_view().contains(s@),
{
    let mut i: usize = 0;
    while i < v.len()
        invariant
            i <= v@.len(),
            forall|j: int| 0 <= j < i ==> v@[j]@ != s@,
        decreases v@.len() - i,
    {
        if str_eq(v[i].as_str(), s) {
            assert(v.deep_view()[i as int] == s@);
            return true;
        }
        i += 1;
    }
    assert forall|j: int| 0 <= j < v.deep_view().len() implies v.deep_view()[j] != s@ by {
        assert(v.deep_view()[j] == v@[j]@);
    }
    false
}

/// Find version key from partial version string
pub fn find_version(query: &str, version_keys: &Vec<String>) -> (r: Result<String, String>)
    ensures
        version_outcome(query@, version_keys.deep_view(), r),
{
    if holds(version_keys, query) {
        return Ok(to_owned_string(query));
    }
    let mut with_slash = to_owned_string(query);
    push_char(&mut with_slash, '/');
    proof {
        reveal_strlit("/");
        assert(with_slash@ =~= query@ + "/"@);
    }
    let ghost kv = version_keys.deep_view();
    let mut matches: Vec<String> = Vec::new();
    let mut i: usize = 0;
    while i < version_keys.len()
        invariant
            kv == version_keys.deep_view(),
            i <= kv.len(),
            with_slash@ == query@ + "/"@,
            matches.deep_view() == version_matches(query@, kv.subrange(0, i as int)),
        decreases kv.len() - i,
    {
        proof {
            assert(kv.subrange(0, i + 1).drop_last() =~= kv.subrange(0, i as int));
            assert(kv[i as int] == version_keys@[i as int]@);
        }
        let k = version_keys[i].as_str();
        if starts_with(k, with_slash.as_str()) || starts_with(k, query) {
            let ghost before = matches.deep_view();
            matches.push(to_owned_string(k));
            proof {
                assert(matches.deep_view() =~= before.push(k@));
            }
        }
        i += 1;
    }
    proof {
        assert(kv.subrange(0, kv.len() as int) =~= kv);
    }
    if matches.len() == 0 {
        let mut e = to_owned_string("Version '");
        push_str(&mut e, query);
        push_str(&mut e, "' not found. Available: ");
        let all = join_range(version_keys, 0, version_keys.len(), ", ");
        push_str(&mut e, all.as_str());
        proof {
            assert(kv.subrange(0, kv.len() as int) =~= kv);
        }
        Err(e)
    } else if matches.len() == 1 {
        Ok(to_owned_string(matches[0].as_str()))
    } else {
        let mut e = to_owned_string("Ambiguous version '");
        push_str(&mut e, query);
        push_str(&mut e, "'. Matches: ");
        let all = join_range(&matches, 0, matches.len(), ", ");
        push_str(&mut e, all.as_str());
        proof {
            assert(matches.deep_view().subrange(0, matches@.len() as int) =~= matches.deep_view());
        }
        Err(e)
    }
}

/// The position of the last '/' of `k`.
pub open spec fn last_slash(k: Seq<char>) -> int {
    choose|i: int| 0 <= i < k.len() && k[i] == '/' && forall|j: int| i < j < k.len() ==> k[j] != '/'
}

/// `k` split at its last '/': what comes before and what comes after.
pub open spec fn split_last_slash(k: Seq<char>) -> (Seq<char>, Seq<char>) {
    (k.subrange(0, last_slash(k)), k.subrange(last_slash(k) + 1, k.len() as int))
}

/// Splits at the last '/'.
fn rsplit_slash(k: &str) -> (r: (String, String))
    requires
        has_char(k@, '/'),
    ensures
        r.0@ == split_last_slash(k@).0,
        r.1@ == split_last_slash(k@).1,
{
    let n = k.unicode_len();
    let i = match rfind_char(k, '/') {
        Some(i) => i,
        None => {
            assert(false);
            0
        },
    };
    proof {
        assert(exists|c: int| 0 <= c < k@.len() && k@[c] == '/' && forall|j: int| c < j < k@.len() ==> k@[j] != '/') by {
            assert(k@[i as int] == '/');
        }
        let c = last_slash(k@);
        if c < i {
            assert(k@[i as int] != '/');
        }
        if c > i {
            assert(k@[c] != '/');
        }
    }
    (substring(k, 0, i), substring(k, i + 1, n))
}

/// The installed packages that a bare slug names: those whose key ends in
/// "/{slug}" or equals it.
pub open spec fn package_matches(query: Seq<char>, keys: Seq<Seq<char>>) -> Seq<Seq<char>>
    decreases keys.len(),
{
    if keys.len() == 0 {
        Seq::empty()
    } else {
        let prev = package_matches(query, keys.drop_last());
        if is_suffix("/"@ + query, keys.last()) || keys.last() == query {
            prev.push(keys.last())
        } else {
            prev
        }
    }
}

/// The installed key `key` is named by the bare slug `slug`: it is the slug
/// itself, or a '/' followed by the slug ends it.
pub open spec fn names_slug(slug: Seq<char>, key: Seq<char>) -> bool {
    ||| key == slug
    ||| key.len() > slug.len() && key[key.len() - slug.len() - 1] == '/' && key.subrange(
        key.len() - slug.len(),
        key.len() as int,
    ) == slug
}

/// The installed keys, in their order, that the bare slug `slug` names.
pub open spec fn named_packages(slug: Seq<char>, keys: Seq<Seq<char>>) -> Seq<Seq<char>> {
    keys.filter(|k: Seq<char>| names_slug(slug, k))
}

/// Law: the packages that a bare slug matches are, in their order, exactly
/// the installed keys that it names: the slug itself, or a key whose last
/// '/'-separated component it is.
pub proof fn lemma_package_matches_named(slug: Seq<char>, keys: Seq<Seq<char>>)
    ensures
        package_matches(slug, keys) == named_packages(slug, keys),
    decreases keys.len(),
{
    reveal(Seq::filter);
    if keys.len() > 0 {
        lemma_package_matches_named(slug, keys.drop_last());
        let k = keys.last();
        let p = "/"@ + slug;
        assert(p.len() == slug.len() + 1 && p[0] == '/') by {
            reveal_strlit("/");
        }
        if is_suffix(p, k) {
            let t = k.subrange(k.len() - p.len(), k.len() as int);
            assert(t == p);
            assert(k[k.len() - slug.len() - 1] == t[0]);
            assert(k.subrange(k.len() - slug.len(), k.len() as int) =~= slug) by {
                assert forall|j: int| 0 <= j < slug.len() implies k.subrange(k.len() - slug.len(), k.len() as int)[j]
                    == slug[j] by {
                    assert(t[j + 1] == p[j + 1]);
                }
            }
        }
        if k.len() > slug.len() && k[k.len() - slug.len() - 1] == '/' && k.subrange(
            k.len() - slug.len(),
            k.len() as int,
        ) == slug {
            assert(k.subrange(k.len() - p.len(), k.len() as int) =~= p) by {
                assert forall|j: int| 1 <= j < p.len() implies k.subrange(k.len() - p.len(), k.len() as int)[j]
                    == p[j] by {
                    assert(k.subrange(k.len() - slug.len(), k.len() as int)[j - 1] == slug[j - 1]);
                }
            }
        }
        assert((is_suffix(p, k) || k == slug) == names_slug(slug, k));
    }
}

/// What a package query gives: a query with a '/' splits at its last one;
/// a bare slug must name exactly one installed package, whose key splits
/// into namespace and slug.
pub open spec fn query_outcome(query: Seq<char>, keys: Seq<Seq<char>>, r: Result<(String, String), String>) -> bool {
    let m = package_matches(query, keys);
    if has_char(query, '/') {
        r matches Ok((a, b)) && (a@, b@) == split_last_slash(query)
    } else if m.len() == 0 {
        r matches Err(e) && e@ == "No installed package matching '"@ + query + "'"@
    } else if m.len() == 1 {
        r matches Ok((a, b)) && (a@, b@) == split_last_slash(m[0])
    } else {
        r matches Err(e) && e@ == "Ambiguous package '"@ + query + "'. Matches: "@ + join_seq(m, ", "@)
    }
}

/// Parse package query to find namespace and slug among the keys of the
/// installed packages.
pub fn parse_package_query(query: &str, package_keys: &Vec<String>) -> (r: Result<(String, String), String>)
    requires
        has_char(query@, '/') || package_matches(query@, package_keys.deep_view()).len() != 1 || has_char(
            package_matches(query@, package_keys.deep_view())[0],
            '/',
        ),
    ensures
        query_outcome(query@, package_keys.deep_view(), r),
        !has_char(query@, '/') ==> (r is Ok <==> named_packages(query@, package_keys.deep_view()).len() == 1),
        !has_char(query@, '/') ==> (r matches Ok((a, b)) ==> (a@, b@) == split_last_slash(
            named_packages(query@, package_keys.deep_view())[0],
        )),
{
    if contains_char(query, '/') {
        let (a, b) = rsplit_slash(query);
        return Ok((a, b));
    }
    proof {
        lemma_package_matches_named(query@, package_keys.deep_view());
    }
    let mut suffix = to_owned_string("/");
    push_str(&mut suffix, query);
    let ghost kv = package_keys.deep_view();
    let mut matches: Vec<String> = Vec::new();
    let mut i: usize = 0;
    while i < package_keys.len()
        invariant
            kv == package_keys.deep_view(),
            i <= kv.len(),
            suffix@ == "/"@ + query@,
            matches.deep_view() == package_matches(query@, kv.subrange(0, i as int)),
        decreases kv.len() - i,
    {
        proof {
            assert(kv.subrange(0, i + 1).drop_last() =~= kv.subrange(0, i as int));
            assert(kv[i as int] == package_keys@[i as int]@);
        }
        let k = package_keys[i].as_str();
        if ends_with(k, suffix.as_str()) || str_eq(k, query) {
            let ghost before = matches.deep_view();
            matches.push(to_owned_string(k));
            proof {
                assert(matches.deep_view() =~= before.push(k@));
            }
        }
        i += 1;
    }
    proof {
        assert(kv.subrange(0, kv.len() as int) =~= kv);
    }
    if matches.len() == 0 {
        let mut e = to_owned_string("No installed package matching '");
        push_str(&mut e, query);
        push_str(&mut e, "'");
        Err(e)
    } else if matches.len() == 1 {
        proof {
            assert(matches.deep_view()[0] == matches@[0]@);
        }
        let (a, b) = rsplit_slash(matches[0].as_str());
        Ok((a, b))
    } else {
        let mut e = to_owned_string("Ambiguous package '");
        push_str(&mut e, query);
        push_str(&mut e, "'. Matches: ");
        let all = join_range(&matches, 0, matches.len(), ", ");
        push_str(&mut e, all.as_str());
        proof {
            assert(matches.deep_view().subrange(0, matches@.len() as int) =~= matches.deep_view());
        }
        Err(e)
    }
}

/// A component that ends the package part of a package reference.
pub open spec fn is_ref_boundary(p: Seq<char>) -> bool {
    p == "bundles"@ || p == "outputs"@
}

/// The namespace, slug and version of a package reference
/// `arch/pkg/{namespace}/{slug}/{version}/{bundles|outputs}/...`.
pub open spec fn package_ref_parts(r: Seq<char>) -> Option<(Seq<char>, Seq<char>, Seq<char>)> {
    let parts = split_seq(r, '/');
    let b = first_index(parts, |p: Seq<char>| is_ref_boundary(p), 0);
    if b >= parts.len() || b < 4 {
        None
    } else {
        Some((join_seq(parts.subrange(2, b - 2), "/"@), parts[b - 2], parts[b - 1]))
    }
}

/// The namespace, slug and version of a package reference.
pub fn parse_package_ref(ref_path: &str) -> (r: Result<(String, String, String), String>)
    ensures
        match package_ref_parts(ref_path@) {
            Some((ns, slug, version)) => r matches Ok((a, b, c)) && a@ == ns && b@ == slug && c@ == version,
            None => r matches Err(e) && (e@ == "Invalid package ref"@ || e@ == "Invalid package ref format"@),
        },
        r matches Err(e) ==> (e@ == "Invalid package ref"@ <==> first_index(split_seq(ref_path@, '/'), |p: Seq<char>| is_ref_boundary(p), 0) >= split_seq(ref_path@, '/').len()),
{
    let parts = split_char(ref_path, '/');
    let ghost ps = parts.deep_view();
    let is_b = |p: &str| -> (b: bool)
        ensures
            b == is_ref_boundary(p@),
        { str_eq(p, "bundles") || str_eq(p, "outputs") };
    let b = find_piece(&parts, &is_b, Ghost(|p: Seq<char>| is_ref_boundary(p)));
    proof {
        reveal_strlit("Invalid package ref");
        reveal_strlit("Invalid package ref format");
    }
    if b >= parts.len() {
        return Err(to_owned_string("Invalid package ref"));
    }
    if b < 4 {
        return Err(to_owned_string("Invalid package ref format"));
    }
    proof {
        assert(ps[b - 2] == parts@[b - 2]@);
        assert(ps[b - 1] == parts@[b - 1]@);
    }
    Ok((join_range(&parts, 2, b - 2, "/"), to_owned_string(parts[b - 2].as_str()), to_owned_string(parts[b - 1].as_str())))
}

/// The order in which references are preferred: full bundles, other
/// bundles, binary outputs.
pub open spec fn ref_priority(i: int) -> Seq<char> {
    if i == 0 {
        "/bundles/full"@
    } else if i == 1 {
        "/bundles/"@
    } else {
        "/outputs/bin"@
    }
}

/// Whether a reference is a package of the query (and version): an
/// `x86_64/pkg/...` reference whose slug is the query, or, for a query with
/// a '/', whose `{namespace}/{slug}` contains it.
pub open spec fn ref_selects(r: Seq<char>, query: Seq<char>, version: Option<Seq<char>>) -> bool {
    let parts = split_seq(r, '/');
    let b = first_index(parts, |p: Seq<char>| is_ref_boundary(p), 0);
    &&& parts.len() >= 6
    &&& parts[0] == "x86_64"@
    &&& parts[1] == "pkg"@
    &&& b < parts.len()
    &&& b >= 4
    &&& match version {
        Some(v) => parts[b - 1] == v,
        None => true,
    }
    &&& if !has_char(query, '/') {
        parts[b - 2] == query
    } else {
        let full = join_seq(parts.subrange(2, b - 2), "/"@) + "/"@ + parts[b - 2];
        contains_seq(full, query) || is_suffix(query, full)
    }
}

/// Reference `i` is a candidate in pass `p`.
pub open spec fn ref_candidate(refs: Seq<Seq<char>>, i: int, p: int, query: Seq<char>, version: Option<Seq<char>>) -> bool {
    contains_seq(refs[i], ref_priority(p)) && ref_selects(refs[i], query, version)
}

/// Checks one reference against the query.
fn ref_matches(r: &str, query: &str, version: Option<&str>) -> (b: bool)
    ensures
        b == ref_selects(r@, query@, opt_str(version)),
{
    let parts = split_char(r, '/');
    let ghost ps = parts.deep_view();
    if parts.len() < 6 || !str_eq(parts[0].as_str(), "x86_64") || !str_eq(parts[1].as_str(), "pkg") {
        proof {
            if parts@.len() >= 6 {
                assert(ps[0] == parts@[0]@);
                assert(ps[1] == parts@[1]@);
            }
        }
        return false;
    }
    proof {
        assert(ps[0] == parts@[0]@);
        assert(ps[1] == parts@[1]@);
    }
    let is_b = |p: &str| -> (b: bool)
        ensures
            b == is_ref_boundary(p@),
        { str_eq(p, "bundles") || str_eq(p, "outputs") };
    let b = find_piece(&parts, &is_b, Ghost(|p: Seq<char>| is_ref_boundary(p)));
    if b >= parts.len() || b < 4 {
        return false;
    }
    proof {
        assert(ps[b - 2] == parts@[b - 2]@);
        assert(ps[b - 1] == parts@[b - 1]@);
    }
    match version {
        Some(v) => {
            if !str_eq(parts[b - 1].as_str(), v) {
                return false;
            }
        },
        None => {},
    }
    if !contains_char(query, '/') {
        str_eq(parts[b - 2].as_str(), query)
    } else {
        let mut full = join_range(&parts, 2, b - 2, "/");
        push_char(&mut full, '/');
        push_str(&mut full, parts[b - 2].as_str());
        proof {
            reveal_strlit("/");
            assert(full@ =~= join_seq(ps.subrange(2, b - 2), "/"@) + "/"@ + ps[b - 2]);
        }
        contains(full.as_str(), query) || ends_with(full.as_str(), query)
    }
}

/// The text of an optional string slice.
pub open spec fn opt_str(v: Option<&str>) -> Option<Seq<char>> {
    match v {
        Some(s) => Some(s@),
        None => None,
    }
}

/// A text that holds "/bundles/full" holds "/bundles/".
proof fn lemma_full_bundle_is_bundle(s: Seq<char>)
    requires
        contains_seq(s, "/bundles/full"@),
    ensures
        contains_seq(s, "/bundles/"@),
{
    reveal_strlit("/bundles/full");
    reveal_strlit("/bundles/");
    let i = choose|i: int| occurs_at(s, "/bundles/full"@, i);
    assert(s.subrange(i, i + 9) =~= "/bundles/"@) by {
        assert forall|j: int| 0 <= j < 9 implies s.subrange(i, i + 9)[j] == "/bundles/"@[j] by {
            assert(s.subrange(i, i + 13)[j] == "/bundles/full"@[j]);
        }
    }
    assert(occurs_at(s, "/bundles/"@, i));
}

/// The reference of a package: the first candidate of the earliest pass.
pub fn find_package_ref(all_refs: &Vec<String>, query: &str, version: Option<&str>) -> (r: Result<String, String>)
    ensures
        match r {
            Ok(found) => exists|p: int, i: int|
                0 <= p < 3 && 0 <= i < all_refs@.len() && found@ == all_refs@[i]@ && ref_candidate(
                    all_refs.deep_view(),
                    i,
                    p,
                    query@,
                    opt_str(version),
                ) && (forall|q: int, j: int|
                    0 <= q < 3 && 0 <= j < all_refs@.len() && (q < p || (q == p && j < i)) ==> !#[trigger] ref_candidate(
                        all_refs.deep_view(),
                        j,
                        q,
                        query@,
                        opt_str(version),
                    )),
            Err(e) => e@ == "No package found for '"@ + query@ + "'. Build it first."@ && forall|q: int, j: int|
                0 <= q < 3 && 0 <= j < all_refs@.len() ==> !#[trigger] ref_candidate(
                    all_refs.deep_view(),
                    j,
                    q,
                    query@,
                    opt_str(version),
                ),
        },
        forall|j: int|
            0 <= j < all_refs@.len() && #[trigger] ref_selects(all_refs.deep_view()[j], query@, opt_str(version))
                && contains_seq(all_refs.deep_view()[j], "/bundles/full"@) ==> (r matches Ok(f) && contains_seq(
                f@,
                "/bundles/full"@,
            )),
        forall|j: int|
            0 <= j < all_refs@.len() && #[trigger] ref_selects(all_refs.deep_view()[j], query@, opt_str(version))
                && contains_seq(all_refs.deep_view()[j], "/bundles/"@) ==> (r matches Ok(f) && contains_seq(
                f@,
                "/bundles/"@,
            )),
        forall|j: int|
            0 <= j < all_refs@.len() && #[trigger] ref_selects(all_refs.deep_view()[j], query@, opt_str(version))
                && contains_seq(all_refs.deep_view()[j], "/outputs/bin"@) ==> r is Ok,
{
    let ghost rv = all_refs.deep_view();
    let ghost ver = opt_str(version);
    let mut p: usize = 0;
    while p < 3
        invariant
            rv == all_refs.deep_view(),
            p <= 3,
            ver == opt_str(version),
            forall|q: int, j: int| 0 <= q < p && 0 <= j < rv.len() ==> !#[trigger] ref_candidate(rv, j, q, query@, ver),
        decreases 3 - p,
    {
        let pr: &str = if p == 0 {
            "/bundles/full"
        } else if p == 1 {
            "/bundles/"
        } else {
            "/outputs/bin"
        };
        assert(pr@ == ref_priority(p as int));
        let mut i: usize = 0;
        while i < all_refs.len()
            invariant
                rv == all_refs.deep_view(),
                p < 3,
                i <= rv.len(),
                pr@ == ref_priority(p as int),
                ver == opt_str(version),
                forall|q: int, j: int| 0 <= q < p && 0 <= j < rv.len() ==> !#[trigger] ref_candidate(rv, j, q, query@, ver),
                forall|j: int| 0 <= j < i ==> !#[trigger] ref_candidate(rv, j, p as int, query@, ver),
            decreases rv.len() - i,
        {
            let r = all_refs[i].as_str();
            assert(rv[i as int] == r@);
            if contains(r, pr) && ref_matches(r, query, version) {
                proof {
                    assert(ref_candidate(rv, i as int, p as int, query@, ver));
                    assert forall|q: int, j: int|
                        0 <= q < 3 && 0 <= j < rv.len() && (q < p || (q == p && j < i)) implies !#[trigger] ref_candidate(rv, j, q, query@, ver) by {}
                    assert forall|j: int|
                        0 <= j < rv.len() && #[trigger] ref_selects(rv[j], query@, ver) && contains_seq(
                            rv[j],
                            "/bundles/full"@,
                        ) implies contains_seq(r@, "/bundles/full"@) by {
                        assert(ref_candidate(rv, j, 0, query@, ver));
                    }
                    assert forall|j: int|
                        0 <= j < rv.len() && #[trigger] ref_selects(rv[j], query@, ver) && contains_seq(
                            rv[j],
                            "/bundles/"@,
                        ) implies contains_seq(r@, "/bundles/"@) by {
                        assert(ref_candidate(rv, j, 1, query@, ver));
                        if p == 0 {
                            lemma_full_bundle_is_bundle(r@);
                        }
                    }
                }
                return Ok(to_owned_string(r));
            }
            i += 1;
        }
        p += 1;
    }
    proof {
        assert forall|j: int| 0 <= j < rv.len() implies !#[trigger] ref_selects(rv[j], query@, ver) || (!contains_seq(
            rv[j],
            "/bundles/full"@,
        ) && !contains_seq(rv[j], "/bundles/"@) && !contains_seq(rv[j], "/outputs/bin"@)) by {
            assert(!ref_candidate(rv, j, 0, query@, ver));
            assert(!ref_candidate(rv, j, 1, query@, ver));
            assert(!ref_candidate(rv, j, 2, query@, ver));
        }
    }
    let mut e = to_owned_string("No package found for '");
    push_str(&mut e, query);
    push_str(&mut e, "'. Build it first.");
    Err(e)
}

} // verus!
