//! OSTree naming: commit references, object paths, ref checksums and the
//! metadata that the builder attaches to the branches it commits.
use vstd::prelude::*;
use crate::builder::manifest::Manifest;
use crate::builder::manifest::OutputSpec;
use crate::builder::manifest::Bundle;
use crate::builder::manifest::SystemManifest;
use crate::text::split_char;
use crate::text::split_seq;
use crate::text::join_range;
use crate::text::join_seq;
use crate::text::str_eq;
use crate::text::to_owned_string;
use crate::text::push_str;
use crate::text::push_char;
use crate::text::trim;
use crate::text::trim_seq;
use crate::text::lines;
use crate::text::lines_seq;
use crate::text::starts_with;
use crate::text::is_prefix;
use crate::text::substring;
use vstd::string::StringSliceAdditionalSpecFns;
use crate::luks2::crypto::sha256;
use crate::luks2::crypto::sha256_digest;
use crate::builder::ostree_native::hex_encode;
use crate::builder::ostree_native::hex_text;
use crate::builder::ostree_native::hex_digit;

verus! {

/// A component that ends the package part of a commit reference.
pub open spec fn is_marker(p: Seq<char>) -> bool {
    p == "outputs"@ || p == "bundles"@
}

/// The index of the first marker at or after `i`, or the length.
pub open spec fn first_marker_from(parts: Seq<Seq<char>>, i: nat) -> nat
    decreases parts.len() - i,
{
    if i >= parts.len() {
        parts.len()
    } else if is_marker(parts[i as int]) {
        i
    } else {
        first_marker_from(parts, i + 1)
    }
}

/// The slug, version and namespace of a commit reference
/// `arch/{namespace}/{slug}/{version}/...`: the two components before the
/// first "outputs" or "bundles" (or the last two), and those between the
/// architecture and the slug.
pub open spec fn commit_ref_parts(c: Seq<char>) -> Option<(Seq<char>, Seq<char>, Seq<char>)> {
    let parts = split_seq(c, '/');
    if parts.len() < 4 {
        None
    } else {
        let b = first_marker_from(parts, 0);
        if b < 3 {
            None
        } else {
            Some((parts[b - 2], parts[b - 1], join_seq(parts.subrange(1, b - 2), "/"@)))
        }
    }
}

/// Parse an OSTree commit reference into (slug, version, namespace)
pub fn parse_commit_ref(commit: &str) -> (r: Option<(String, String, String)>)
    ensures
        match commit_ref_parts(commit@) {
            None => r is None,
            Some((slug, version, ns)) => r matches Some((s, v, n)) && s@ == slug && v@ == version
                && n@ == ns,
        },
{
    let parts = split_char(commit, '/');
    let ghost ps = parts.deep_view();
    let n = parts.len();
    if n < 4 {
        return None;
    }
    let mut i: usize = 0;
    while i < n && !(str_eq(parts[i].as_str(), "outputs") || str_eq(parts[i].as_str(), "bundles"))
        invariant
            n == parts@.len(),
            ps == parts.deep_view(),
            ps == split_seq(commit@, '/'),
            i <= n,
            first_marker_from(ps, i as nat) == first_marker_from(ps, 0),
        decreases n - i,
    {
        assert(ps[i as int] == parts@[i as int]@);
        i += 1;
    }
    proof {
        if i < n {
            assert(ps[i as int] == parts@[i as int]@);
        }
    }
    let boundary = i;
    if boundary < 3 {
        return None;
    }
    let slug = to_owned_string(parts[boundary - 2].as_str());
    let version = to_owned_string(parts[boundary - 1].as_str());
    let namespace = join_range(&parts, 1, boundary - 2, "/");
    proof {
        assert(ps[boundary - 2] == parts@[boundary - 2]@);
        assert(ps[boundary - 1] == parts@[boundary - 1]@);
    }
    Some((slug, version, namespace))
}

/// How `serde_json` writes a character inside a string: `"` and `\\`
/// escaped, the control characters with a short escape when there is one
/// and as `\u00XX` (lowercase hexadecimal) otherwise, all others as they are.
pub open spec fn json_char(c: char) -> Seq<char> {
    let u = c as u32;
    if c == '"' {
        seq!['\\', '"']
    } else if c == '\\' {
        seq!['\\', '\\']
    } else if u == 8 {
        seq!['\\', 'b']
    } else if u == 9 {
        seq!['\\', 't']
    } else if u == 10 {
        seq!['\\', 'n']
    } else if u == 12 {
        seq!['\\', 'f']
    } else if u == 13 {
        seq!['\\', 'r']
    } else if u < 0x20 {
        seq!['\\', 'u', '0', '0', hex_digit((u / 16) as int), hex_digit((u % 16) as int)]
    } else {
        seq![c]
    }
}

/// The escaped characters of a string.
pub open spec fn json_escaped(s: Seq<char>) -> Seq<char>
    decreases s.len(),
{
    if s.len() == 0 {
        Seq::empty()
    } else {
        json_escaped(s.drop_last()) + json_char(s.last())
    }
}

/// A JSON string literal.
pub open spec fn json_string(s: Seq<char>) -> Seq<char> {
    seq!['"'] + json_escaped(s) + seq!['"']
}

/// The JSON text that `serde_json::to_string` writes for a list of
/// strings: the string literals, comma-separated, in brackets.
pub open spec fn json_array_text(values: Seq<Seq<char>>) -> Seq<char> {
    seq!['['] + join_seq(values.map_values(|v: Seq<char>| json_string(v)), seq![',']) + seq![']']
}

/// The text of each string.
pub open spec fn texts(v: Seq<String>) -> Seq<Seq<char>> {
    v.map_values(|s: String| s@)
}

/// `serde_json::to_string` of a list of strings: its JSON array text. It
/// serializes into a `Vec` and strings always serialize, so it never fails.
#[verifier::external_body]
fn json_string_array(values: &[String]) -> (r: Result<String, String>)
    ensures
        r is Ok,
        r matches Ok(s) ==> s@ == json_array_text(texts(values@)),
{
    match serde_json::to_string(values) {
        Ok(s) => Ok(s),
        Err(e) => Err(e.to_string()),
    }
}

/// The metadata value of a list: nothing when it is empty, else its JSON
/// array text.
pub fn encode_metadata_list(values: &[String]) -> (r: Result<Option<String>, String>)
    ensures
        (r matches Ok(None)) <==> values@.len() == 0,
        r matches Ok(Some(s)) ==> values@.len() > 0 && s@ == json_array_text(texts(values@)),
        r is Ok,
{
    if values.len() == 0 {
        return Ok(None);
    }
    match json_string_array(values) {
        Ok(s) => Ok(Some(s)),
        Err(e) => {
            let mut m = to_owned_string("Failed to encode metadata: ");
            push_str(&mut m, e.as_str());
            assert(m@.subrange(0, "Failed to encode metadata: "@.len() as int) =~= "Failed to encode metadata: "@);
            Err(m)
        },
    }
}

/// A metadata list: pairs of key and value text.
pub open spec fn pairs(v: Seq<(String, String)>) -> Seq<(Seq<char>, Seq<char>)> {
    v.map_values(|p: (String, String)| (p.0@, p.1@))
}

/// The entry for an optional value: one pair when it is present.
pub open spec fn opt_entry(key: Seq<char>, v: Option<String>) -> Seq<(Seq<char>, Seq<char>)> {
    match v {
        Some(s) => seq![(key, s@)],
        None => Seq::empty(),
    }
}

/// The entry for an encoded list: one pair when the list is not empty.
pub open spec fn list_entry(key: Seq<char>, values: Seq<String>) -> Seq<(Seq<char>, Seq<char>)> {
    if values.len() == 0 {
        Seq::empty()
    } else {
        seq![(key, json_array_text(texts(values)))]
    }
}

/// The metadata of a branch: the manifest hash, the build checksum when
/// the package has one, and the encoded requires and suggests lists.
pub open spec fn branch_metadata(
    manifest: Manifest,
    hash: Seq<char>,
    required_key: Seq<char>,
    required: Seq<String>,
    suggested_key: Seq<char>,
    suggested: Seq<String>,
) -> Seq<(Seq<char>, Seq<char>)> {
    seq![("nex.manifest.hash"@, hash)] + opt_entry("nex.build.checksum"@, manifest.package.checksum)
        + list_entry(required_key, required) + list_entry(suggested_key, suggested)
}

/// Appends a pair of texts.
fn push_pair(v: &mut Vec<(String, String)>, k: &str, val: &str)
    ensures
        pairs(final(v)@) == pairs(old(v)@).push((k@, val@)),
{
    v.push((to_owned_string(k), to_owned_string(val)));
    assert(pairs(final(v)@) =~= pairs(old(v)@).push((k@, val@)));
}

/// Appends the entry of an optional value.
fn push_opt(v: &mut Vec<(String, String)>, k: &str, val: &Option<String>)
    ensures
        pairs(final(v)@) == pairs(old(v)@) + opt_entry(k@, *val),
{
    match val {
        Some(s) => push_pair(v, k, s.as_str()),
        None => {
            assert(pairs(old(v)@) + opt_entry(k@, *val) =~= pairs(old(v)@));
        },
    }
}

/// Appends the entry of an encoded list.
fn push_list(v: &mut Vec<(String, String)>, k: &str, values: &Vec<String>) -> (r: Result<(), String>)
    ensures
        r is Ok,
        pairs(final(v)@) == pairs(old(v)@) + list_entry(k@, values@),
{
    match encode_metadata_list(values.as_slice()) {
        Ok(Some(encoded)) => {
            push_pair(v, k, encoded.as_str());
            Ok(())
        },
        Ok(None) => {
            assert(pairs(old(v)@) + list_entry(k@, values@) =~= pairs(old(v)@));
            Ok(())
        },
        Err(e) => Err(e),
    }
}

/// The metadata of an output branch.
pub fn output_branch_metadata(manifest: &Manifest, spec: &OutputSpec, manifest_hash: &str) -> (r:
    Result<Vec<(String, String)>, String>)
    ensures
        r matches Ok(v) ==> pairs(v@) == branch_metadata(
            *manifest,
            manifest_hash@,
            "nex.output.requires"@,
            spec.requires@,
            "nex.output.suggests"@,
            spec.suggests@,
        ),
        r is Ok,
{
    let mut metadata: Vec<(String, String)> = Vec::new();
    push_pair(&mut metadata, "nex.manifest.hash", manifest_hash);
    push_opt(&mut metadata, "nex.build.checksum", &manifest.package.checksum);
    match push_list(&mut metadata, "nex.output.requires", &spec.requires) {
        Ok(()) => {},
        Err(e) => return Err(e),
    }
    match push_list(&mut metadata, "nex.output.suggests", &spec.suggests) {
        Ok(()) => {},
        Err(e) => return Err(e),
    }
    proof {
        assert(pairs(metadata@) =~= branch_metadata(
            *manifest,
            manifest_hash@,
            "nex.output.requires"@,
            spec.requires@,
            "nex.output.suggests"@,
            spec.suggests@,
        ));
    }
    Ok(metadata)
}

/// The metadata of a bundle branch.
pub fn bundle_branch_metadata(manifest: &Manifest, bundle: &Bundle, manifest_hash: &str) -> (r:
    Result<Vec<(String, String)>, String>)
    ensures
        r matches Ok(v) ==> pairs(v@) == branch_metadata(
            *manifest,
            manifest_hash@,
            "nex.bundle.requires"@,
            bundle.requires@,
            "nex.bundle.suggests"@,
            bundle.suggests@,
        ),
        r is Ok,
{
    let mut metadata: Vec<(String, String)> = Vec::new();
    push_pair(&mut metadata, "nex.manifest.hash", manifest_hash);
    push_opt(&mut metadata, "nex.build.checksum", &manifest.package.checksum);
    match push_list(&mut metadata, "nex.bundle.requires", &bundle.requires) {
        Ok(()) => {},
        Err(e) => return Err(e),
    }
    match push_list(&mut metadata, "nex.bundle.suggests", &bundle.suggests) {
        Ok(()) => {},
        Err(e) => return Err(e),
    }
    proof {
        assert(pairs(metadata@) =~= branch_metadata(
            *manifest,
            manifest_hash@,
            "nex.bundle.requires"@,
            bundle.requires@,
            "nex.bundle.suggests"@,
            bundle.suggests@,
        ));
    }
    Ok(metadata)
}

/// The branch of a system: "systems/{slug}/{version}".
pub open spec fn system_branch(m: SystemManifest) -> Seq<char> {
    "systems/"@ + m.system.slug@ + "/"@ + m.system.version@
}

/// The metadata of a system commit.
pub open spec fn system_metadata(
    m: SystemManifest,
    packages: Seq<String>,
    dependencies: Seq<String>,
    checksum: Seq<char>,
) -> Seq<(Seq<char>, Seq<char>)> {
    seq![
        ("nex.system.name"@, m.system.name@),
        ("nex.system.slug"@, m.system.slug@),
        ("nex.system.version"@, m.system.version@),
        ("nex.build.checksum"@, checksum),
    ] + opt_entry("nex.system.description"@, m.system.description) + opt_entry(
        "nex.system.arch"@,
        m.system.architecture,
    ) + opt_entry("nex.system.boot_method"@, m.system.boot_method) + list_entry(
        "nex.system.packages"@,
        packages,
    ) + list_entry("nex.system.dependencies"@, dependencies)
}

/// What committing a system's root filesystem writes: its branch and its
/// metadata. The commit itself is made by the caller.
pub fn commit_system_rootfs(
    manifest: &SystemManifest,
    package_commits: &Vec<String>,
    dependency_commits: &Vec<String>,
    checksum: &str,
) -> (r: Result<(String, Vec<(String, String)>), String>)
    ensures
        r matches Ok((b, v)) ==> b@ == system_branch(*manifest) && pairs(v@) == system_metadata(
            *manifest,
            package_commits@,
            dependency_commits@,
            checksum@,
        ),
        r is Ok,
{
    let mut branch = to_owned_string("systems/");
    push_str(&mut branch, manifest.system.slug.as_str());
    push_char(&mut branch, '/');
    push_str(&mut branch, manifest.system.version.as_str());
    let mut metadata: Vec<(String, String)> = Vec::new();
    push_pair(&mut metadata, "nex.system.name", manifest.system.name.as_str());
    push_pair(&mut metadata, "nex.system.slug", manifest.system.slug.as_str());
    push_pair(&mut metadata, "nex.system.version", manifest.system.version.as_str());
    push_pair(&mut metadata, "nex.build.checksum", checksum);
    push_opt(&mut metadata, "nex.system.description", &manifest.system.description);
    push_opt(&mut metadata, "nex.system.arch", &manifest.system.architecture);
    push_opt(&mut metadata, "nex.system.boot_method", &manifest.system.boot_method);
    match push_list(&mut metadata, "nex.system.packages", package_commits) {
        Ok(()) => {},
        Err(e) => return Err(e),
    }
    match push_list(&mut metadata, "nex.system.dependencies", dependency_commits) {
        Ok(()) => {},
        Err(e) => return Err(e),
    }
    proof {
        reveal_strlit("/");
        assert(branch@ =~= system_branch(*manifest));
        assert(pairs(metadata@) =~= system_metadata(
            *manifest,
            package_commits@,
            dependency_commits@,
            checksum@,
        ));
    }
    Ok((branch, metadata))
}

/// An ASCII hexadecimal digit.
pub open spec fn is_hex_digit(c: char) -> bool {
    ('0' <= c && c <= '9') || ('a' <= c && c <= 'f') || ('A' <= c && c <= 'F')
}

/// Sixty-four hexadecimal digits, the form of a commit checksum.
pub open spec fn is_checksum_text(s: Seq<char>) -> bool {
    s.len() == 64 && forall|i: int| 0 <= i < s.len() ==> is_hex_digit(#[trigger] s[i])
}

/// check if a string looks like a commit checksum (64 hex chars).
pub fn is_checksum(s: &str) -> (r: bool)
    ensures
        r == is_checksum_text(s@),
{
    let n = s.unicode_len();
    if n != 64 {
        return false;
    }
    let mut i: usize = 0;
    while i < n
        invariant
            n == s@.len(),
            i <= n,
            forall|j: int| 0 <= j < i ==> is_hex_digit(#[trigger] s@[j]),
        decreases n - i,
    {
        let c = s.get_char(i);
        if !(('0' <= c && c <= '9') || ('a' <= c && c <= 'f') || ('A' <= c && c <= 'F')) {
            return false;
        }
        i += 1;
    }
    true
}

/// `s` without the leading characters `c`.
pub open spec fn strip_start_char(s: Seq<char>, c: char) -> Seq<char>
    decreases s.len(),
{
    if s.len() > 0 && s[0] == c {
        strip_start_char(s.drop_first(), c)
    } else {
        s
    }
}

/// `s` without the trailing characters `c`.
pub open spec fn strip_end_char(s: Seq<char>, c: char) -> Seq<char>
    decreases s.len(),
{
    if s.len() > 0 && s.last() == c {
        strip_end_char(s.drop_last(), c)
    } else {
        s
    }
}

/// A metadata value as `ostree show --print-metadata-key` prints it:
/// trimmed, and without the single quotes around it (`trim_matches('\'')`).
pub open spec fn metadata_value_of(stdout: Seq<char>) -> Seq<char> {
    strip_end_char(strip_start_char(trim_seq(stdout), '\''), '\'')
}

/// The metadata value in the output of `ostree show --print-metadata-key`.
pub fn metadata_value(stdout: &str) -> (r: String)
    ensures
        r@ == metadata_value_of(stdout@),
{
    let t = trim(stdout);
    let n = t.unicode_len();
    let mut i: usize = 0;
    proof {
        assert(t@.subrange(0, n as int) =~= t@);
    }
    while i < n && t.as_str().get_char(i) == '\''
        invariant
            n == t@.len(),
            i <= n,
            strip_start_char(t@.subrange(i as int, n as int), '\'') == strip_start_char(t@, '\''),
        decreases n - i,
    {
        proof {
            assert(t@.subrange(i as int, n as int).drop_first() =~= t@.subrange(i + 1, n as int));
        }
        i += 1;
    }
    let mut j: usize = n;
    proof {
        let u = t@.subrange(i as int, n as int);
        assert(strip_start_char(u, '\'') == u);
        assert(u.subrange(0, (j - i) as int) =~= u);
    }
    while j > i && t.as_str().get_char(j - 1) == '\''
        invariant
            n == t@.len(),
            i <= j <= n,
            strip_end_char(t@.subrange(i as int, j as int), '\'') == metadata_value_of(stdout@),
        decreases j,
    {
        proof {
            assert(t@.subrange(i as int, j as int).drop_last() =~= t@.subrange(i as int, j - 1));
        }
        j -= 1;
    }
    proof {
        let u = t@.subrange(i as int, j as int);
        assert(strip_end_char(u, '\'') == u);
    }
    t.as_str().substring_char(i, j).to_owned()
}

/// The build checksum as `ostree show` prints it: trimmed, and without one
/// pair of single quotes when it is wrapped in them.
pub open spec fn quoted_checksum_of(stdout: Seq<char>) -> Seq<char> {
    let t = trim_seq(stdout);
    if t.len() >= 2 && t[0] == '\'' && t.last() == '\'' {
        t.subrange(1, t.len() - 1)
    } else {
        t
    }
}

/// The build checksum in the output of `ostree show`. A lone quote is
/// not accepted (it would be cut from position 1 to 0).
pub fn quoted_checksum(stdout: &str) -> (r: String)
    requires
        trim_seq(stdout@) != seq!['\''],
    ensures
        r@ == quoted_checksum_of(stdout@),
{
    let t = trim(stdout);
    let n = t.unicode_len();
    if n > 0 && t.as_str().get_char(0) == '\'' && t.as_str().get_char(n - 1) == '\'' {
        if n == 1 {
            proof {
                assert(t@ =~= seq!['\'']);
            }
        }
        t.as_str().substring_char(1, n - 1).to_owned()
    } else {
        t
    }
}

/// The commit ids of an `ostree log`: the lines that, trimmed, start with
/// `commit `, with what follows trimmed.
pub open spec fn log_commits(lines: Seq<Seq<char>>) -> Seq<Seq<char>>
    decreases lines.len(),
{
    if lines.len() == 0 {
        Seq::empty()
    } else {
        let r = log_commits(lines.drop_last());
        let t = trim_seq(lines.last());
        if is_prefix("commit "@, t) {
            r.push(trim_seq(t.subrange(7, t.len() as int)))
        } else {
            r
        }
    }
}

/// The commits that an `ostree log` lists, newest first.
pub fn log_commit_ids(log_output: &str) -> (r: Vec<String>)
    ensures
        r.deep_view() == log_commits(lines_seq(log_output@)),
{
    let ls = lines(log_output);
    let ghost ln = lines_seq(log_output@);
    let mut ids: Vec<String> = Vec::new();
    let mut i: usize = 0;
    while i < ls.len()
        invariant
            ls.deep_view() == ln,
            i <= ls@.len(),
            ids.deep_view() == log_commits(ln.subrange(0, i as int)),
        decreases ls@.len() - i,
    {
        proof {
            assert(ln.subrange(0, i + 1).drop_last() =~= ln.subrange(0, i as int));
            assert(ln.subrange(0, i + 1).last() == ls@[i as int]@);
        }
        let t = trim(ls[i].as_str());
        if starts_with(t.as_str(), "commit ") {
            proof {
                reveal_strlit("commit ");
            }
            let rest = substring(t.as_str(), 7, t.unicode_len());
            let ghost before = ids.deep_view();
            ids.push(trim(rest.as_str()));
            proof {
                assert(ids.deep_view() =~= before.push(ids@[before.len() as int]@));
            }
        }
        i += 1;
    }
    proof {
        assert(ln.subrange(0, ls@.len() as int) =~= ln);
    }
    ids
}

/// `Some(target)`, as text.
pub open spec fn is_hash(r: Option<String>, target: Seq<char>) -> bool {
    r matches Some(h) && h@ == target
}

/// A lookup of the manifest hash of `commit` gave `target` (`matched`) or
/// something else.
pub open spec fn looked_up<F: Fn(&str) -> Option<String>>(
    manifest_hash: F,
    commit: Seq<char>,
    target: Seq<char>,
    matched: bool,
) -> bool {
    exists|s: &str, h: Option<String>|
        s@ == commit && #[trigger] call_ensures(manifest_hash, (s,), h) && is_hash(h, target) == matched
}

/// The first commit of `commits` (newest first) whose manifest hash is
/// `target`; `manifest_hash` looks a commit's hash up in the repository,
/// nothing when it has none.
pub fn find_commit_by_manifest_hash<F: Fn(&str) -> Option<String>>(
    commits: &Vec<String>,
    target: &str,
    manifest_hash: &F,
) -> (r: Option<String>)
    requires
        forall|s: &str| call_requires(*manifest_hash, (s,)),
    ensures
        match r {
            Some(c) => exists|i: int|
                0 <= i < commits@.len() && c@ == #[trigger] commits@[i]@ && looked_up(
                    *manifest_hash,
                    c@,
                    target@,
                    true,
                ) && forall|j: int|
                    0 <= j < i ==> looked_up(*manifest_hash, #[trigger] commits@[j]@, target@, false),
            None => forall|j: int|
                0 <= j < commits@.len() ==> looked_up(*manifest_hash, #[trigger] commits@[j]@, target@, false),
        },
{
    let mut i: usize = 0;
    while i < commits.len()
        invariant
            forall|s: &str| call_requires(*manifest_hash, (s,)),
            i <= commits@.len(),
            forall|j: int| 0 <= j < i ==> looked_up(*manifest_hash, #[trigger] commits@[j]@, target@, false),
        decreases commits@.len() - i,
    {
        let c = commits[i].as_str();
        let h = manifest_hash(c);
        let found = match &h {
            Some(v) => str_eq(v.as_str(), target),
            None => false,
        };
        proof {
            assert(found == is_hash(h, target@));
            assert(looked_up(*manifest_hash, commits@[i as int]@, target@, found));
        }
        if found {
            return Some(to_owned_string(c));
        }
        i += 1;
    }
    None
}

/// The hash that marks which manifest a commit was built from: the
/// SHA-256 of the manifest's text, in lowercase hexadecimal.
pub fn manifest_content_hash(content: &str) -> (r: String)
    ensures
        r@ == hex_text(sha256_digest(content.spec_bytes())),
{
    let digest = sha256(content.as_bytes());
    hex_encode(digest.as_slice())
}

/// The refs of a package in namespace `ns`: one per output, one per
/// bundle, then its files commit.
pub open spec fn manifest_refs_of(m: Manifest, ns: Seq<char>) -> Seq<Seq<char>> {
    let base = "x86_64/pkg/"@ + ns + "/"@ + m.package.slug@ + "/"@ + m.package.version@;
    m.outputs@.map_values(|o: (String, OutputSpec)| base + "/outputs/"@ + o.0@) + m.bundles@.map_values(
        |b: (String, Bundle)| base + "/bundles/"@ + b.0@,
    ) + seq![base + "/files"@]
}

/// The refs that shell completion offers for a package manifest found in
/// namespace `namespace`.
pub fn manifest_refs(manifest: &Manifest, namespace: &str) -> (r: Vec<String>)
    ensures
        r.deep_view() == manifest_refs_of(*manifest, namespace@),
{
    let ghost all = manifest_refs_of(*manifest, namespace@);
    let mut base = to_owned_string("x86_64/pkg/");
    push_str(&mut base, namespace);
    push_str(&mut base, "/");
    push_str(&mut base, manifest.package.slug.as_str());
    push_str(&mut base, "/");
    push_str(&mut base, manifest.package.version.as_str());
    let ghost b = base@;
    let ghost outs = manifest.outputs@.map_values(|o: (String, OutputSpec)| b + "/outputs/"@ + o.0@);
    let ghost bunds = manifest.bundles@.map_values(|x: (String, Bundle)| b + "/bundles/"@ + x.0@);
    let mut refs: Vec<String> = Vec::new();
    let mut i: usize = 0;
    while i < manifest.outputs.len()
        invariant
            i <= manifest.outputs@.len(),
            base@ == b,
            outs == manifest.outputs@.map_values(|o: (String, OutputSpec)| b + "/outputs/"@ + o.0@),
            refs.deep_view() == outs.subrange(0, i as int),
        decreases manifest.outputs@.len() - i,
    {
        let mut r = to_owned_string(base.as_str());
        push_str(&mut r, "/outputs/");
        push_str(&mut r, manifest.outputs[i].0.as_str());
        let ghost before = refs.deep_view();
        refs.push(r);
        proof {
            assert(refs.deep_view() =~= before.push(outs[i as int]));
            assert(outs.subrange(0, i + 1) =~= outs.subrange(0, i as int).push(outs[i as int]));
        }
        i += 1;
    }
    let mut j: usize = 0;
    while j < manifest.bundles.len()
        invariant
            j <= manifest.bundles@.len(),
            base@ == b,
            outs.len() == manifest.outputs@.len(),
            bunds == manifest.bundles@.map_values(|x: (String, Bundle)| b + "/bundles/"@ + x.0@),
            refs.deep_view() == outs + bunds.subrange(0, j as int),
        decreases manifest.bundles@.len() - j,
    {
        let mut r = to_owned_string(base.as_str());
        push_str(&mut r, "/bundles/");
        push_str(&mut r, manifest.bundles[j].0.as_str());
        let ghost before = refs.deep_view();
        refs.push(r);
        proof {
            assert(refs.deep_view() =~= before.push(bunds[j as int]));
            assert(bunds.subrange(0, j + 1) =~= bunds.subrange(0, j as int).push(bunds[j as int]));
        }
        j += 1;
    }
    let mut f = to_owned_string(base.as_str());
    push_str(&mut f, "/files");
    let ghost before = refs.deep_view();
    refs.push(f);
    proof {
        assert(outs.subrange(0, manifest.outputs@.len() as int) =~= outs);
        assert(bunds.subrange(0, manifest.bundles@.len() as int) =~= bunds);
        assert(refs.deep_view() =~= all);
    }
    refs
}

/// How a ref or checksum is turned into a checksum.
pub enum RefLookup {
    /// It is a checksum already.
    Checksum(String),
    /// It names a ref whose file under `refs/heads/` holds the checksum.
    Ref(String),
}

/// resolve a ref or checksum to a checksum: a checksum stands for itself,
/// anything else is a ref to read.
pub fn resolve_ref_or_checksum(ref_or_checksum: &str) -> (r: RefLookup)
    ensures
        is_checksum_text(ref_or_checksum@) ==> (r matches RefLookup::Checksum(c) && c@
            == ref_or_checksum@),
        !is_checksum_text(ref_or_checksum@) ==> (r matches RefLookup::Ref(n) && n@
            == ref_or_checksum@),
{
    if is_checksum(ref_or_checksum) {
        RefLookup::Checksum(to_owned_string(ref_or_checksum))
    } else {
        RefLookup::Ref(to_owned_string(ref_or_checksum))
    }
}

/// The checksum that a ref file holds: its content without surrounding
/// white space.
pub fn checksum_from_ref_content(content: &str) -> (r: String)
    ensures
        r@ == trim_seq(content@),
{
    trim(content)
}

/// `base` joined with `comp` as `Path::join` does on Unix: an absolute
/// component replaces the base, and a separator is put between them when
/// the base is not empty and does not end in one.
pub open spec fn path_join(base: Seq<char>, comp: Seq<char>) -> Seq<char> {
    if comp.len() > 0 && comp[0] == '/' {
        comp
    } else if base.len() == 0 || base.last() == '/' {
        base + comp
    } else {
        base + seq!['/'] + comp
    }
}

/// Joins a path component onto a base path.
pub fn join_path(base: &str, comp: &str) -> (r: String)
    ensures
        r@ == path_join(base@, comp@),
{
    let n = base.unicode_len();
    if comp.unicode_len() > 0 && comp.get_char(0) == '/' {
        return to_owned_string(comp);
    }
    let mut s = to_owned_string(base);
    if n > 0 && base.get_char(n - 1) != '/' {
        push_char(&mut s, '/');
    }
    push_str(&mut s, comp);
    s
}

/// object types in OSTree.
#[derive(Clone, Copy, PartialEq, Eq, Structural)]
pub enum ObjectType {
    Commit,
    DirTree,
    DirMeta,
    File,
}

/// The file extension of an object type.
pub open spec fn extension_of(t: ObjectType) -> Seq<char> {
    match t {
        ObjectType::Commit => "commit"@,
        ObjectType::DirTree => "dirtree"@,
        ObjectType::DirMeta => "dirmeta"@,
        ObjectType::File => "file"@,
    }
}

impl ObjectType {
    pub fn extension(&self) -> (r: &'static str)
        ensures
            r@ == extension_of(*self),
    {
        match self {
            ObjectType::Commit => "commit",
            ObjectType::DirTree => "dirtree",
            ObjectType::DirMeta => "dirmeta",
            ObjectType::File => "file",
        }
    }
}

/// access to OSTree object store.
pub struct ObjectStore {
    pub objects_dir: String,
}

/// The path of an object: `{dir}/{first two}/{rest}.{extension}`.
pub open spec fn object_path_of(dir: Seq<char>, checksum: Seq<char>, t: ObjectType) -> Seq<char> {
    path_join(
        path_join(dir, checksum.subrange(0, 2)),
        checksum.subrange(2, checksum.len() as int) + "."@ + extension_of(t),
    )
}

impl ObjectStore {
    pub fn new(objects_dir: String) -> (r: Self)
        ensures
            r.objects_dir == objects_dir,
    {
        Self { objects_dir }
    }

    /// get path to an object file.
    /// checksum format: 64 hex chars (sha256)
    /// returns: objects/{first2}/{rest}.{type}
    pub fn object_path(&self, checksum: &str, obj_type: ObjectType) -> (r: String)
        requires
            checksum@.len() >= 2,
            (checksum@[0] as u32) < 128,
            (checksum@[1] as u32) < 128,
        ensures
            r@ == object_path_of(self.objects_dir@, checksum@, obj_type),
    {
        let n = checksum.unicode_len();
        let prefix = checksum.substring_char(0, 2);
        let rest = checksum.substring_char(2, n);
        let dir = join_path(self.objects_dir.as_str(), prefix);
        let mut name = to_owned_string(rest);
        push_char(&mut name, '.');
        push_str(&mut name, obj_type.extension());
        proof {
            reveal_strlit(".");
            assert(name@ =~= checksum@.subrange(2, checksum@.len() as int) + "."@ + extension_of(
                obj_type,
            ));
        }
        join_path(dir.as_str(), name.as_str())
    }
}

} // verus!
