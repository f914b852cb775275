//! The inputs of a build: where a downloaded input is kept, how its
//! content is checked against the manifest, and the variables that tell
//! the build script where each input lies.
use vstd::prelude::*;
use crate::builder::manifest::Source;
use crate::builder::ostree::path_join;
use crate::builder::ostree::join_path;
use crate::builder::ostree_native::hex_encode;
use crate::builder::ostree_native::hex_text;
use crate::builder::runtime::file_name;
use crate::builder::runtime::file_name_of;
use crate::builder::system::env_map;
use crate::builder::system::distinct_keys;
use crate::builder::system::env_insert;
use crate::builder::progress::decimal;
use crate::builder::progress::push_decimal;
use crate::luks2::crypto::sha256;
use crate::luks2::crypto::sha256_digest;
use crate::text::split_char;
use crate::text::split_seq;
use crate::text::lemma_split_nonempty;
use crate::text::str_eq;
use crate::text::to_owned_string;
use crate::text::push_str;

verus! {

/// The name of the link that records a verified input by its hash:
/// `sha256-{hash}`.
pub fn input_link_name(sha256_hex: &str) -> (r: String)
    ensures
        r@ == "sha256-"@ + sha256_hex@,
{
    let mut n = to_owned_string("sha256-");
    push_str(&mut n, sha256_hex);
    n
}

/// The file name a download is stored under: the last component of the
/// URL, without its query.
pub open spec fn url_file_name_of(url: Seq<char>) -> Seq<char> {
    split_seq(split_seq(url, '/').last(), '?')[0]
}

/// The file name under which the input at `url` is downloaded.
pub fn url_file_name(url: &str) -> (r: String)
    ensures
        r@ == url_file_name_of(url@),
{
    let parts = split_char(url, '/');
    proof {
        lemma_split_nonempty(url@, '/');
    }
    let last = parts[parts.len() - 1].as_str();
    let pieces = split_char(last, '?');
    proof {
        lemma_split_nonempty(last@, '?');
    }
    to_owned_string(pieces[0].as_str())
}

/// The SHA-256 of an input's content in lowercase hexadecimal, as the
/// manifest records it.
pub fn content_sha256(contents: &[u8]) -> (r: String)
    ensures
        r@ == hex_text(sha256_digest(contents@)),
{
    let digest = sha256(contents);
    hex_encode(digest.as_slice())
}

/// Where an input comes from, for the message of a hash mismatch.
pub enum InputOrigin {
    Downloaded,
    Local,
}

/// Checks an input's content against the hash the manifest expects; the
/// error names the hash that was found.
pub fn verify_input_hash(contents: &[u8], expected: &str, origin: InputOrigin) -> (r: Result<(), String>)
    ensures
        hex_text(sha256_digest(contents@)) == expected@ ==> r is Ok,
        hex_text(sha256_digest(contents@)) != expected@ ==> (r matches Err(e) && e@ == match origin {
            InputOrigin::Downloaded => "SHA256 hash mismatch for downloaded input: "@,
            InputOrigin::Local => "SHA256 hash mismatch for local input: "@,
        } + hex_text(sha256_digest(contents@))),
{
    let h = content_sha256(contents);
    if str_eq(h.as_str(), expected) {
        return Ok(());
    }
    let mut e = match origin {
        InputOrigin::Downloaded => to_owned_string("SHA256 hash mismatch for downloaded input: "),
        InputOrigin::Local => to_owned_string("SHA256 hash mismatch for local input: "),
    };
    push_str(&mut e, h.as_str());
    Err(e)
}

/// The path of an input as the build script sees it: absolute below the
/// current directory in a bootstrap build, else `./inputs/{file name}`.
pub open spec fn input_path_of(build_dir: Seq<char>, file: Seq<char>, current_dir: Seq<char>, bootstrap: bool) -> Seq<
    char,
> {
    if bootstrap {
        path_join(current_dir, path_join(path_join(build_dir, "inputs"@), file))
    } else {
        path_join("./inputs"@, file)
    }
}

/// The variables of the inputs: `SOURCE{i}` and `SOURCE_{name}` for the
/// `i`-th input, later ones replacing earlier ones of the same name.
pub open spec fn input_vars(
    sources: Seq<Source>,
    files: Seq<String>,
    build_dir: Seq<char>,
    current_dir: Seq<char>,
    bootstrap: bool,
) -> Map<Seq<char>, Seq<char>>
    decreases sources.len(),
{
    if sources.len() == 0 || files.len() < sources.len() {
        Map::empty()
    } else {
        let i = sources.len() - 1;
        let p = input_path_of(build_dir, files[i]@, current_dir, bootstrap);
        input_vars(sources.drop_last(), files, build_dir, current_dir, bootstrap).insert(
            "SOURCE"@ + decimal(i as nat),
            p,
        ).insert("SOURCE_"@ + sources[i].name@, p)
    }
}

/// The variables that tell the build script where its inputs are;
/// `files[i]` is the file name of the `i`-th input once it is copied to
/// `{build_dir}/inputs`.
pub fn input_env_vars(
    sources: &Vec<Source>,
    files: &Vec<String>,
    build_dir: &str,
    current_dir: &str,
    bootstrap: bool,
) -> (r: Vec<(String, String)>)
    requires
        files@.len() >= sources@.len(),
    ensures
        distinct_keys(r@),
        env_map(r@) == input_vars(sources@, files@, build_dir@, current_dir@, bootstrap),
{
    let mut vars: Vec<(String, String)> = Vec::new();
    proof {
        assert(env_map(vars@) =~= Map::<Seq<char>, Seq<char>>::empty());
    }
    let inputs_dir = join_path(build_dir, "inputs");
    let mut i: usize = 0;
    while i < sources.len()
        invariant
            i <= sources@.len(),
            files@.len() >= sources@.len(),
            inputs_dir@ == path_join(build_dir@, "inputs"@),
            distinct_keys(vars@),
            env_map(vars@) == input_vars(sources@.subrange(0, i as int), files@, build_dir@, current_dir@, bootstrap),
        decreases sources@.len() - i,
    {
        proof {
            assert(sources@.subrange(0, i + 1).drop_last() =~= sources@.subrange(0, i as int));
            assert(sources@.subrange(0, i + 1)[i as int] == sources@[i as int]);
        }
        let p = if bootstrap {
            let staged = join_path(inputs_dir.as_str(), files[i].as_str());
            join_path(current_dir, staged.as_str())
        } else {
            join_path("./inputs", files[i].as_str())
        };
        let mut numbered = to_owned_string("SOURCE");
        push_decimal(&mut numbered, i as u64);
        env_insert(&mut vars, numbered.as_str(), p.as_str());
        let mut named = to_owned_string("SOURCE_");
        push_str(&mut named, sources[i].name.as_str());
        env_insert(&mut vars, named.as_str(), p.as_str());
        i += 1;
    }
    proof {
        assert(sources@.subrange(0, sources@.len() as int) =~= sources@);
    }
    vars
}

} // verus!
