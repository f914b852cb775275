//! The outputs of a build: which files each committed output takes, the
//! files that no output takes, the checksum that seals the build and what
//! is done when it differs from the recorded one.
use vstd::prelude::*;
use vstd::utf8::encode_utf8;
use vstd::string::StringSliceAdditionalSpecFns;
use crate::builder::manifest::OutputSpec;
use crate::builder::ostree_native::hex_encode;
use crate::builder::ostree_native::hex_text;
use crate::builder::scan::strip_leading_slashes;
use crate::builder::scan::strip_slashes;
use crate::luks2::crypto::sha256;
use crate::luks2::crypto::sha256_digest;
use crate::text::str_eq;
use crate::text::to_owned_string;
use crate::text::push_str;
use crate::text::lines;
use crate::text::lines_seq;
use crate::text::join_seq;
use crate::text::join_range;
use crate::text::leading_ws;
use crate::text::leading_ws_len;
use crate::text::lemma_leading_ws_bound;
use crate::text::substring;
use crate::text::starts_with;
use crate::text::ends_with;
use crate::text::is_prefix;
use crate::text::is_suffix;

verus! {

/// What the checksum hashes for one file: its relative path, a NUL byte,
/// its content and a NUL byte.
pub open spec fn checksum_entry(path: Seq<char>, content: Seq<u8>) -> Seq<u8> {
    encode_utf8(path) + seq![0u8] + content + seq![0u8]
}

/// What the checksum hashes for the files, in the order given.
pub open spec fn checksum_input(files: Seq<(String, Vec<u8>)>) -> Seq<u8>
    decreases files.len(),
{
    if files.len() == 0 {
        Seq::empty()
    } else {
        checksum_input(files.drop_last()) + checksum_entry(files.last().0@, files.last().1@)
    }
}

/// A line that holds a checksum field: indented, and `checksum:` after the
/// indentation.
pub open spec fn is_checksum_field(l: Seq<char>) -> bool {
    leading_ws(l) > 0 && is_prefix("checksum:"@, l.subrange(leading_ws(l) as int, l.len() as int))
}

/// The lines without the checksum fields.
pub open spec fn plan_lines(ls: Seq<Seq<char>>) -> Seq<Seq<char>>
    decreases ls.len(),
{
    if ls.len() == 0 {
        Seq::empty()
    } else if is_checksum_field(ls.last()) {
        plan_lines(ls.drop_last())
    } else {
        plan_lines(ls.drop_last()).push(ls.last())
    }
}

/// The manifest text without its checksum field: its lines without the
/// checksum lines, keeping a final line end.
pub open spec fn plan_text_of(contents: Seq<char>) -> Seq<char> {
    join_seq(plan_lines(lines_seq(contents)), "\n"@) + if is_suffix("\n"@, contents) {
        "\n"@
    } else {
        Seq::<char>::empty()
    }
}

/// The text a build's plan is the hash of: the manifest without its
/// checksum field.
pub fn plan_text(contents: &str) -> (r: String)
    ensures
        r@ == plan_text_of(contents@),
{
    let ls = lines(contents);
    let ghost lv = ls.deep_view();
    let mut kept: Vec<String> = Vec::new();
    let mut i: usize = 0;
    proof {
        reveal_strlit("checksum:");
        reveal_strlit("\n");
    }
    while i < ls.len()
        invariant
            i <= ls@.len(),
            lv == ls.deep_view(),
            kept.deep_view() == plan_lines(lv.subrange(0, i as int)),
        decreases ls@.len() - i,
    {
        let line = ls[i].as_str();
        let n = line.unicode_len();
        let b = leading_ws_len(line);
        proof {
            lemma_leading_ws_bound(line@);
            assert(lv.subrange(0, i + 1).drop_last() =~= lv.subrange(0, i as int));
            assert(lv.subrange(0, i + 1).last() == line@);
        }
        let rest = substring(line, b, n);
        let field = b > 0 && starts_with(rest.as_str(), "checksum:");
        if !field {
            let ghost before = kept.deep_view();
            kept.push(to_owned_string(line));
            proof {
                assert(kept.deep_view() =~= before.push(line@));
            }
        }
        i += 1;
    }
    proof {
        assert(lv.subrange(0, lv.len() as int) =~= lv);
        assert(kept.deep_view().subrange(0, kept@.len() as int) =~= kept.deep_view());
    }
    let mut t = join_range(&kept, 0, kept.len(), "\n");
    if ends_with(contents, "\n") {
        push_str(&mut t, "\n");
    } else {
        proof {
            assert(t@ + Seq::<char>::empty() =~= t@);
        }
    }
    t
}

/// The plan of a build: the SHA-256, in lowercase hexadecimal, of the
/// manifest text without its checksum field.
pub fn plan_hash(text: &[u8]) -> (r: String)
    ensures
        r@ == hex_text(sha256_digest(text@)),
{
    let digest = sha256(text);
    hex_encode(digest.as_slice())
}

/// The checksum that seals a build: the SHA-256, in lowercase hexadecimal,
/// of the plan followed by the output (each output file's relative path and
/// content, NUL-terminated, in the order given; the builder gives them
/// sorted by path). Equal checksums mean the same plan and the same output.
pub fn build_checksum(plan: &str, files: &Vec<(String, Vec<u8>)>) -> (r: String)
    ensures
        r@ == hex_text(sha256_digest(encode_utf8(plan@) + checksum_input(files@))),
{
    let mut buf: Vec<u8> = Vec::new();
    buf.extend_from_slice(plan.as_bytes());
    proof {
        assert(buf@ =~= encode_utf8(plan@));
        assert(files@.subrange(0, 0) =~= Seq::<(String, Vec<u8>)>::empty());
        assert(buf@ =~= encode_utf8(plan@) + checksum_input(files@.subrange(0, 0)));
    }
    let mut i: usize = 0;
    while i < files.len()
        invariant
            i <= files@.len(),
            buf@ == encode_utf8(plan@) + checksum_input(files@.subrange(0, i as int)),
        decreases files@.len() - i,
    {
        let ghost before = buf@;
        let path_bytes = files[i].0.as_str().as_bytes();
        buf.extend_from_slice(path_bytes);
        buf.push(0u8);
        buf.extend_from_slice(files[i].1.as_slice());
        buf.push(0u8);
        proof {
            let p = files@[i as int].0@;
            let c = files@[i as int].1@;
            assert(path_bytes@ == encode_utf8(p));
            assert(files@.subrange(0, i + 1).drop_last() =~= files@.subrange(0, i as int));
            assert(buf@ =~= before + checksum_entry(p, c));
        }
        i += 1;
    }
    proof {
        assert(files@.subrange(0, files@.len() as int) =~= files@);
    }
    let digest = sha256(buf.as_slice());
    hex_encode(digest.as_slice())
}

/// What a build does with its checksum against the one the manifest
/// records.
#[derive(PartialEq, Eq, Structural)]
pub enum ChecksumAction {
    /// The checksums agree.
    Verified,
    /// They differ and the manifest is to be updated.
    Update,
    /// They differ and the build fails.
    Mismatch,
    /// None is recorded and the computed one is to be stored.
    Record,
    /// None is recorded and nothing is to be stored.
    Leave,
}

/// The action for a recorded checksum, the computed one, and whether
/// updates are asked for.
pub open spec fn checksum_action_of(recorded: Option<Seq<char>>, computed: Seq<char>, update: bool) -> ChecksumAction {
    match recorded {
        Some(c) => if c == computed {
            ChecksumAction::Verified
        } else if update {
            ChecksumAction::Update
        } else {
            ChecksumAction::Mismatch
        },
        None => if update {
            ChecksumAction::Record
        } else {
            ChecksumAction::Leave
        },
    }
}

/// Decides what a build does with its computed checksum.
pub fn checksum_action(recorded: &Option<String>, computed: &str, update: bool) -> (r: ChecksumAction)
    ensures
        r == checksum_action_of(
            match *recorded {
                Some(c) => Some(c@),
                None => None,
            },
            computed@,
            update,
        ),
{
    match recorded {
        Some(c) => {
            if str_eq(c.as_str(), computed) {
                ChecksumAction::Verified
            } else if update {
                ChecksumAction::Update
            } else {
                ChecksumAction::Mismatch
            }
        },
        None => {
            if update {
                ChecksumAction::Record
            } else {
                ChecksumAction::Leave
            }
        },
    }
}

/// An output that is committed: not `discard`, and with files.
pub open spec fn is_committed(o: (String, OutputSpec)) -> bool {
    o.0@ != "discard"@ && o.1.files@.len() > 0
}

/// An output's name and the paths of its files relative to the output
/// directory (leading slashes dropped).
pub open spec fn placement_of(o: (String, OutputSpec)) -> (Seq<char>, Seq<Seq<char>>) {
    (o.0@, o.1.files@.map_values(|f: String| strip_slashes(f@)))
}

/// The placements of the committed outputs, in manifest order.
pub open spec fn placements_of(outs: Seq<(String, OutputSpec)>) -> Seq<(Seq<char>, Seq<Seq<char>>)>
    decreases outs.len(),
{
    if outs.len() == 0 {
        Seq::empty()
    } else if is_committed(outs.last()) {
        placements_of(outs.drop_last()).push(placement_of(outs.last()))
    } else {
        placements_of(outs.drop_last())
    }
}

/// The texts of a plan.
pub open spec fn plan_views(p: Seq<(String, Vec<String>)>) -> Seq<(Seq<char>, Seq<Seq<char>>)> {
    p.map_values(|e: (String, Vec<String>)| (e.0@, e.1@.map_values(|f: String| f@)))
}

/// Which files each committed output takes, in manifest order: outputs
/// named `discard` and outputs without files are skipped.
pub fn output_placements(outputs: &Vec<(String, OutputSpec)>) -> (r: Vec<(String, Vec<String>)>)
    ensures
        plan_views(r@) == placements_of(outputs@),
{
    proof {
        reveal_strlit("discard");
    }
    let mut plan: Vec<(String, Vec<String>)> = Vec::new();
    let mut i: usize = 0;
    while i < outputs.len()
        invariant
            i <= outputs@.len(),
            plan_views(plan@) == placements_of(outputs@.subrange(0, i as int)),
        decreases outputs@.len() - i,
    {
        let name = outputs[i].0.as_str();
        let files = &outputs[i].1.files;
        proof {
            assert(outputs@.subrange(0, i + 1).drop_last() =~= outputs@.subrange(0, i as int));
            assert(outputs@.subrange(0, i + 1).last() == outputs@[i as int]);
        }
        if !str_eq(name, "discard") && files.len() > 0 {
            let mut rel: Vec<String> = Vec::new();
            let mut j: usize = 0;
            while j < files.len()
                invariant
                    j <= files@.len(),
                    rel@.len() == j,
                    forall|k: int| 0 <= k < j ==> #[trigger] rel@[k]@ == strip_slashes(files@[k]@),
                decreases files@.len() - j,
            {
                rel.push(strip_leading_slashes(files[j].as_str()));
                j += 1;
            }
            let ghost before = plan@;
            plan.push((to_owned_string(name), rel));
            proof {
                assert(rel@.map_values(|f: String| f@) =~= files@.map_values(|f: String| strip_slashes(f@)));
                assert(plan_views(plan@) =~= plan_views(before).push(placement_of(outputs@[i as int])));
            }
        }
        i += 1;
    }
    proof {
        assert(outputs@.subrange(0, outputs@.len() as int) =~= outputs@);
    }
    plan
}

/// `f` is one of the files that the plan places.
pub open spec fn in_plan(p: Seq<(Seq<char>, Seq<Seq<char>>)>, f: Seq<char>) -> bool {
    exists|i: int, j: int| 0 <= i < p.len() && 0 <= j < p[i].1.len() && #[trigger] p[i].1[j] == f
}

/// The files of `all` that the plan does not place, in order.
pub open spec fn unaccounted_of(all: Seq<Seq<char>>, p: Seq<(Seq<char>, Seq<Seq<char>>)>) -> Seq<Seq<char>>
    decreases all.len(),
{
    if all.len() == 0 {
        Seq::empty()
    } else if in_plan(p, all.last()) {
        unaccounted_of(all.drop_last(), p)
    } else {
        unaccounted_of(all.drop_last(), p).push(all.last())
    }
}

/// Whether the plan places `f`.
fn plan_places(plan: &Vec<(String, Vec<String>)>, f: &str) -> (r: bool)
    ensures
        r == in_plan(plan_views(plan@), f@),
{
    let ghost p = plan_views(plan@);
    let mut i: usize = 0;
    while i < plan.len()
        invariant
            i <= plan@.len(),
            p == plan_views(plan@),
            forall|a: int, b: int| 0 <= a < i && 0 <= b < p[a].1.len() ==> p[a].1[b] != f@,
        decreases plan@.len() - i,
    {
        let files = &plan[i].1;
        let mut j: usize = 0;
        while j < files.len()
            invariant
                i < plan@.len(),
                files == plan@[i as int].1,
                p == plan_views(plan@),
                j <= files@.len(),
                forall|a: int, b: int| 0 <= a < i && 0 <= b < p[a].1.len() ==> p[a].1[b] != f@,
                forall|b: int| 0 <= b < j ==> p[i as int].1[b] != f@,
            decreases files@.len() - j,
        {
            assert(p[i as int].1[j as int] == files@[j as int]@);
            if str_eq(files[j].as_str(), f) {
                assert(p[i as int].1[j as int] == f@);
                return true;
            }
            j += 1;
        }
        i += 1;
    }
    false
}

/// The files of the output directory that no committed output takes.
pub fn unaccounted_files(all: &Vec<String>, plan: &Vec<(String, Vec<String>)>) -> (r: Vec<String>)
    ensures
        r@.map_values(|f: String| f@) == unaccounted_of(all@.map_values(|f: String| f@), plan_views(plan@)),
{
    let ghost av = all@.map_values(|f: String| f@);
    let mut out: Vec<String> = Vec::new();
    let mut i: usize = 0;
    while i < all.len()
        invariant
            i <= all@.len(),
            av == all@.map_values(|f: String| f@),
            out@.map_values(|f: String| f@) == unaccounted_of(av.subrange(0, i as int), plan_views(plan@)),
        decreases all@.len() - i,
    {
        proof {
            assert(av.subrange(0, i + 1).drop_last() =~= av.subrange(0, i as int));
            assert(av.subrange(0, i + 1).last() == all@[i as int]@);
        }
        if !plan_places(plan, all[i].as_str()) {
            let ghost before = out@;
            out.push(to_owned_string(all[i].as_str()));
            proof {
                assert(out@.map_values(|f: String| f@) =~= before.map_values(|f: String| f@).push(all@[i as int]@));
            }
        }
        i += 1;
    }
    proof {
        assert(av.subrange(0, all@.len() as int) =~= av);
    }
    out
}

} // verus!
