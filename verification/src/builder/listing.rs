//! The listings that the OSTree command line prints, read into the provider
//! index of the runtime scanner.
//!
//! The builder runs `ostree refs --list` and `ostree ls --recursive` on the
//! dependencies of a package; what they print is decided on here.
use vstd::prelude::*;
use crate::builder::runtime::ProviderIndex;
use crate::builder::runtime::index_added;
use crate::builder::runtime::file_name_of;
use crate::builder::utils::category_of;
use crate::builder::utils::determine_category;
use crate::builder::deps::views;
use crate::text::find_seq;
use crate::text::find_str;
use crate::text::before_seq;
use crate::text::before_str;
use crate::text::substring;
use crate::text::lines;
use crate::text::lines_seq;
use crate::text::trim;
use crate::text::trim_seq;
use crate::text::str_eq;
use crate::text::to_owned_string;
use crate::text::push_str;

verus! {

/// The path named by a line of `ostree ls --recursive` that lists a file
/// (`-`) or a symlink (`l`): the text from the first ` /` on, cut before
/// ` -> ` (where a symlink's target follows).
pub open spec fn ls_entry_path(line: Seq<char>) -> Option<Seq<char>> {
    if line.len() == 0 || (line[0] != '-' && line[0] != 'l') {
        None
    } else {
        match find_seq(line, " /"@) {
            Some(i) => Some(before_seq(line.subrange(i + 1, line.len() as int), " -> "@)),
            None => None,
        }
    }
}

/// The path that a line of `ostree ls --recursive` lists, if it lists a
/// file or a symlink.
pub fn listing_entry_path(line: &str) -> (r: Option<String>)
    ensures
        match r {
            Some(p) => ls_entry_path(line@) == Some(p@),
            None => ls_entry_path(line@) is None,
        },
{
    let n = line.unicode_len();
    if n == 0 {
        return None;
    }
    let kind = line.get_char(0);
    if kind != '-' && kind != 'l' {
        return None;
    }
    proof {
        reveal_strlit(" /");
    }
    match find_str(line, " /") {
        Some(i) => {
            let raw = substring(line, i + 1, n);
            Some(before_str(raw.as_str(), " -> "))
        },
        None => None,
    }
}

/// The branch that a listed file is indexed under: the dependency's output
/// branch for the file's category when that branch exists, else the
/// dependency itself.
pub open spec fn provider_branch(
    prefix: Seq<char>,
    dep: Seq<char>,
    outputs: Seq<Seq<char>>,
    path: Seq<char>,
) -> Seq<char> {
    let b = prefix + "/outputs/"@ + category_of(path);
    if outputs.contains(b) {
        b
    } else {
        dep
    }
}

/// The (branch, path) entries that the lines of a listing give.
pub open spec fn listing_entries(
    lines: Seq<Seq<char>>,
    prefix: Seq<char>,
    dep: Seq<char>,
    outputs: Seq<Seq<char>>,
) -> Seq<(Seq<char>, Seq<char>)>
    decreases lines.len(),
{
    if lines.len() == 0 {
        Seq::empty()
    } else {
        let e = listing_entries(lines.drop_last(), prefix, dep, outputs);
        match ls_entry_path(lines.last()) {
            Some(p) => e.push((provider_branch(prefix, dep, outputs, p), p)),
            None => e,
        }
    }
}

/// The two maps of a provider index: by file name and by full path.
pub type IndexView = (
    Map<Seq<char>, Seq<(Seq<char>, Seq<char>)>>,
    Map<Seq<char>, Seq<(Seq<char>, Seq<char>)>>,
);

/// The maps of an index.
pub open spec fn index_maps(idx: ProviderIndex) -> IndexView {
    (idx.basename_view(), idx.full_path_view())
}

/// The maps after `ProviderIndex::add_entry` of `commit` for `path`.
pub open spec fn index_add(m: IndexView, commit: Seq<char>, path: Seq<char>) -> IndexView {
    (
        match file_name_of(path) {
            Some(n) => index_added(m.0, n, (commit, path)),
            None => m.0,
        },
        index_added(m.1, path, (commit, path)),
    )
}

/// The maps after each entry is added in turn.
pub open spec fn index_add_all(m: IndexView, entries: Seq<(Seq<char>, Seq<char>)>) -> IndexView
    decreases entries.len(),
{
    if entries.len() == 0 {
        m
    } else {
        let r = index_add_all(m, entries.drop_last());
        index_add(r, entries.last().0, entries.last().1)
    }
}

/// Whether `v` holds `s`.
fn holds_str(v: &Vec<String>, s: &str) -> (r: bool)
    ensures
        r == views(v@).contains(s@),
{
    let mut i: usize = 0;
    while i < v.len()
        invariant
            i <= v@.len(),
            forall|j: int| 0 <= j < i ==> v@[j]@ != s@,
        decreases v@.len() - i,
    {
        if str_eq(v[i].as_str(), s) {
            assert(views(v@)[i as int] == s@);
            return true;
        }
        i += 1;
    }
    assert forall|j: int| 0 <= j < views(v@).len() implies views(v@)[j] != s@ by {
        assert(views(v@)[j] == v@[j]@);
    }
    false
}

/// Adds to `index` every file and symlink that the `ostree ls --recursive`
/// listing of dependency `dep` names; `prefix` is the dependency's package
/// prefix and `outputs` the output branches that exist under it.
pub fn index_listing(
    index: &mut ProviderIndex,
    listing: &str,
    prefix: &str,
    dep: &str,
    outputs: &Vec<String>,
)
    requires
        old(index).wf(),
    ensures
        final(index).wf(),
        index_maps(*final(index)) == index_add_all(
            index_maps(*old(index)),
            listing_entries(lines_seq(listing@), prefix@, dep@, views(outputs@)),
        ),
{
    let ls = lines(listing);
    let ghost ln = lines_seq(listing@);
    let ghost start = index_maps(*index);
    let mut i: usize = 0;
    while i < ls.len()
        invariant
            index.wf(),
            ls.deep_view() == ln,
            i <= ls@.len(),
            index_maps(*index) == index_add_all(
                start,
                listing_entries(ln.subrange(0, i as int), prefix@, dep@, views(outputs@)),
            ),
        decreases ls@.len() - i,
    {
        proof {
            assert(ln.subrange(0, i + 1).drop_last() =~= ln.subrange(0, i as int));
            assert(ln.subrange(0, i + 1).last() == ls@[i as int]@);
        }
        match listing_entry_path(ls[i].as_str()) {
            Some(path) => {
                let category = determine_category(path.as_str());
                let mut branch = to_owned_string(prefix);
                push_str(&mut branch, "/outputs/");
                push_str(&mut branch, category.as_str());
                let commit = if holds_str(outputs, branch.as_str()) {
                    branch
                } else {
                    to_owned_string(dep)
                };
                let ghost before = index_maps(*index);
                let ghost entries = listing_entries(ln.subrange(0, i as int), prefix@, dep@, views(outputs@));
                index.add_entry(commit.as_str(), path);
                proof {
                    let e2 = listing_entries(ln.subrange(0, i + 1), prefix@, dep@, views(outputs@));
                    assert(e2 == entries.push((commit@, path@)));
                    assert(e2.drop_last() =~= entries);
                }
            },
            None => {},
        }
        i += 1;
    }
    proof {
        assert(ln.subrange(0, ls@.len() as int) =~= ln);
    }
}

/// The refs that `ostree refs --list` prints: its lines, trimmed, without
/// the empty ones.
pub open spec fn listed_refs(lines: Seq<Seq<char>>) -> Seq<Seq<char>>
    decreases lines.len(),
{
    if lines.len() == 0 {
        Seq::empty()
    } else {
        let r = listed_refs(lines.drop_last());
        let t = trim_seq(lines.last());
        if t.len() == 0 {
            r
        } else {
            r.push(t)
        }
    }
}

/// The refs named by the output of `ostree refs --list`.
pub fn output_refs(stdout: &str) -> (r: Vec<String>)
    ensures
        views(r@) == listed_refs(lines_seq(stdout@)),
{
    let ls = lines(stdout);
    let ghost ln = lines_seq(stdout@);
    let mut refs: Vec<String> = Vec::new();
    let mut i: usize = 0;
    while i < ls.len()
        invariant
            ls.deep_view() == ln,
            i <= ls@.len(),
            views(refs@) == listed_refs(ln.subrange(0, i as int)),
        decreases ls@.len() - i,
    {
        proof {
            assert(ln.subrange(0, i + 1).drop_last() =~= ln.subrange(0, i as int));
            assert(ln.subrange(0, i + 1).last() == ls@[i as int]@);
        }
        let t = trim(ls[i].as_str());
        if t.unicode_len() > 0 {
            let ghost before = refs@;
            refs.push(t);
            proof {
                assert(views(refs@) =~= views(before).push(refs@[before.len() as int]@));
            }
        }
        i += 1;
    }
    proof {
        assert(ln.subrange(0, ls@.len() as int) =~= ln);
    }
    refs
}

/// The package prefix of a dependency's ref: what comes before its
/// `/outputs/` part, else before its `/bundles/` part, else the ref.
pub open spec fn ref_prefix_of(dep: Seq<char>) -> Seq<char> {
    if find_seq(dep, "/outputs/"@) is Some {
        before_seq(dep, "/outputs/"@)
    } else if find_seq(dep, "/bundles/"@) is Some {
        before_seq(dep, "/bundles/"@)
    } else {
        dep
    }
}

/// The package prefix of a dependency's ref, under which its output
/// branches lie.
pub fn ref_package_prefix(dep: &str) -> (r: String)
    ensures
        r@ == ref_prefix_of(dep@),
{
    if find_str(dep, "/outputs/").is_some() {
        before_str(dep, "/outputs/")
    } else if find_str(dep, "/bundles/").is_some() {
        before_str(dep, "/bundles/")
    } else {
        to_owned_string(dep)
    }
}

} // verus!
