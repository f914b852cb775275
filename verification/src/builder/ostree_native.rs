//! Reading an OSTree bare-user repository without the `ostree` program.
//!
//! The objects of a repository are read from disk and their GVariant form
//! is decoded by the caller; what they say is made into the values here
//! (hexadecimal checksums, commit metadata), and the walks over the
//! directory trees of a commit (listing, reading one file, checking out)
//! are decided here, one directory at a time.
use vstd::prelude::*;
use crate::builder::system::env_map;
use crate::builder::system::distinct_keys;
use crate::builder::system::env_insert;
use crate::builder::ostree::ObjectStore;
use crate::builder::ostree::path_join;
use crate::builder::ostree::join_path;
use crate::builder::deps::views;
use crate::sorted::seq_lt;
use crate::sorted::str_lt;
use crate::sorted::lemma_seq_lt_trichotomy;
use crate::sorted::lemma_seq_lt_transitive;
use crate::text::contains;
use crate::text::contains_seq;
use crate::text::str_eq;
use crate::text::to_owned_string;
use crate::text::push_str;
use crate::text::push_char;
use crate::text::split_char;
use crate::text::split_seq;
use crate::text::join_range;
use crate::text::join_seq;
use crate::text::lemma_split_nonempty;
use crate::text::utf8_lossy;
use crate::text::before_nul;
use crate::text::bytes_before_nul;
use crate::text::from_utf8;
use crate::text::from_utf8_lossy;
use crate::builder::scan::strip_slashes;
use crate::builder::scan::strip_leading_slashes;

verus! {

broadcast use vstd::seq_lib::to_multiset_insert;

/// A file of a directory tree: its name and the checksum of its content.
pub struct FileEntry {
    pub name: String,
    pub checksum: String,
}

/// A subdirectory of a directory tree: its name, the checksum of its own
/// tree and that of its metadata.
pub struct DirEntry {
    pub name: String,
    pub tree_checksum: String,
    pub meta_checksum: String,
}

/// The contents of a dirtree object.
pub struct DirTree {
    pub files: Vec<FileEntry>,
    pub dirs: Vec<DirEntry>,
}

/// What a commit object says: its string metadata, the checksums of its
/// root tree and root metadata, and its subject.
pub struct CommitInfo {
    /// custom metadata key-value pairs (nex.manifest.hash, etc.), each key
    /// once
    pub metadata: Vec<(String, String)>,
    /// root dirtree checksum (32 bytes as hex)
    pub root_tree: String,
    /// root dirmeta checksum (32 bytes as hex)
    pub root_meta: String,
    /// commit subject
    pub subject: String,
}

/// How a checkout treats files that exist already.
pub struct CheckoutOptions {
    /// merge with existing files instead of failing on conflicts
    pub union: bool,
}

impl Default for CheckoutOptions {
    fn default() -> (r: Self)
        ensures
            r.union,
    {
        Self { union: true }
    }
}

/// The lowercase hexadecimal digit of a value below 16.
pub open spec fn hex_digit(n: int) -> char {
    if n < 10 {
        (48 + n) as char
    } else {
        (87 + n) as char
    }
}

/// Each byte as two lowercase hexadecimal digits, high nibble first.
pub open spec fn hex_text(b: Seq<u8>) -> Seq<char>
    decreases b.len(),
{
    if b.len() == 0 {
        Seq::empty()
    } else {
        hex_text(b.drop_last()) + seq![hex_digit((b.last() / 16) as int), hex_digit((b.last() % 16) as int)]
    }
}

/// `hex::encode`: two lowercase hexadecimal digits per byte, from the table
/// `0123456789abcdef`.
#[verifier::external_body]
pub(crate) fn hex_encode(bytes: &[u8]) -> (r: String)
    ensures
        r@ == hex_text(bytes@),
{
    hex::encode(bytes)
}

/// The texts of the file entries: (name, checksum).
pub open spec fn file_views(v: Seq<FileEntry>) -> Seq<(Seq<char>, Seq<char>)> {
    v.map_values(|f: FileEntry| (f.name@, f.checksum@))
}

/// The texts of the directory entries: (name, tree checksum, meta checksum).
pub open spec fn dir_views(v: Seq<DirEntry>) -> Seq<(Seq<char>, Seq<char>, Seq<char>)> {
    v.map_values(|d: DirEntry| (d.name@, d.tree_checksum@, d.meta_checksum@))
}

/// A dirtree's entries as decoded: names with raw checksums.
pub open spec fn raw_files(v: Seq<(String, Vec<u8>)>) -> Seq<(Seq<char>, Seq<char>)> {
    v.map_values(|f: (String, Vec<u8>)| (f.0@, hex_text(f.1@)))
}

/// A dirtree's subdirectories as decoded: names with raw checksums.
pub open spec fn raw_dirs(v: Seq<(String, Vec<u8>, Vec<u8>)>) -> Seq<(Seq<char>, Seq<char>, Seq<char>)> {
    v.map_values(|d: (String, Vec<u8>, Vec<u8>)| (d.0@, hex_text(d.1@), hex_text(d.2@)))
}

/// The dirtree whose decoded entries are `files` (name, checksum) and
/// `dirs` (name, tree checksum, meta checksum), with the checksums in
/// hexadecimal.
pub fn dirtree_from_entries(
    files: &Vec<(String, Vec<u8>)>,
    dirs: &Vec<(String, Vec<u8>, Vec<u8>)>,
) -> (r: DirTree)
    ensures
        file_views(r.files@) == raw_files(files@),
        dir_views(r.dirs@) == raw_dirs(dirs@),
{
    let mut fs: Vec<FileEntry> = Vec::new();
    let mut i: usize = 0;
    while i < files.len()
        invariant
            i <= files@.len(),
            file_views(fs@) == raw_files(files@).subrange(0, i as int),
        decreases files@.len() - i,
    {
        let ghost before = fs@;
        fs.push(
            FileEntry {
                name: to_owned_string(files[i].0.as_str()),
                checksum: hex_encode(files[i].1.as_slice()),
            },
        );
        proof {
            assert(file_views(fs@) =~= file_views(before).push(file_views(fs@).last()));
            assert(raw_files(files@).subrange(0, i + 1) =~= raw_files(files@).subrange(0, i as int).push(
                raw_files(files@)[i as int],
            ));
        }
        i += 1;
    }
    let mut ds: Vec<DirEntry> = Vec::new();
    let mut j: usize = 0;
    while j < dirs.len()
        invariant
            j <= dirs@.len(),
            dir_views(ds@) == raw_dirs(dirs@).subrange(0, j as int),
        decreases dirs@.len() - j,
    {
        let ghost before = ds@;
        ds.push(
            DirEntry {
                name: to_owned_string(dirs[j].0.as_str()),
                tree_checksum: hex_encode(dirs[j].1.as_slice()),
                meta_checksum: hex_encode(dirs[j].2.as_slice()),
            },
        );
        proof {
            assert(dir_views(ds@) =~= dir_views(before).push(dir_views(ds@).last()));
            assert(raw_dirs(dirs@).subrange(0, j + 1) =~= raw_dirs(dirs@).subrange(0, j as int).push(
                raw_dirs(dirs@)[j as int],
            ));
        }
        j += 1;
    }
    proof {
        assert(raw_files(files@).subrange(0, files@.len() as int) =~= raw_files(files@));
        assert(raw_dirs(dirs@).subrange(0, dirs@.len() as int) =~= raw_dirs(dirs@));
    }
    DirTree { files: fs, dirs: ds }
}

/// The string that a metadata variant holds: for the type `s`, its
/// NUL-terminated bytes when they are valid UTF-8; nothing otherwise.
pub open spec fn variant_text(type_str: Seq<u8>, data: Seq<u8>) -> Option<Seq<char>> {
    if type_str == seq![115u8] && vstd::utf8::valid_utf8(before_nul(data)) {
        Some(vstd::utf8::decode_utf8(before_nul(data)))
    } else {
        None
    }
}

/// The string in a variant of type `type_str` whose serialised data is
/// `data`, if it is a valid string.
pub fn variant_string(type_str: &[u8], data: &[u8]) -> (r: Option<String>)
    ensures
        match r {
            Some(s) => variant_text(type_str@, data@) == Some(s@),
            None => variant_text(type_str@, data@) is None,
        },
{
    if !(type_str.len() == 1 && type_str[0] == 115u8) {
        proof {
            if type_str@ == seq![115u8] {
                assert(type_str@.len() == 1 && type_str@[0] == 115u8);
            }
        }
        return None;
    }
    proof {
        assert(type_str@ =~= seq![115u8]);
    }
    let bytes = bytes_before_nul(data);
    from_utf8(bytes)
}

/// The metadata map of a commit: the string entries of its decoded
/// dictionary, a later key replacing an earlier one.
pub open spec fn metadata_map(entries: Seq<(String, Vec<u8>, Vec<u8>)>) -> Map<Seq<char>, Seq<char>>
    decreases entries.len(),
{
    if entries.len() == 0 {
        Map::empty()
    } else {
        let m = metadata_map(entries.drop_last());
        match variant_text(entries.last().1@, entries.last().2@) {
            Some(v) => m.insert(entries.last().0@, v),
            None => m,
        }
    }
}

/// The commit whose decoded metadata dictionary is `metadata` (key,
/// variant type, variant data), with the given subject and root checksums.
pub fn commit_info_from_parts(
    metadata: &Vec<(String, Vec<u8>, Vec<u8>)>,
    subject: &str,
    root_tree: &[u8],
    root_meta: &[u8],
) -> (r: CommitInfo)
    ensures
        distinct_keys(r.metadata@),
        env_map(r.metadata@) == metadata_map(metadata@),
        r.root_tree@ == hex_text(root_tree@),
        r.root_meta@ == hex_text(root_meta@),
        r.subject@ == subject@,
{
    let mut map: Vec<(String, String)> = Vec::new();
    proof {
        assert(env_map(map@) =~= Map::<Seq<char>, Seq<char>>::empty());
    }
    let mut i: usize = 0;
    while i < metadata.len()
        invariant
            i <= metadata@.len(),
            distinct_keys(map@),
            env_map(map@) == metadata_map(metadata@.subrange(0, i as int)),
        decreases metadata@.len() - i,
    {
        proof {
            assert(metadata@.subrange(0, i + 1).drop_last() =~= metadata@.subrange(0, i as int));
        }
        match variant_string(metadata[i].1.as_slice(), metadata[i].2.as_slice()) {
            Some(v) => env_insert(&mut map, metadata[i].0.as_str(), v.as_str()),
            None => {},
        }
        i += 1;
    }
    proof {
        assert(metadata@.subrange(0, metadata@.len() as int) =~= metadata@);
    }
    CommitInfo {
        metadata: map,
        root_tree: hex_encode(root_tree),
        root_meta: hex_encode(root_meta),
        subject: to_owned_string(subject),
    }
}

/// The value of a metadata key of a commit.
pub fn get_commit_metadata(info: &CommitInfo, key: &str) -> (r: Option<String>)
    requires
        distinct_keys(info.metadata@),
    ensures
        match r {
            Some(v) => env_map(info.metadata@).contains_key(key@) && env_map(info.metadata@)[key@] == v@,
            None => !env_map(info.metadata@).contains_key(key@),
        },
{
    let mut i: usize = 0;
    while i < info.metadata.len()
        invariant
            i <= info.metadata@.len(),
            distinct_keys(info.metadata@),
            forall|j: int| 0 <= j < i ==> info.metadata@[j].0@ != key@,
        decreases info.metadata@.len() - i,
    {
        if str_eq(info.metadata[i].0.as_str(), key) {
            proof {
                lemma_map_lookup(info.metadata@, i as int);
            }
            return Some(to_owned_string(info.metadata[i].1.as_str()));
        }
        i += 1;
    }
    proof {
        lemma_map_absent(info.metadata@, key@);
    }
    None
}

/// A list with distinct keys maps each of its keys to its value.
proof fn lemma_map_lookup(v: Seq<(String, String)>, i: int)
    requires
        distinct_keys(v),
        0 <= i < v.len(),
    ensures
        env_map(v).contains_key(v[i].0@),
        env_map(v)[v[i].0@] == v[i].1@,
    decreases v.len(),
{
    if i < v.len() - 1 {
        lemma_map_lookup(v.drop_last(), i);
    }
}

/// A key that no entry has is not in the map.
proof fn lemma_map_absent(v: Seq<(String, String)>, k: Seq<char>)
    requires
        forall|j: int| 0 <= j < v.len() ==> v[j].0@ != k,
    ensures
        !env_map(v).contains_key(k),
    decreases v.len(),
{
    if v.len() > 0 {
        lemma_map_absent(v.drop_last(), k);
    }
}

/// The refs that a pattern selects: those that contain it, or all.
pub open spec fn selected_refs(names: Seq<Seq<char>>, pattern: Option<Seq<char>>) -> Seq<Seq<char>> {
    match pattern {
        Some(p) => names.filter(|n: Seq<char>| contains_seq(n, p)),
        None => names,
    }
}

/// Texts in order (equal ones side by side).
pub open spec fn texts_sorted(v: Seq<Seq<char>>) -> bool {
    forall|i: int, j: int| 0 <= i < j < v.len() ==> !seq_lt(#[trigger] v[j], #[trigger] v[i])
}

/// Inserts `x` into a sorted list, after the entries equal to it.
fn sorted_insert(v: &mut Vec<String>, x: String)
    requires
        texts_sorted(views(old(v)@)),
    ensures
        texts_sorted(views(final(v)@)),
        views(final(v)@).to_multiset() == views(old(v)@).to_multiset().insert(x@),
{
    let mut i: usize = 0;
    while i < v.len() && !str_lt(x.as_str(), v[i].as_str())
        invariant
            i <= v@.len(),
            forall|k: int| 0 <= k < i ==> !seq_lt(x@, #[trigger] v@[k]@),
        decreases v@.len() - i,
    {
        i += 1;
    }
    let ghost before = v@;
    let ghost xv = x@;
    v.insert(i, x);
    proof {
        assert(views(v@) =~= views(before).insert(i as int, xv));
        assert forall|a: int, b: int| 0 <= a < b < views(v@).len() implies !seq_lt(
            #[trigger] views(v@)[b],
            #[trigger] views(v@)[a],
        ) by {
            if b < i {
                assert(views(v@)[a] == views(before)[a] && views(v@)[b] == views(before)[b]);
            } else if b == i {
                assert(views(v@)[a] == views(before)[a]);
                lemma_seq_lt_trichotomy(xv, before[a]@);
            } else if a < i {
                assert(views(v@)[a] == views(before)[a] && views(v@)[b] == views(before)[b - 1]);
                // before[a] <= x < before[i] <= before[b - 1]
                lemma_seq_lt_trichotomy(xv, before[a]@);
                if seq_lt(before[b - 1]@, before[a]@) {
                    if i < before.len() {
                        assert(seq_lt(xv, before[i as int]@));
                        assert(!seq_lt(views(before)[b - 1], views(before)[i as int]));
                        lemma_seq_lt_trichotomy(before[i as int]@, before[b - 1]@);
                        if before[i as int]@ == before[b - 1]@ {
                            lemma_seq_lt_transitive(xv, before[b - 1]@, before[a]@);
                            lemma_seq_lt_trichotomy(xv, before[a]@);
                        } else {
                            lemma_seq_lt_transitive(xv, before[i as int]@, before[b - 1]@);
                            lemma_seq_lt_transitive(xv, before[b - 1]@, before[a]@);
                            lemma_seq_lt_trichotomy(xv, before[a]@);
                        }
                    }
                }
            } else if a == i {
                assert(views(v@)[b] == views(before)[b - 1]);
                assert(seq_lt(xv, before[i as int]@));
                if i < b - 1 {
                    assert(!seq_lt(views(before)[b - 1], views(before)[i as int]));
                    lemma_seq_lt_trichotomy(before[i as int]@, before[b - 1]@);
                    if before[i as int]@ != before[b - 1]@ {
                        lemma_seq_lt_transitive(xv, before[i as int]@, before[b - 1]@);
                    }
                }
                lemma_seq_lt_trichotomy(xv, before[b - 1]@);
            } else {
                assert(views(v@)[a] == views(before)[a - 1] && views(v@)[b] == views(before)[b - 1]);
            }
        }
    }
}

/// The refs found under `refs/heads` (their paths relative to it), those
/// that contain `pattern` when one is given, in sorted order.
pub fn list_refs(names: &Vec<String>, pattern: Option<&str>) -> (r: Vec<String>)
    ensures
        texts_sorted(views(r@)),
        views(r@).to_multiset() == selected_refs(
            views(names@),
            match pattern {
                Some(p) => Some(p@),
                None => None,
            },
        ).to_multiset(),
{
    let ghost pat = match pattern {
        Some(p) => Some(p@),
        None => None,
    };
    let mut refs: Vec<String> = Vec::new();
    let mut i: usize = 0;
    proof {
        assert(views(refs@) =~= Seq::<Seq<char>>::empty());
        assert(views(names@).subrange(0, 0) =~= Seq::<Seq<char>>::empty());
        assert(selected_refs(Seq::<Seq<char>>::empty(), pat) =~= Seq::<Seq<char>>::empty());
    }
    while i < names.len()
        invariant
            i <= names@.len(),
            pat == match pattern {
                Some(p) => Some(p@),
                None => None::<Seq<char>>,
            },
            texts_sorted(views(refs@)),
            views(refs@).to_multiset() == selected_refs(views(names@).subrange(0, i as int), pat).to_multiset(),
        decreases names@.len() - i,
    {
        let ghost pre = views(names@).subrange(0, i as int);
        let ghost n = names@[i as int]@;
        proof {
            assert(views(names@).subrange(0, i + 1) =~= pre.push(n));
            assert(pre.push(n).drop_last() =~= pre);
        }
        let keep = match pattern {
            Some(p) => contains(names[i].as_str(), p),
            None => true,
        };
        proof {
            assert(views(names@)[i as int] == n);
            assert(pre.push(n).last() == n);
            match pattern {
                Some(p) => {
                    let f = |t: Seq<char>| contains_seq(t, p@);
                    reveal(Seq::filter);
                    assert(keep == f(n));
                    assert(pre.push(n).filter(f) == if f(n) {
                        pre.filter(f).push(n)
                    } else {
                        pre.filter(f)
                    });
                },
                None => {},
            }
            if keep {
                assert(selected_refs(pre.push(n), pat) == selected_refs(pre, pat).push(n));
            } else {
                assert(selected_refs(pre.push(n), pat) == selected_refs(pre, pat));
            }
        }
        if keep {
            sorted_insert(&mut refs, to_owned_string(names[i].as_str()));
            proof {
                vstd::seq_lib::to_multiset_build(selected_refs(pre, pat), n);
            }
        }
        i += 1;
    }
    proof {
        assert(views(names@).subrange(0, names@.len() as int) =~= views(names@));
    }
    refs
}

/// A directory still to be visited: the checksum of its dirtree and its
/// path.
pub struct PendingDir {
    pub tree_checksum: String,
    pub path: String,
}

/// A pending directory as texts: (tree checksum, path).
pub type Frame = (Seq<char>, Seq<char>);

/// The texts of pending directories.
pub open spec fn frames(v: Seq<PendingDir>) -> Seq<Frame> {
    v.map_values(|d: PendingDir| (d.tree_checksum@, d.path@))
}

/// The subdirectories of a tree at `path`, in the tree's order, with their
/// paths.
pub open spec fn child_frames(tree: DirTree, path: Seq<char>) -> Seq<Frame> {
    tree.dirs@.map_values(|d: DirEntry| (d.tree_checksum@, path_join(path, d.name@)))
}

/// `s` in reverse order.
pub open spec fn reversed<A>(s: Seq<A>) -> Seq<A>
    decreases s.len(),
{
    if s.len() == 0 {
        s
    } else {
        reversed(s.drop_first()).push(s[0])
    }
}

/// A depth-first walk over the directories of a commit in the order in
/// which OSTree lists and checks them out: a directory, then each of its
/// subdirectories in turn with everything below it. The directory visited
/// next is the last one pending.
pub struct TreeWalk {
    pub pending: Vec<PendingDir>,
}

impl TreeWalk {
    /// A walk that starts at the root tree `root_tree`, whose path is
    /// `root_path`.
    pub fn new(root_tree: &str, root_path: &str) -> (r: Self)
        ensures
            frames(r.pending@) == seq![(root_tree@, root_path@)],
    {
        let mut pending: Vec<PendingDir> = Vec::new();
        pending.push(
            PendingDir { tree_checksum: to_owned_string(root_tree), path: to_owned_string(root_path) },
        );
        proof {
            assert(frames(pending@) =~= seq![(root_tree@, root_path@)]);
        }
        TreeWalk { pending }
    }

    /// The checksum of the tree to read next, or nothing when the walk is
    /// over.
    pub fn next_tree(&self) -> (r: Option<String>)
        ensures
            match r {
                Some(c) => self.pending@.len() > 0 && c@ == frames(self.pending@).last().0,
                None => self.pending@.len() == 0,
            },
    {
        let n = self.pending.len();
        if n == 0 {
            None
        } else {
            Some(to_owned_string(self.pending[n - 1].tree_checksum.as_str()))
        }
    }

    /// Visits the next directory, whose tree is `tree`: it leaves the
    /// pending ones, and its subdirectories take its place, the first of
    /// them to be visited next. Returns the visited directory.
    pub fn visit(&mut self, tree: &DirTree) -> (r: PendingDir)
        requires
            old(self).pending@.len() > 0,
        ensures
            (r.tree_checksum@, r.path@) == frames(old(self).pending@).last(),
            frames(final(self).pending@) == frames(old(self).pending@).drop_last() + reversed(
                child_frames(*tree, r.path@),
            ),
    {
        let top = self.pending.pop().unwrap();
        let ghost base = frames(self.pending@);
        let n = tree.dirs.len();
        let mut k: usize = n;
        while k > 0
            invariant
                k <= n,
                n == tree.dirs@.len(),
                frames(self.pending@) == base + reversed(child_frames(*tree, top.path@).subrange(k as int, n as int)),
            decreases k,
        {
            let ghost cs = child_frames(*tree, top.path@);
            let d = &tree.dirs[k - 1];
            let ghost before = frames(self.pending@);
            self.pending.push(
                PendingDir {
                    tree_checksum: to_owned_string(d.tree_checksum.as_str()),
                    path: join_path(top.path.as_str(), d.name.as_str()),
                },
            );
            proof {
                assert(frames(self.pending@) =~= before.push(cs[k - 1]));
                let tail = cs.subrange(k - 1, n as int);
                assert(tail.drop_first() =~= cs.subrange(k as int, n as int));
                assert(tail[0] == cs[k - 1]);
                assert(reversed(tail) == reversed(tail.drop_first()).push(tail[0]));
                assert(frames(self.pending@) =~= base + reversed(tail));
            }
            k -= 1;
        }
        proof {
            assert(child_frames(*tree, top.path@).subrange(0, n as int) =~= child_frames(*tree, top.path@));
        }
        top
    }
}

/// A rank for every tree of `trees` that is higher than the ranks of its
/// subdirectories' trees, which `trees` holds too: the trees form no cycle.
pub open spec fn ranked(trees: Map<Seq<char>, DirTree>, rank: Map<Seq<char>, nat>) -> bool {
    forall|c: Seq<char>|
        #[trigger] trees.contains_key(c) ==> rank.contains_key(c) && forall|i: int|
            0 <= i < trees[c].dirs@.len() ==> {
                let t = #[trigger] trees[c].dirs@[i].tree_checksum@;
                trees.contains_key(t) && rank.contains_key(t) && rank[t] < rank[c]
            }
}

/// The rank of a tree, or 0 for one that has none.
pub open spec fn rank_of(rank: Map<Seq<char>, nat>, c: Seq<char>) -> nat {
    if rank.contains_key(c) {
        rank[c]
    } else {
        0
    }
}

/// The directories below a tree, in the order of the recursive walk: the
/// tree itself, then each subdirectory's walk in turn.
pub open spec fn walk_from(
    trees: Map<Seq<char>, DirTree>,
    rank: Map<Seq<char>, nat>,
    f: Frame,
) -> Seq<Frame>
    decreases rank_of(rank, f.0) + 1, 0nat,
{
    seq![f] + walk_children(trees, rank, child_frames(trees[f.0], f.1), rank_of(rank, f.0))
}

/// The walks of `cs` one after the other; only trees ranked below `bound`
/// are followed.
pub open spec fn walk_children(
    trees: Map<Seq<char>, DirTree>,
    rank: Map<Seq<char>, nat>,
    cs: Seq<Frame>,
    bound: nat,
) -> Seq<Frame>
    decreases bound, cs.len(),
{
    if cs.len() == 0 {
        Seq::empty()
    } else if rank_of(rank, cs[0].0) < bound {
        walk_from(trees, rank, cs[0]) + walk_children(trees, rank, cs.drop_first(), bound)
    } else {
        walk_children(trees, rank, cs.drop_first(), bound)
    }
}

/// The order in which a walk with pending directories `p` visits what is
/// left: the walk of the last pending directory first.
pub open spec fn walk_order(trees: Map<Seq<char>, DirTree>, rank: Map<Seq<char>, nat>, p: Seq<Frame>) -> Seq<Frame>
    decreases p.len(),
{
    if p.len() == 0 {
        Seq::empty()
    } else {
        walk_from(trees, rank, p.last()) + walk_order(trees, rank, p.drop_last())
    }
}

/// Pushing directories in reverse puts their walks, in order, in front of
/// what was pending.
proof fn lemma_order_push_reversed(
    trees: Map<Seq<char>, DirTree>,
    rank: Map<Seq<char>, nat>,
    base: Seq<Frame>,
    cs: Seq<Frame>,
    bound: nat,
)
    requires
        forall|i: int| 0 <= i < cs.len() ==> rank_of(rank, #[trigger] cs[i].0) < bound,
    ensures
        walk_order(trees, rank, base + reversed(cs)) == walk_children(trees, rank, cs, bound) + walk_order(
            trees,
            rank,
            base,
        ),
    decreases cs.len(),
{
    if cs.len() == 0 {
        assert(base + reversed(cs) =~= base);
        assert(walk_children(trees, rank, cs, bound) =~= Seq::<Frame>::empty());
        assert(Seq::<Frame>::empty() + walk_order(trees, rank, base) =~= walk_order(trees, rank, base));
    } else {
        let rest = cs.drop_first();
        assert forall|i: int| 0 <= i < rest.len() implies rank_of(rank, #[trigger] rest[i].0) < bound by {
            assert(rest[i] == cs[i + 1]);
        }
        lemma_order_push_reversed(trees, rank, base, rest, bound);
        let p = base + reversed(cs);
        assert(reversed(cs) == reversed(rest).push(cs[0]));
        assert(p =~= (base + reversed(rest)).push(cs[0]));
        assert(p.last() == cs[0]);
        assert(p.drop_last() =~= base + reversed(rest));
        assert(rank_of(rank, cs[0].0) < bound);
        assert(walk_children(trees, rank, cs, bound) == walk_from(trees, rank, cs[0]) + walk_children(
            trees,
            rank,
            rest,
            bound,
        ));
        assert(walk_order(trees, rank, p) =~= walk_children(trees, rank, cs, bound) + walk_order(
            trees,
            rank,
            base,
        ));
    }
}

/// The walk visits directories in the order of the recursive walk: when
/// the next directory is visited with the tree that the repository holds
/// for it, it is the first of the order, and the order of what is then
/// pending is the rest.
pub proof fn lemma_visit_keeps_order(
    trees: Map<Seq<char>, DirTree>,
    rank: Map<Seq<char>, nat>,
    before: Seq<Frame>,
    after: Seq<Frame>,
)
    requires
        ranked(trees, rank),
        before.len() > 0,
        trees.contains_key(before.last().0),
        after == before.drop_last() + reversed(child_frames(trees[before.last().0], before.last().1)),
    ensures
        walk_order(trees, rank, before) == seq![before.last()] + walk_order(trees, rank, after),
{
    let top = before.last();
    let t = trees[top.0];
    let cs = child_frames(t, top.1);
    assert forall|i: int| 0 <= i < cs.len() implies rank_of(rank, #[trigger] cs[i].0) < rank_of(rank, top.0) by {
        assert(cs[i].0 == t.dirs@[i].tree_checksum@);
    }
    lemma_order_push_reversed(trees, rank, before.drop_last(), cs, rank_of(rank, top.0));
    assert(walk_from(trees, rank, top) == seq![top] + walk_children(trees, rank, cs, rank_of(rank, top.0)));
    assert(walk_order(trees, rank, before) =~= seq![before.last()] + walk_order(trees, rank, after));
}

/// The lines that `ostree ls` prints for a visited directory: its own
/// path with a trailing `/` (but for the root), then its files' paths.
pub open spec fn ls_lines_of(path: Seq<char>, is_root: bool, tree: DirTree) -> Seq<Seq<char>> {
    let files = tree.files@.map_values(|f: FileEntry| path_join(path, f.name@));
    if is_root {
        files
    } else {
        seq![path + "/"@] + files
    }
}

/// The lines listed for a visited directory (`is_root` for the commit's
/// root, whose path is empty).
pub fn ls_lines(dir: &PendingDir, is_root: bool, tree: &DirTree) -> (r: Vec<String>)
    ensures
        views(r@) == ls_lines_of(dir.path@, is_root, *tree),
{
    let mut lines: Vec<String> = Vec::new();
    if !is_root {
        let mut header = to_owned_string(dir.path.as_str());
        push_char(&mut header, '/');
        proof {
            reveal_strlit("/");
            assert(header@ =~= dir.path@ + "/"@);
        }
        lines.push(header);
    }
    let ghost start = views(lines@);
    let ghost files = tree.files@.map_values(|f: FileEntry| path_join(dir.path@, f.name@));
    let mut i: usize = 0;
    while i < tree.files.len()
        invariant
            i <= tree.files@.len(),
            files == tree.files@.map_values(|f: FileEntry| path_join(dir.path@, f.name@)),
            views(lines@) == start + files.subrange(0, i as int),
        decreases tree.files@.len() - i,
    {
        let ghost before = views(lines@);
        lines.push(join_path(dir.path.as_str(), tree.files[i].name.as_str()));
        proof {
            assert(views(lines@) =~= before.push(files[i as int]));
            assert(files.subrange(0, i + 1) =~= files.subrange(0, i as int).push(files[i as int]));
        }
        i += 1;
    }
    proof {
        assert(files.subrange(0, tree.files@.len() as int) =~= files);
        if is_root {
            assert(start =~= Seq::<Seq<char>>::empty());
        }
    }
    lines
}

/// A file that a checkout places: the checksum of its object, its
/// destination, and whether an existing file there is kept.
pub struct Placement {
    pub checksum: String,
    pub dest: String,
    pub keep_existing: bool,
}

/// The texts of the placements: (checksum, destination, keep existing).
pub open spec fn placement_views(v: Seq<Placement>) -> Seq<(Seq<char>, Seq<char>, bool)> {
    v.map_values(|p: Placement| (p.checksum@, p.dest@, p.keep_existing))
}

/// What the checkout of a visited directory places: each of its files
/// below the directory's path, kept where one exists in a union checkout.
pub open spec fn placements_of(path: Seq<char>, tree: DirTree, union: bool) -> Seq<(Seq<char>, Seq<char>, bool)> {
    tree.files@.map_values(|f: FileEntry| (f.checksum@, path_join(path, f.name@), union))
}

/// The files that checking out a visited directory places (after the
/// directory itself is created).
pub fn checkout_plan(dir: &PendingDir, tree: &DirTree, options: &CheckoutOptions) -> (r: Vec<Placement>)
    ensures
        placement_views(r@) == placements_of(dir.path@, *tree, options.union),
{
    let ghost all = placements_of(dir.path@, *tree, options.union);
    let mut plan: Vec<Placement> = Vec::new();
    let mut i: usize = 0;
    while i < tree.files.len()
        invariant
            i <= tree.files@.len(),
            all == placements_of(dir.path@, *tree, options.union),
            placement_views(plan@) == all.subrange(0, i as int),
        decreases tree.files@.len() - i,
    {
        let ghost before = placement_views(plan@);
        plan.push(
            Placement {
                checksum: to_owned_string(tree.files[i].checksum.as_str()),
                dest: join_path(dir.path.as_str(), tree.files[i].name.as_str()),
                keep_existing: options.union,
            },
        );
        proof {
            assert(placement_views(plan@) =~= before.push(all[i as int]));
            assert(all.subrange(0, i + 1) =~= all.subrange(0, i as int).push(all[i as int]));
        }
        i += 1;
    }
    proof {
        assert(all.subrange(0, tree.files@.len() as int) =~= all);
    }
    plan
}

/// The next step of reading a file out of a commit, from one dirtree.
pub enum CatStep {
    /// The file is in this directory: read the object with this checksum.
    ReadFile(String),
    /// Go on in the subdirectory with this tree checksum, with the rest of
    /// the path.
    Descend(String, String),
    /// No file of that name here: "file not found: {path}".
    FileNotFound(String),
    /// No subdirectory of that name here: "directory not found: {name}".
    DirNotFound(String),
}

/// The first file of `files` named `name`.
pub open spec fn first_named_file(files: Seq<FileEntry>, name: Seq<char>, i: int) -> bool {
    0 <= i < files.len() && files[i].name@ == name && forall|j: int| 0 <= j < i ==> files[j].name@ != name
}

/// The first subdirectory of `dirs` named `name`.
pub open spec fn first_named_dir(dirs: Seq<DirEntry>, name: Seq<char>, i: int) -> bool {
    0 <= i < dirs.len() && dirs[i].name@ == name && forall|j: int| 0 <= j < i ==> dirs[j].name@ != name
}

/// The step that reading `path` (leading slashes dropped, then split at
/// `/`) takes in `tree`.
pub open spec fn cat_step_ok(tree: DirTree, path: Seq<char>, r: CatStep) -> bool {
    let p = strip_slashes(path);
    let parts = split_seq(p, '/');
    if parts.len() == 1 {
        match r {
            CatStep::ReadFile(c) => exists|i: int|
                first_named_file(tree.files@, p, i) && #[trigger] tree.files@[i].checksum@ == c@,
            CatStep::FileNotFound(m) => m@ == p && forall|i: int|
                0 <= i < tree.files@.len() ==> #[trigger] tree.files@[i].name@ != p,
            _ => false,
        }
    } else {
        let name = parts[0];
        match r {
            CatStep::Descend(t, rest) => rest@ == join_seq(parts.drop_first(), "/"@) && exists|i: int|
                first_named_dir(tree.dirs@, name, i) && #[trigger] tree.dirs@[i].tree_checksum@ == t@,
            CatStep::DirNotFound(n) => n@ == name && forall|i: int|
                0 <= i < tree.dirs@.len() ==> #[trigger] tree.dirs@[i].name@ != name,
            _ => false,
        }
    }
}

/// The step that reading the file at `path` takes in the directory `tree`.
pub fn cat_step(tree: &DirTree, path: &str) -> (r: CatStep)
    ensures
        cat_step_ok(*tree, path@, r),
{
    let p = strip_leading_slashes(path);
    let parts = split_char(p.as_str(), '/');
    proof {
        lemma_split_nonempty(p@, '/');
    }
    if parts.len() == 1 {
        let mut i: usize = 0;
        while i < tree.files.len()
            invariant
                i <= tree.files@.len(),
                p@ == strip_slashes(path@),
                parts.deep_view() == split_seq(p@, '/'),
                parts@.len() == 1,
                forall|j: int| 0 <= j < i ==> #[trigger] tree.files@[j].name@ != p@,
            decreases tree.files@.len() - i,
        {
            if str_eq(tree.files[i].name.as_str(), p.as_str()) {
                let c = to_owned_string(tree.files[i].checksum.as_str());
                proof {
                    assert(first_named_file(tree.files@, p@, i as int));
                }
                return CatStep::ReadFile(c);
            }
            i += 1;
        }
        return CatStep::FileNotFound(p);
    }
    let name = parts[0].as_str();
    let ghost pv = parts.deep_view();
    proof {
        assert(pv[0] == name@);
    }
    let mut i: usize = 0;
    while i < tree.dirs.len()
        invariant
            i <= tree.dirs@.len(),
            p@ == strip_slashes(path@),
            parts.deep_view() == split_seq(p@, '/'),
            pv == parts.deep_view(),
            parts@.len() >= 2,
            pv[0] == name@,
            forall|j: int| 0 <= j < i ==> #[trigger] tree.dirs@[j].name@ != name@,
        decreases tree.dirs@.len() - i,
    {
        if str_eq(tree.dirs[i].name.as_str(), name) {
            let rest = join_range(&parts, 1, parts.len(), "/");
            proof {
                assert(pv.subrange(1, pv.len() as int) =~= pv.drop_first());
                assert(first_named_dir(tree.dirs@, name@, i as int));
            }
            return CatStep::Descend(to_owned_string(tree.dirs[i].tree_checksum.as_str()), rest);
        }
        i += 1;
    }
    CatStep::DirNotFound(to_owned_string(name))
}

/// A native OSTree bare-user repository: its path and its object store.
pub struct OstreeRepo {
    pub path: String,
    pub objects: ObjectStore,
}

/// Why a directory is not an OSTree repository.
pub open spec fn not_a_repo(path: Seq<char>, missing: Seq<char>) -> Seq<char> {
    "not an OSTree repository: "@ + path + " (missing "@ + missing + ")"@
}

impl OstreeRepo {
    /// Opens the repository at `path`; `has_config` and `has_objects` tell
    /// whether its `config` file and `objects` directory exist.
    pub fn open(path: &str, has_config: bool, has_objects: bool) -> (r: Result<OstreeRepo, String>)
        ensures
            !has_config ==> (r matches Err(e) && e@ == not_a_repo(path@, "config"@)),
            has_config && !has_objects ==> (r matches Err(e) && e@ == not_a_repo(path@, "objects"@)),
            has_config && has_objects ==> (r matches Ok(repo) && repo.path@ == path@
                && repo.objects.objects_dir@ == path_join(path@, "objects"@)),
    {
        if !has_config || !has_objects {
            let missing = if !has_config {
                "config"
            } else {
                "objects"
            };
            let mut e = to_owned_string("not an OSTree repository: ");
            push_str(&mut e, path);
            push_str(&mut e, " (missing ");
            push_str(&mut e, missing);
            push_str(&mut e, ")");
            return Err(e);
        }
        let objects = ObjectStore::new(join_path(path, "objects"));
        Ok(OstreeRepo { path: to_owned_string(path), objects })
    }

    /// The file under `refs/heads` that holds the checksum of a ref.
    pub fn ref_path(&self, ref_name: &str) -> (r: String)
        ensures
            r@ == path_join(path_join(self.path@, "refs/heads"@), ref_name@),
    {
        let heads = join_path(self.path.as_str(), "refs/heads");
        join_path(heads.as_str(), ref_name)
    }

    /// The refs found under `refs/heads` that match `pattern`, sorted.
    pub fn refs(&self, names: &Vec<String>, pattern: Option<&str>) -> (r: Vec<String>)
        ensures
            texts_sorted(views(r@)),
            views(r@).to_multiset() == selected_refs(
                views(names@),
                match pattern {
                    Some(p) => Some(p@),
                    None => None,
                },
            ).to_multiset(),
    {
        list_refs(names, pattern)
    }

    /// A metadata value of a commit.
    pub fn get_metadata(&self, info: &CommitInfo, key: &str) -> (r: Option<String>)
        requires
            distinct_keys(info.metadata@),
        ensures
            match r {
                Some(v) => env_map(info.metadata@).contains_key(key@) && env_map(info.metadata@)[key@] == v@,
                None => !env_map(info.metadata@).contains_key(key@),
            },
    {
        get_commit_metadata(info, key)
    }
}

/// What a repository object is, by its mode: a symlink, a regular file, or
/// a type that a checkout does not support (its type bits).
pub enum FileKind {
    Symlink,
    Regular,
    Unsupported(u32),
}

/// The file type bits of a mode.
pub open spec fn file_type_bits(mode: u32) -> u32 {
    mode & 0o170000u32
}

/// The kind of an object whose mode is `mode`.
pub fn file_kind(mode: u32) -> (r: FileKind)
    ensures
        file_type_bits(mode) == 0o120000u32 ==> r is Symlink,
        file_type_bits(mode) == 0o100000u32 ==> r is Regular,
        file_type_bits(mode) != 0o120000u32 && file_type_bits(mode) != 0o100000u32 ==> r
            == FileKind::Unsupported(file_type_bits(mode)),
{
    let t = mode & 0o170000u32;
    if t == 0o120000u32 {
        FileKind::Symlink
    } else if t == 0o100000u32 {
        FileKind::Regular
    } else {
        FileKind::Unsupported(t)
    }
}

/// The mode in a `user.ostreemeta` attribute: the big-endian word at
/// offset 8, after the owner and group.
pub open spec fn meta_mode(b: Seq<u8>) -> int {
    b[8] * 16777216 + b[9] * 65536 + b[10] * 256 + b[11]
}

/// The mode that the `user.ostreemeta` attribute of an object holds;
/// nothing when fewer than its 12 bytes were read.
pub fn ostreemeta_mode(meta: &[u8]) -> (r: Option<u32>)
    ensures
        meta@.len() < 12 ==> r is None,
        meta@.len() >= 12 ==> (r matches Some(m) && m == meta_mode(meta@)),
{
    if meta.len() < 12 {
        return None;
    }
    let m: u32 = (meta[8] as u32) * 16777216 + (meta[9] as u32) * 65536 + (meta[10] as u32) * 256
        + (meta[11] as u32);
    Some(m)
}

/// `s` without trailing NUL characters.
pub open spec fn trim_nuls(s: Seq<char>) -> Seq<char>
    decreases s.len(),
{
    if s.len() > 0 && s.last() == '\0' {
        trim_nuls(s.drop_last())
    } else {
        s
    }
}

/// The target of a symlink object: its content as text, without trailing
/// NULs.
pub fn symlink_target(data: &[u8]) -> (r: String)
    ensures
        r@ == trim_nuls(utf8_lossy(data@)),
{
    let text = from_utf8_lossy(data);
    let n = text.unicode_len();
    let mut k: usize = n;
    proof {
        assert(text@.subrange(0, n as int) =~= text@);
    }
    while k > 0 && text.as_str().get_char(k - 1) == '\0'
        invariant
            n == text@.len(),
            k <= n,
            trim_nuls(text@.subrange(0, k as int)) == trim_nuls(text@),
        decreases k,
    {
        proof {
            assert(text@.subrange(0, k as int).drop_last() =~= text@.subrange(0, k - 1));
        }
        k -= 1;
    }
    proof {
        let t = text@.subrange(0, k as int);
        assert(trim_nuls(t) == t);
    }
    text.as_str().substring_char(0, k).to_owned()
}

} // verus!
