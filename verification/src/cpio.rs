//! In-memory builder of SVR4 "newc" cpio archives, the initramfs format that
//! the Linux kernel unpacks.
//!
//! Every entry is a 110-byte ASCII header (six magic characters and thirteen
//! eight-digit lowercase hexadecimal fields), the NUL-terminated path, padding
//! to a four-byte boundary, the content and padding again.
use vstd::prelude::*;
use vstd::string::StringSliceAdditionalSpecFns;

verus! {

/// The ASCII byte of the lowercase hexadecimal digit `d` (`d < 16`).
pub open spec fn hex_digit(d: nat) -> u8 {
    if d < 10 {
        (48 + d) as u8
    } else {
        (87 + d) as u8
    }
}

/// `v` in lowercase hexadecimal, zero-padded to at least `width` digits, as
/// `format!("{:0width$x}", v)` writes it.
pub open spec fn hex_field(v: nat, width: nat) -> Seq<u8>
    decreases width, v,
{
    if width == 0 {
        if v == 0 {
            Seq::<u8>::empty()
        } else {
            hex_field(v / 16, 0).push(hex_digit(v % 16))
        }
    } else {
        hex_field(v / 16, (width - 1) as nat).push(hex_digit(v % 16))
    }
}

/// `s` followed by zero bytes up to the next multiple of four.
pub open spec fn pad4(s: Seq<u8>) -> Seq<u8> {
    s + Seq::new(((4 - s.len() % 4) % 4) as nat, |i: int| 0u8)
}

/// The magic of the newc format, "070701".
pub open spec fn newc_magic() -> Seq<u8> {
    seq![48u8, 55u8, 48u8, 55u8, 48u8, 49u8]
}

/// The header of an entry: magic, then inode 0, `mode`, uid 0, gid 0, one
/// link, mtime 0, `size`, four zero device numbers, `namesize` and check 0.
pub open spec fn newc_header(mode: nat, size: nat, namesize: nat) -> Seq<u8> {
    newc_magic() + hex_field(0, 8) + hex_field(mode, 8) + hex_field(0, 8) + hex_field(0, 8)
        + hex_field(1, 8) + hex_field(0, 8) + hex_field(size, 8) + hex_field(0, 8) + hex_field(
        0,
        8,
    ) + hex_field(0, 8) + hex_field(0, 8) + hex_field(namesize, 8) + hex_field(0, 8)
}

/// The archive `data` after one entry for the path bytes `path` is appended.
pub open spec fn with_entry(data: Seq<u8>, path: Seq<u8>, content: Seq<u8>, mode: nat, size: nat) -> Seq<
    u8,
> {
    pad4(pad4(data + newc_header(mode, size, path.len() + 1) + path.push(0u8)) + content)
}

/// The byte `/`.
pub open spec fn slash() -> u8 {
    47u8
}

/// The pieces of `p` between `/` bytes, as `split('/')` yields them.
pub open spec fn split_slash(p: Seq<u8>) -> Seq<Seq<u8>>
    decreases p.len(),
{
    if p.len() == 0 {
        seq![Seq::<u8>::empty()]
    } else {
        let q = split_slash(p.drop_last());
        if p.last() == slash() {
            q.push(Seq::<u8>::empty())
        } else {
            q.update(q.len() - 1, q.last().push(p.last()))
        }
    }
}

/// After the first `k` pieces of a path: the directory path built so far and
/// the archive with one directory entry per non-empty piece.
pub open spec fn parents_after(data: Seq<u8>, parts: Seq<Seq<u8>>, k: nat) -> (Seq<u8>, Seq<u8>)
    decreases k,
{
    if k == 0 {
        (Seq::<u8>::empty(), data)
    } else {
        let (cur, d) = parents_after(data, parts, (k - 1) as nat);
        let part = parts[k - 1];
        if part.len() == 0 {
            (cur, d)
        } else {
            let next = if cur.len() == 0 {
                part
            } else {
                cur.push(slash()) + part
            };
            (next, with_entry(d, next, Seq::<u8>::empty(), 0o040755, 0))
        }
    }
}

/// The archive `data` after a directory entry for every ancestor of `path`.
pub open spec fn with_parents(data: Seq<u8>, path: Seq<u8>) -> Seq<u8> {
    let parts = split_slash(path);
    parents_after(data, parts, (parts.len() - 1) as nat).1
}

/// The archive `data` after `add_file(path, content, mode)`.
pub open spec fn with_file(data: Seq<u8>, path: Seq<u8>, content: Seq<u8>, mode: u32) -> Seq<u8> {
    with_entry(with_parents(data, path), path, content, (mode | 0o100000u32) as nat, content.len())
}

/// The bytes of the trailer path "TRAILER!!!".
pub open spec fn trailer_name() -> Seq<u8> {
    seq![84u8, 82u8, 65u8, 73u8, 76u8, 69u8, 82u8, 33u8, 33u8, 33u8]
}

/// The finished archive: `data` followed by the trailer entry.
pub open spec fn finalized(data: Seq<u8>) -> Seq<u8> {
    with_entry(data, trailer_name(), Seq::<u8>::empty(), 0, 0)
}

/// The bytes of the prefix "lib/modules/".
pub open spec fn modules_prefix() -> Seq<u8> {
    seq![108u8, 105u8, 98u8, 47u8, 109u8, 111u8, 100u8, 117u8, 108u8, 101u8, 115u8, 47u8]
}

/// The archive after the first `k` modules were added under `lib/modules/`.
pub open spec fn with_modules(data: Seq<u8>, modules: Seq<(Seq<u8>, Seq<u8>)>, k: nat) -> Seq<u8>
    decreases k,
{
    if k == 0 {
        data
    } else {
        let m = modules[k - 1];
        with_file(with_modules(data, modules, (k - 1) as nat), modules_prefix() + m.0, m.1, 0o644)
    }
}

/// Padding always ends on a four-byte boundary.
pub proof fn lemma_pad4_aligned(s: Seq<u8>)
    ensures
        pad4(s).len() % 4 == 0,
        pad4(s).len() >= s.len(),
        pad4(s).subrange(0, s.len() as int) == s,
{
    assert(pad4(s).subrange(0, s.len() as int) =~= s);
}

/// CPIO archive builder
pub struct CpioBuilder {
    data: Vec<u8>,
}

impl View for CpioBuilder {
    type V = Seq<u8>;

    /// The archive bytes written so far.
    closed spec fn view(&self) -> Seq<u8> {
        self.data@
    }
}

/// Appends `v` as `{:0width$x}` would print it.
fn push_hex(out: &mut Vec<u8>, v: u64, width: u32)
    ensures
        final(out)@ == old(out)@ + hex_field(v as nat, width as nat),
    decreases width, v,
{
    if width == 0 && v == 0 {
        assert(old(out)@ + hex_field(0, 0) =~= old(out)@);
        return ;
    }
    let w = if width == 0 {
        0
    } else {
        width - 1
    };
    push_hex(out, v / 16, w);
    let d = (v % 16) as u8;
    let b = if d < 10 {
        48 + d
    } else {
        87 + d
    };
    out.push(b);
    assert(final(out)@ =~= old(out)@ + hex_field(v as nat, width as nat)) by {
        assert(hex_field(v as nat, width as nat) == hex_field((v / 16) as nat, w as nat).push(
            hex_digit((v % 16) as nat),
        ));
    }
}

/// Appends zero bytes until the length is a multiple of four.
fn pad_to_four(out: &mut Vec<u8>)
    ensures
        final(out)@ == pad4(old(out)@),
{
    let ghost start = out@;
    while out.len() % 4 != 0
        invariant
            start.len() <= out@.len() <= start.len() + 3,
            out@.len() - start.len() <= (4 - start.len() % 4) % 4,
            out@ == start + Seq::new((out@.len() - start.len()) as nat, |i: int| 0u8),
        decreases start.len() + 3 - out@.len(),
    {
        out.push(0);
        assert(out@ =~= start + Seq::new((out@.len() - start.len()) as nat, |i: int| 0u8));
    }
    assert(out@ =~= pad4(start));
}

/// Appends a slice.
fn push_all(out: &mut Vec<u8>, bytes: &[u8])
    ensures
        final(out)@ == old(out)@ + bytes@,
{
    let mut i: usize = 0;
    let ghost start = out@;
    while i < bytes.len()
        invariant
            i <= bytes@.len(),
            out@ == start + bytes@.subrange(0, i as int),
        decreases bytes@.len() - i,
    {
        out.push(bytes[i]);
        i += 1;
        assert(out@ =~= start + bytes@.subrange(0, i as int));
    }
    assert(bytes@.subrange(0, i as int) =~= bytes@);
}

impl CpioBuilder {
    pub fn new() -> (r: Self)
        ensures
            r@ == Seq::<u8>::empty(),
    {
        Self { data: Vec::new() }
    }

    /// add a directory entry
    pub fn add_dir(&mut self, path: &str, mode: u32)
        requires
            path.spec_bytes().len() + 1 <= u64::MAX,
        ensures
            final(self)@ == with_entry(
                old(self)@,
                path.spec_bytes(),
                Seq::<u8>::empty(),
                (mode | 0o040000u32) as nat,
                0,
            ),
            final(self)@.len() % 4 == 0,
    {
        let empty: [u8; 0] = [];
        self.add_entry(path.as_bytes(), &empty, mode | 0o040000, 0);
    }

    /// add a regular file, auto-creating parent directories
    pub fn add_file(&mut self, path: &str, content: &[u8], mode: u32)
        requires
            path.spec_bytes().len() + 1 <= u64::MAX,
        ensures
            final(self)@ == with_file(old(self)@, path.spec_bytes(), content@, mode),
            final(self)@.len() % 4 == 0,
    {
        self.add_file_bytes(path.as_bytes(), content, mode);
    }

    fn add_file_bytes(&mut self, path: &[u8], content: &[u8], mode: u32)
        requires
            path@.len() + 1 <= u64::MAX,
        ensures
            final(self)@ == with_file(old(self)@, path@, content@, mode),
            final(self)@.len() % 4 == 0,
    {
        self.ensure_parent_dirs(path);
        self.add_entry(path, content, mode | 0o100000, content.len());
    }

    /// ensure all parent directories exist in the archive
    fn ensure_parent_dirs(&mut self, path: &[u8])
        requires
            path@.len() + 1 <= u64::MAX,
        ensures
            final(self)@ == with_parents(old(self)@, path@),
    {
        let parts = split_bytes_slash(path);
        let ghost d0 = self.data@;
        proof {
            lemma_split_slash_lens(path@);
            assert forall|j: int| 0 <= j < parts@.len() implies #[trigger] parts@[j]@.len()
                <= path@.len() by {
                assert(views(parts@)[j] == parts@[j]@);
            }
        }
        let n = parts.len() - 1;
        let mut current_path: Vec<u8> = Vec::new();
        let mut k: usize = 0;
        while k < n
            invariant
                n + 1 == parts@.len(),
                k <= n,
                views(parts@) == split_slash(path@),
                forall|j: int| 0 <= j < parts@.len() ==> #[trigger] parts@[j]@.len() <= path@.len(),
                path@.len() + 1 <= u64::MAX,
                current_path@.len() <= path@.len(),
                (current_path@, self.data@) == parents_after(d0, split_slash(path@), k as nat),
            decreases n - k,
        {
            let part = &parts[k];
            assert(views(parts@)[k as int] == part@);
            proof {
                lemma_parents_len(d0, split_slash(path@), (k + 1) as nat, path@);
            }
            if part.len() > 0 {
                if current_path.len() > 0 {
                    current_path.push(47);
                }
                push_all(&mut current_path, part.as_slice());
                let empty: [u8; 0] = [];
                self.add_entry(current_path.as_slice(), &empty, 0o040755, 0);
            }
            k += 1;
        }
    }

    fn add_entry(&mut self, path: &[u8], content: &[u8], mode: u32, size: usize)
        requires
            path@.len() + 1 <= u64::MAX,
        ensures
            final(self)@ == with_entry(old(self)@, path@, content@, mode as nat, size as nat),
            final(self)@.len() % 4 == 0,
    {
        // newc format header (110 bytes of ASCII hex)
        let namesize = path.len() as u64 + 1;
        let ghost start = self.data@;
        let magic: [u8; 6] = [48, 55, 48, 55, 48, 49];
        push_all(&mut self.data, &magic);
        push_hex(&mut self.data, 0, 8);
        push_hex(&mut self.data, mode as u64, 8);
        push_hex(&mut self.data, 0, 8);
        push_hex(&mut self.data, 0, 8);
        push_hex(&mut self.data, 1, 8);
        push_hex(&mut self.data, 0, 8);
        push_hex(&mut self.data, size as u64, 8);
        push_hex(&mut self.data, 0, 8);
        push_hex(&mut self.data, 0, 8);
        push_hex(&mut self.data, 0, 8);
        push_hex(&mut self.data, 0, 8);
        push_hex(&mut self.data, namesize, 8);
        push_hex(&mut self.data, 0, 8);
        assert(self.data@ =~= start + newc_header(mode as nat, size as nat, path@.len() + 1));
        // write pathname + null terminator
        push_all(&mut self.data, path);
        self.data.push(0);
        assert(self.data@ =~= start + newc_header(mode as nat, size as nat, path@.len() + 1)
            + path@.push(0u8));
        // pad to 4-byte boundary
        pad_to_four(&mut self.data);
        // write file content
        push_all(&mut self.data, content);
        // pad content to 4-byte boundary
        pad_to_four(&mut self.data);
        proof {
            lemma_pad4_aligned(pad4(start + newc_header(mode as nat, size as nat, path@.len() + 1)
                + path@.push(0u8)) + content@);
        }
    }

    /// finalize the archive with TRAILER!!! marker
    pub fn finalize(self) -> (r: Vec<u8>)
        ensures
            r@ == finalized(self@),
            r@.len() % 4 == 0,
    {
        let mut s = self;
        let trailer: [u8; 10] = [84, 82, 65, 73, 76, 69, 82, 33, 33, 33];
        let empty: [u8; 0] = [];
        assert(trailer@ =~= trailer_name());
        s.add_entry(&trailer, &empty, 0, 0);
        s.data
    }
}

/// The byte contents of a list of byte vectors.
pub open spec fn views(v: Seq<Vec<u8>>) -> Seq<Seq<u8>> {
    v.map_values(|x: Vec<u8>| x@)
}

/// The pieces of `p` between `/` bytes.
fn split_bytes_slash(p: &[u8]) -> (r: Vec<Vec<u8>>)
    ensures
        views(r@) == split_slash(p@),
{
    let mut done: Vec<Vec<u8>> = Vec::new();
    let mut cur: Vec<u8> = Vec::new();
    let mut i: usize = 0;
    assert(views(done@).push(cur@) =~= split_slash(p@.subrange(0, 0)));
    while i < p.len()
        invariant
            i <= p@.len(),
            views(done@).push(cur@) == split_slash(p@.subrange(0, i as int)),
        decreases p@.len() - i,
    {
        let b = p[i];
        let ghost pre = p@.subrange(0, i as int);
        let ghost next = p@.subrange(0, i + 1);
        assert(next.drop_last() =~= pre);
        if b == 47 {
            let ghost old_done = views(done@);
            let old_cur = cur;
            done.push(old_cur);
            assert(views(done@) =~= old_done.push(old_cur@));
            cur = Vec::new();
            assert(views(done@).push(cur@) =~= split_slash(next));
        } else {
            let ghost before = views(done@).push(cur@);
            cur.push(b);
            assert(views(done@).push(cur@) =~= before.update(
                before.len() - 1,
                before.last().push(b),
            ));
        }
        i += 1;
    }
    assert(p@.subrange(0, i as int) =~= p@);
    let ghost old_done = views(done@);
    let ghost last = cur@;
    done.push(cur);
    assert(views(done@) =~= old_done.push(last));
    done
}

/// A split has at least one piece.
pub proof fn lemma_split_slash_lens_pub(p: Seq<u8>)
    ensures
        split_slash(p).len() >= 1,
{
    lemma_split_slash_lens(p);
}

/// Every piece of a split is no longer than the input, and there is at
/// least one piece.
proof fn lemma_split_slash_lens(p: Seq<u8>)
    ensures
        split_slash(p).len() >= 1,
        forall|j: int| 0 <= j < split_slash(p).len() ==> #[trigger] split_slash(p)[j].len() <= p.len(),
    decreases p.len(),
{
    if p.len() > 0 {
        lemma_split_slash_lens(p.drop_last());
    }
}

/// The directory path built from the first `k` pieces is no longer than the
/// whole path.
proof fn lemma_parents_len(data: Seq<u8>, parts: Seq<Seq<u8>>, k: nat, p: Seq<u8>)
    requires
        parts == split_slash(p),
        k < parts.len(),
    ensures
        parents_after(data, parts, k).0.len() <= p.len(),
{
    lemma_parents_len_pieces(data, parts, k);
    lemma_split_total(p);
    lemma_prefix_pieces_le(parts, k);
}

/// The length of the path built from `k` pieces is bounded by their total
/// length plus one separator per piece.
proof fn lemma_parents_len_pieces(data: Seq<u8>, parts: Seq<Seq<u8>>, k: nat)
    requires
        k <= parts.len(),
    ensures
        parents_after(data, parts, k).0.len() == 0 || parents_after(data, parts, k).0.len() + 1
            <= pieces_total(parts, k) + k,
    decreases k,
{
    if k > 0 {
        lemma_parents_len_pieces(data, parts, (k - 1) as nat);
    }
}

/// The total length of the first `k` pieces.
spec fn pieces_total(parts: Seq<Seq<u8>>, k: nat) -> nat
    decreases k,
{
    if k == 0 {
        0
    } else {
        pieces_total(parts, (k - 1) as nat) + parts[k - 1].len()
    }
}

/// The pieces of a split and the separators between them add up to the
/// input length.
proof fn lemma_split_total(p: Seq<u8>)
    ensures
        pieces_total(split_slash(p), split_slash(p).len()) + split_slash(p).len() - 1 == p.len(),
    decreases p.len(),
{
    if p.len() == 0 {
        let s = split_slash(p);
        assert(pieces_total(s, 0) == 0);
        assert(pieces_total(s, 1) == 0);
    } else {
        let q = split_slash(p.drop_last());
        lemma_split_total(p.drop_last());
        lemma_split_slash_lens(p.drop_last());
        if p.last() == slash() {
            lemma_pieces_total_push(q, Seq::<u8>::empty());
            assert(split_slash(p) == q.push(Seq::<u8>::empty()));
        } else {
            lemma_pieces_total_update_last(q, q.last().push(p.last()));
            assert(split_slash(p) == q.update(q.len() - 1, q.last().push(p.last())));
        }
    }
}

proof fn lemma_pieces_total_push(parts: Seq<Seq<u8>>, x: Seq<u8>)
    ensures
        pieces_total(parts.push(x), parts.len() + 1) == pieces_total(parts, parts.len()) + x.len(),
{
    lemma_pieces_total_prefix(parts.push(x), parts, parts.len());
}

proof fn lemma_pieces_total_update_last(parts: Seq<Seq<u8>>, x: Seq<u8>)
    requires
        parts.len() >= 1,
    ensures
        pieces_total(parts.update(parts.len() - 1, x), parts.len()) == pieces_total(
            parts,
            parts.len(),
        ) - parts.last().len() + x.len(),
{
    let u = parts.update(parts.len() - 1, x);
    lemma_pieces_total_prefix(u, parts, (parts.len() - 1) as nat);
}

/// Sequences that agree on their first `k` pieces have the same total there.
proof fn lemma_pieces_total_prefix(a: Seq<Seq<u8>>, b: Seq<Seq<u8>>, k: nat)
    requires
        k <= a.len(),
        k <= b.len(),
        forall|j: int| 0 <= j < k ==> a[j] == b[j],
    ensures
        pieces_total(a, k) == pieces_total(b, k),
    decreases k,
{
    if k > 0 {
        lemma_pieces_total_prefix(a, b, (k - 1) as nat);
    }
}

/// Totals only grow with more pieces.
proof fn lemma_prefix_pieces_le(parts: Seq<Seq<u8>>, k: nat)
    requires
        k < parts.len(),
    ensures
        pieces_total(parts, k) + k <= pieces_total(parts, parts.len()) + parts.len() - 1,
    decreases parts.len() - k,
{
    if k + 1 < parts.len() {
        lemma_prefix_pieces_le(parts, k + 1);
    }
}

/// build an initramfs cpio containing kernel modules
pub fn build_module_initramfs(modules: &[(&str, Vec<u8>)]) -> (r: Vec<u8>)
    requires
        forall|i: int|
            0 <= i < modules@.len() ==> modules@[i].0.spec_bytes().len() + 13 <= u64::MAX,
    ensures
        r@ == finalized(
            with_modules(
                Seq::<u8>::empty(),
                modules@.map_values(|m: (&str, Vec<u8>)| (m.0.spec_bytes(), m.1@)),
                modules@.len(),
            ),
        ),
{
    let mut builder = CpioBuilder::new();
    let ghost ms = modules@.map_values(|m: (&str, Vec<u8>)| (m.0.spec_bytes(), m.1@));
    let mut i: usize = 0;
    while i < modules.len()
        invariant
            i <= modules@.len(),
            ms == modules@.map_values(|m: (&str, Vec<u8>)| (m.0.spec_bytes(), m.1@)),
            forall|j: int|
                0 <= j < modules@.len() ==> modules@[j].0.spec_bytes().len() + 13 <= u64::MAX,
            builder@ == with_modules(Seq::<u8>::empty(), ms, i as nat),
        decreases modules@.len() - i,
    {
        let (name, content) = &modules[i];
        let mut path: Vec<u8> = Vec::new();
        let prefix: [u8; 12] = [108, 105, 98, 47, 109, 111, 100, 117, 108, 101, 115, 47];
        push_all(&mut path, &prefix);
        push_all(&mut path, name.as_bytes());
        assert(path@ =~= modules_prefix() + ms[i as int].0);
        builder.add_file_bytes(path.as_slice(), content.as_slice(), 0o644);
        i += 1;
    }
    builder.finalize()
}

} // verus!
