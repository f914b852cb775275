//! What the cpio builder guarantees of a whole archive: the entries that a
//! sequence of `add_dir`/`add_file` calls writes, that the archive stays on
//! four-byte boundaries, and that a newc reader gives back those entries.
use vstd::prelude::*;
use crate::cpio::finalized;
use crate::cpio::hex_digit;
use crate::cpio::hex_field;
use crate::cpio::newc_header;
use crate::cpio::newc_magic;
use crate::cpio::pad4;
use crate::cpio::parents_after;
use crate::cpio::slash;
use crate::cpio::split_slash;
use crate::cpio::trailer_name;
use crate::cpio::with_entry;
use crate::cpio::with_file;
use crate::cpio::with_parents;

verus! {

/// An entry of an archive: its path, mode and data.
pub type Entry = (Seq<u8>, nat, Seq<u8>);

/// A call on the builder: `add_dir(path, mode)` or `add_file(path, content, mode)`.
pub enum CpioOp {
    Dir(Seq<u8>, u32),
    File(Seq<u8>, Seq<u8>, u32),
}

/// The archive after the entries are appended in order.
pub open spec fn append_entries(d: Seq<u8>, es: Seq<Entry>) -> Seq<u8>
    decreases es.len(),
{
    if es.len() == 0 {
        d
    } else {
        let e = es.last();
        with_entry(append_entries(d, es.drop_last()), e.0, e.2, e.1, e.2.len())
    }
}

/// The directory entries written for the first `k` pieces of a path, with
/// the path built so far.
pub open spec fn parent_entries(parts: Seq<Seq<u8>>, k: nat) -> (Seq<u8>, Seq<Entry>)
    decreases k,
{
    if k == 0 {
        (Seq::<u8>::empty(), Seq::empty())
    } else {
        let (cur, es) = parent_entries(parts, (k - 1) as nat);
        let part = parts[k - 1];
        if part.len() == 0 {
            (cur, es)
        } else {
            let next = if cur.len() == 0 {
                part
            } else {
                cur.push(slash()) + part
            };
            (next, es.push((next, 0o040755nat, Seq::<u8>::empty())))
        }
    }
}

/// The entries of one call: a directory entry, or a directory entry for
/// each ancestor of the file followed by the file.
pub open spec fn op_entries(op: CpioOp) -> Seq<Entry> {
    match op {
        CpioOp::Dir(p, m) => seq![(p, (m | 0o040000u32) as nat, Seq::<u8>::empty())],
        CpioOp::File(p, c, m) => {
            let parts = split_slash(p);
            parent_entries(parts, (parts.len() - 1) as nat).1.push((p, (m | 0o100000u32) as nat, c))
        },
    }
}

/// The entries of a sequence of calls.
pub open spec fn ops_entries(ops: Seq<CpioOp>) -> Seq<Entry>
    decreases ops.len(),
{
    if ops.len() == 0 {
        Seq::empty()
    } else {
        ops_entries(ops.drop_last()) + op_entries(ops.last())
    }
}

/// The archive bytes after a sequence of calls on a new builder.
pub open spec fn archive_of(ops: Seq<CpioOp>) -> Seq<u8>
    decreases ops.len(),
{
    if ops.len() == 0 {
        Seq::empty()
    } else {
        match ops.last() {
            CpioOp::Dir(p, m) => with_entry(archive_of(ops.drop_last()), p, Seq::<u8>::empty(), (m | 0o040000u32) as nat, 0),
            CpioOp::File(p, c, m) => with_file(archive_of(ops.drop_last()), p, c, m),
        }
    }
}

/// The bytes of the trailer entry.
pub open spec fn trailer_entry() -> Seq<u8> {
    newc_header(0, 0, 11) + trailer_name().push(0u8) + seq![0u8, 0u8, 0u8]
}

/// `16` to the power `w`.
pub open spec fn pow16(w: nat) -> nat
    decreases w,
{
    if w == 0 {
        1
    } else {
        16 * pow16((w - 1) as nat)
    }
}

/// A field wide enough for its value has exactly its width in digits.
pub proof fn lemma_hex_len(v: nat, w: nat)
    requires
        v < pow16(w),
    ensures
        hex_field(v, w).len() == w,
    decreases w,
{
    if w > 0 {
        assert(v / 16 < pow16((w - 1) as nat)) by (nonlinear_arith)
            requires
                v < 16 * pow16((w - 1) as nat),
        ;
        lemma_hex_len(v / 16, (w - 1) as nat);
    }
}

/// Eight hexadecimal digits hold any 32-bit value.
proof fn lemma_pow16_8()
    ensures
        pow16(8) == 0x1_0000_0000,
{
    reveal_with_fuel(pow16, 9);
}

/// The header is 110 bytes when its values fit their fields.
proof fn lemma_header_len(mode: nat, size: nat, namesize: nat)
    requires
        mode < pow16(8),
        size < pow16(8),
        namesize < pow16(8),
    ensures
        newc_header(mode, size, namesize).len() == 110,
{
    lemma_pow16_8();
    lemma_hex_len(0, 8);
    lemma_hex_len(1, 8);
    lemma_hex_len(mode, 8);
    lemma_hex_len(size, 8);
    lemma_hex_len(namesize, 8);
}

/// Padding after an aligned prefix pads only what follows it.
pub proof fn lemma_pad4_shift(d: Seq<u8>, x: Seq<u8>)
    requires
        d.len() % 4 == 0,
    ensures
        pad4(d + x) == d + pad4(x),
{
    assert((d + x).len() % 4 == x.len() % 4) by (nonlinear_arith)
        requires
            d.len() % 4 == 0,
            (d + x).len() == d.len() + x.len(),
    ;
    assert(pad4(d + x) =~= d + pad4(x));
}

/// An aligned archive with one more entry: the archive, then the entry's
/// own padded bytes.
pub proof fn lemma_entry_appends(d: Seq<u8>, p: Seq<u8>, c: Seq<u8>, mode: nat, size: nat)
    requires
        d.len() % 4 == 0,
    ensures
        with_entry(d, p, c, mode, size) == d + pad4(pad4(newc_header(mode, size, p.len() + 1) + p.push(0u8)) + c),
        with_entry(d, p, c, mode, size).len() % 4 == 0,
{
    let h = newc_header(mode, size, p.len() + 1) + p.push(0u8);
    assert(d + newc_header(mode, size, p.len() + 1) + p.push(0u8) =~= d + h);
    lemma_pad4_shift(d, h);
    crate::cpio::lemma_pad4_aligned(h);
    assert(d + pad4(h) + c =~= d + (pad4(h) + c));
    lemma_pad4_shift(d, pad4(h) + c);
    crate::cpio::lemma_pad4_aligned(pad4(h) + c);
    crate::cpio::lemma_pad4_aligned(d + pad4(h) + c);
}

/// Appending entries keeps an aligned archive aligned, and keeps what was
/// there.
pub proof fn lemma_append_aligned(d: Seq<u8>, es: Seq<Entry>)
    requires
        d.len() % 4 == 0,
    ensures
        append_entries(d, es).len() % 4 == 0,
        append_entries(d, es).len() >= d.len(),
        append_entries(d, es).subrange(0, d.len() as int) == d,
    decreases es.len(),
{
    if es.len() > 0 {
        let e = es.last();
        let prev = append_entries(d, es.drop_last());
        lemma_append_aligned(d, es.drop_last());
        lemma_entry_appends(prev, e.0, e.2, e.1, e.2.len());
        assert(append_entries(d, es).subrange(0, d.len() as int) =~= prev.subrange(0, d.len() as int));
    }
}

/// Appending the entries of `a` then those of `b` is appending `a + b`.
proof fn lemma_append_concat(d: Seq<u8>, a: Seq<Entry>, b: Seq<Entry>)
    ensures
        append_entries(append_entries(d, a), b) == append_entries(d, a + b),
    decreases b.len(),
{
    if b.len() > 0 {
        lemma_append_concat(d, a, b.drop_last());
        assert((a + b).drop_last() =~= a + b.drop_last());
        assert((a + b).last() == b.last());
    }
}

/// The directory entries of a file's ancestors are what `with_parents`
/// writes.
proof fn lemma_parents_entries(d: Seq<u8>, parts: Seq<Seq<u8>>, k: nat)
    requires
        k <= parts.len(),
    ensures
        parents_after(d, parts, k).0 == parent_entries(parts, k).0,
        parents_after(d, parts, k).1 == append_entries(d, parent_entries(parts, k).1),
    decreases k,
{
    if k > 0 {
        lemma_parents_entries(d, parts, (k - 1) as nat);
        let (cur, es) = parent_entries(parts, (k - 1) as nat);
        let part = parts[k - 1];
        if part.len() > 0 {
            let next = if cur.len() == 0 { part } else { cur.push(slash()) + part };
            let es2 = es.push((next, 0o040755nat, Seq::<u8>::empty()));
            assert(es2.drop_last() =~= es);
            assert(es2.last() == (next, 0o040755nat, Seq::<u8>::empty()));
        }
    }
}

/// The archive that a sequence of calls writes is its entries appended in
/// order: `add_dir` writes one entry, `add_file` one per ancestor
/// directory and then the file.
pub proof fn lemma_archive_entries(ops: Seq<CpioOp>)
    ensures
        archive_of(ops) == append_entries(Seq::<u8>::empty(), ops_entries(ops)),
    decreases ops.len(),
{
    if ops.len() > 0 {
        lemma_archive_entries(ops.drop_last());
        let prev = archive_of(ops.drop_last());
        let pe = ops_entries(ops.drop_last());
        match ops.last() {
            CpioOp::Dir(p, m) => {
                let e = op_entries(ops.last());
                assert(append_entries(prev, e) == with_entry(prev, p, Seq::<u8>::empty(), (m | 0o040000u32) as nat, 0)) by {
                    assert(e.drop_last() =~= Seq::<Entry>::empty());
                    assert(append_entries(prev, e.drop_last()) == prev);
                    assert(e.last() == (p, (m | 0o040000u32) as nat, Seq::<u8>::empty()));
                    assert(Seq::<u8>::empty().len() == 0);
                }
                lemma_append_concat(Seq::<u8>::empty(), pe, e);
            },
            CpioOp::File(p, c, m) => {
                let parts = split_slash(p);
                crate::cpio::lemma_split_slash_lens_pub(p);
                let n = (parts.len() - 1) as nat;
                lemma_parents_entries(prev, parts, n);
                let par = parent_entries(parts, n).1;
                let e = op_entries(ops.last());
                assert(e.drop_last() =~= par);
                assert(with_parents(prev, p) == append_entries(prev, par));
                lemma_append_concat(Seq::<u8>::empty(), pe, e);
            },
        }
    }
}

/// Law: after any sequence of `add_dir` and `add_file` calls the archive
/// ends on a four-byte boundary, and `finalize` appends exactly the
/// 124-byte trailer entry (a header with mode 0, one link, size 0 and name
/// size 11, then `TRAILER!!!`, a NUL and three bytes of padding).
pub proof fn lemma_archive_aligned(ops: Seq<CpioOp>)
    ensures
        archive_of(ops).len() % 4 == 0,
        finalized(archive_of(ops)) == archive_of(ops) + trailer_entry(),
        trailer_entry().len() == 124,
{
    lemma_archive_entries(ops);
    lemma_append_aligned(Seq::<u8>::empty(), ops_entries(ops));
    let d = archive_of(ops);
    lemma_pow16_8();
    lemma_header_len(0, 0, 11);
    lemma_entry_appends(d, trailer_name(), Seq::<u8>::empty(), 0, 0);
    let h = newc_header(0, 0, 11) + trailer_name().push(0u8);
    assert(h.len() == 121);
    assert(pad4(h) =~= h + seq![0u8, 0u8, 0u8]);
    assert(pad4(h) + Seq::<u8>::empty() =~= pad4(h));
    crate::cpio::lemma_pad4_aligned(pad4(h));
    assert(pad4(pad4(h)) =~= pad4(h));
    assert(trailer_entry() =~= pad4(h));
}

/// The value of a hexadecimal digit byte.
pub open spec fn digit_value(b: u8) -> nat {
    if b < 58 {
        (b - 48) as nat
    } else {
        (b - 87) as nat
    }
}

/// The value of hexadecimal digits, most significant first.
pub open spec fn hex_value(s: Seq<u8>) -> nat
    decreases s.len(),
{
    if s.len() == 0 {
        0
    } else {
        hex_value(s.drop_last()) * 16 + digit_value(s.last())
    }
}

/// `x` rounded up to a multiple of four.
pub open spec fn round4(x: nat) -> nat {
    x + ((4 - x % 4) % 4) as nat
}

/// Header field `i` of the entry at `o`, read as a number.
pub open spec fn field(b: Seq<u8>, o: nat, i: nat) -> nat {
    hex_value(b.subrange((o + 6 + 8 * i) as int, (o + 14 + 8 * i) as int))
}

/// The entries a newc reader finds from offset `o` up to the trailer: for
/// each, the magic, the mode (field 1), the data size (field 6) and the name
/// size (field 11), the name, and the data after the name's padding; the
/// next entry after the data's padding. Nothing when the bytes are not such
/// an archive.
pub open spec fn read_from(b: Seq<u8>, o: nat) -> Option<Seq<Entry>>
    decreases b.len() - o,
{
    if o + 110 > b.len() || b.subrange(o as int, (o + 6) as int) != newc_magic() {
        None
    } else {
        let ns = field(b, o, 11);
        let sz = field(b, o, 6);
        let mode = field(b, o, 1);
        let name_end = o + 110 + ns;
        if ns == 0 || name_end > b.len() {
            None
        } else {
            let name = b.subrange((o + 110) as int, (name_end - 1) as int);
            if name == trailer_name() {
                Some(Seq::empty())
            } else {
                let ds = round4(name_end);
                let next = round4(ds + sz);
                if next > b.len() {
                    None
                } else {
                    match read_from(b, next) {
                        Some(rest) => Some(seq![(name, mode, b.subrange(ds as int, (ds + sz) as int))] + rest),
                        None => None,
                    }
                }
            }
        }
    }
}

/// Entries that fit the header fields and are not named like the trailer.
pub open spec fn entries_fit(es: Seq<Entry>) -> bool {
    forall|i: int|
        0 <= i < es.len() ==> (#[trigger] es[i]).0.len() + 1 < pow16(8) && es[i].1 < pow16(8) && es[i].2.len()
            < pow16(8) && es[i].0 != trailer_name()
}

proof fn lemma_digit_value(d: nat)
    requires
        d < 16,
    ensures
        digit_value(hex_digit(d)) == d,
{
}

/// Digits written by `hex_field` read back as the value.
pub proof fn lemma_hex_value(v: nat, w: nat)
    requires
        v < pow16(w),
    ensures
        hex_value(hex_field(v, w)) == v,
    decreases w,
{
    if w > 0 {
        assert(v / 16 < pow16((w - 1) as nat)) by (nonlinear_arith)
            requires
                v < 16 * pow16((w - 1) as nat),
        ;
        lemma_hex_value(v / 16, (w - 1) as nat);
        let f = hex_field(v, w);
        assert(f.drop_last() == hex_field(v / 16, (w - 1) as nat));
        lemma_digit_value(v % 16);
        assert((v / 16) * 16 + v % 16 == v) by (nonlinear_arith);
    }
}

/// The fields of a header.
proof fn lemma_header_fields(mode: nat, size: nat, namesize: nat)
    requires
        mode < pow16(8),
        size < pow16(8),
        namesize < pow16(8),
    ensures
        newc_header(mode, size, namesize).len() == 110,
        newc_header(mode, size, namesize).subrange(0, 6) == newc_magic(),
        newc_header(mode, size, namesize).subrange(14, 22) == hex_field(mode, 8),
        newc_header(mode, size, namesize).subrange(54, 62) == hex_field(size, 8),
        newc_header(mode, size, namesize).subrange(94, 102) == hex_field(namesize, 8),
{
    lemma_pow16_8();
    lemma_hex_len(0, 8);
    lemma_hex_len(1, 8);
    lemma_hex_len(mode, 8);
    lemma_hex_len(size, 8);
    lemma_hex_len(namesize, 8);
    let z = hex_field(0, 8);
    let h = newc_header(mode, size, namesize);
    let a = newc_magic() + z;
    let b1 = a + hex_field(mode, 8);
    let b2 = b1 + z + z + hex_field(1, 8) + z;
    let b3 = b2 + hex_field(size, 8);
    let b4 = b3 + z + z + z + z;
    let b5 = b4 + hex_field(namesize, 8);
    assert(h == b5 + z);
    assert(h.subrange(0, 6) =~= newc_magic());
    assert(h.subrange(14, 22) =~= hex_field(mode, 8));
    assert(b3.len() == 62);
    assert(b3.subrange(54, 62) =~= hex_field(size, 8));
    assert(h.subrange(54, 62) =~= b3.subrange(54, 62));
    assert(b5.len() == 102);
    assert(b5.subrange(94, 102) =~= hex_field(namesize, 8));
    assert(h.subrange(94, 102) =~= b5.subrange(94, 102));
}

/// Rounding after an aligned offset.
proof fn lemma_round4_shift(o: nat, x: nat)
    requires
        o % 4 == 0,
    ensures
        round4(o + x) == o + round4(x),
        round4(x) >= x,
        round4(x) % 4 == 0,
{
    assert((o + x) % 4 == x % 4) by (nonlinear_arith)
        requires
            o % 4 == 0,
    ;
}

/// Padding makes the length a multiple of four.
proof fn lemma_pad4_len(s: Seq<u8>)
    ensures
        pad4(s).len() == round4(s.len()),
{
}

/// The reader takes apart one entry that the builder wrote after an aligned
/// archive `d`, wherever the bytes go on.
#[verifier::rlimit(60)]
#[verifier::spinoff_prover]
proof fn lemma_read_entry(b: Seq<u8>, d: Seq<u8>, name: Seq<u8>, mode: nat, data: Seq<u8>)
    requires
        d.len() % 4 == 0,
        name.len() + 1 < pow16(8),
        mode < pow16(8),
        data.len() < pow16(8),
        b.len() >= with_entry(d, name, data, mode, data.len()).len(),
        b.subrange(0, with_entry(d, name, data, mode, data.len()).len() as int) == with_entry(d, name, data, mode, data.len()),
    ensures
        ({
            let o = d.len();
            let w = with_entry(d, name, data, mode, data.len());
            &&& o + 110 <= b.len()
            &&& b.subrange(o as int, (o + 6) as int) == newc_magic()
            &&& field(b, o, 11) == name.len() + 1
            &&& field(b, o, 6) == data.len()
            &&& field(b, o, 1) == mode
            &&& o + 110 + name.len() + 1 <= b.len()
            &&& b.subrange((o + 110) as int, (o + 110 + name.len()) as int) == name
            &&& round4(round4(o + 110 + name.len() + 1) + data.len()) == w.len()
            &&& b.subrange(round4(o + 110 + name.len() + 1) as int, (round4(o + 110 + name.len() + 1) + data.len()) as int) == data
        }),
{
    let o = d.len();
    let w = with_entry(d, name, data, mode, data.len());
    let hdr = newc_header(mode, data.len(), name.len() + 1);
    lemma_header_fields(mode, data.len(), name.len() + 1);
    let h = hdr + name.push(0u8);
    lemma_entry_appends(d, name, data, mode, data.len());
    assert(w == d + pad4(pad4(h) + data));
    lemma_pad4_len(h);
    lemma_pad4_len(pad4(h) + data);
    crate::cpio::lemma_pad4_aligned(h);
    crate::cpio::lemma_pad4_aligned(pad4(h) + data);
    let ph = pad4(h);
    let body = pad4(ph + data);
    assert(h.len() == 111 + name.len());
    lemma_round4_shift(o, 111 + name.len());
    lemma_round4_shift(o, ph.len() + data.len());
    lemma_round4_shift(o + ph.len(), data.len());
    // the prefix of b is w, so its pieces are those of w
    assert forall|j: int| 0 <= j < w.len() implies b[j] == w[j] by {
        assert(b.subrange(0, w.len() as int)[j] == b[j]);
    }
    assert(b.subrange(o as int, (o + 110) as int) =~= hdr) by {
        assert forall|j: int| 0 <= j < 110 implies b.subrange(o as int, (o + 110) as int)[j] == hdr[j] by {
            assert(w[o + j] == body[j]);
            assert(body[j] == ph[j]);
            assert(ph[j] == h[j]);
        }
    }
    assert(b.subrange(o as int, (o + 6) as int) =~= hdr.subrange(0, 6));
    assert(b.subrange((o + 14) as int, (o + 22) as int) =~= hdr.subrange(14, 22));
    assert(b.subrange((o + 54) as int, (o + 62) as int) =~= hdr.subrange(54, 62));
    assert(b.subrange((o + 94) as int, (o + 102) as int) =~= hdr.subrange(94, 102));
    lemma_hex_value(mode, 8);
    lemma_hex_value(data.len(), 8);
    lemma_hex_value(name.len() + 1, 8);
    assert(b.subrange((o + 110) as int, (o + 110 + name.len()) as int) =~= name) by {
        assert forall|j: int| 0 <= j < name.len() implies b.subrange((o + 110) as int, (o + 110 + name.len()) as int)[j] == name[j] by {
            assert(w[o + 110 + j] == body[110 + j]);
            assert(body[110 + j] == ph[110 + j]);
            assert(ph[110 + j] == h[110 + j]);
        }
    }
    let ds = round4(o + 110 + name.len() + 1);
    assert(ds == o + ph.len());
    assert(b.subrange(ds as int, (ds + data.len()) as int) =~= data) by {
        assert forall|j: int| 0 <= j < data.len() implies b.subrange(ds as int, (ds + data.len()) as int)[j] == data[j] by {
            assert(w[ds + j] == body[ph.len() + j]);
            assert(body[ph.len() + j] == (ph + data)[ph.len() + j]);
        }
    }
}

/// Finishing an aligned archive appends the trailer entry.
proof fn lemma_finalized(d: Seq<u8>)
    requires
        d.len() % 4 == 0,
    ensures
        finalized(d) == d + trailer_entry(),
        trailer_entry().len() == 124,
{
    lemma_pow16_8();
    lemma_header_len(0, 0, 11);
    lemma_entry_appends(d, trailer_name(), Seq::<u8>::empty(), 0, 0);
    let h = newc_header(0, 0, 11) + trailer_name().push(0u8);
    assert(h.len() == 121);
    assert(pad4(h) =~= h + seq![0u8, 0u8, 0u8]);
    assert(pad4(h) + Seq::<u8>::empty() =~= pad4(h));
    crate::cpio::lemma_pad4_aligned(pad4(h));
    assert(pad4(pad4(h)) =~= pad4(h));
    assert(trailer_entry() =~= pad4(h));
}

/// The reader stops at the trailer that finishes an aligned archive.
#[verifier::rlimit(100)]
#[verifier::spinoff_prover]
proof fn lemma_read_trailer(d: Seq<u8>)
    requires
        d.len() % 4 == 0,
    ensures
        read_from(finalized(d), d.len()) == Some(Seq::<Entry>::empty()),
{
    lemma_pow16_8();
    let f = finalized(d);
    let o = d.len();
    assert(Seq::<u8>::empty().len() == 0);
    assert(f == with_entry(d, trailer_name(), Seq::<u8>::empty(), 0, Seq::<u8>::empty().len()));
    assert(f.subrange(0, f.len() as int) =~= f);
    lemma_read_entry(f, d, trailer_name(), 0, Seq::<u8>::empty());
    assert(trailer_name().len() == 10);
    assert(field(f, o, 11) == 11);
    assert(o + 110 + 11 <= f.len());
    assert(f.subrange((o + 110) as int, (o + 110 + 11 - 1) as int) == trailer_name());
    assert(f.subrange(o as int, (o + 6) as int) == newc_magic());
}

/// One entry, then whatever the reader finds after it.
#[verifier::rlimit(60)]
#[verifier::spinoff_prover]
proof fn lemma_read_step(f: Seq<u8>, d: Seq<u8>, e: Entry, rest: Seq<Entry>)
    requires
        d.len() % 4 == 0,
        e.0.len() + 1 < pow16(8),
        e.1 < pow16(8),
        e.2.len() < pow16(8),
        e.0 != trailer_name(),
        f.len() >= with_entry(d, e.0, e.2, e.1, e.2.len()).len(),
        f.subrange(0, with_entry(d, e.0, e.2, e.1, e.2.len()).len() as int) == with_entry(d, e.0, e.2, e.1, e.2.len()),
        read_from(f, with_entry(d, e.0, e.2, e.1, e.2.len()).len()) == Some(rest),
    ensures
        read_from(f, d.len()) == Some(seq![e] + rest),
{
    lemma_read_entry(f, d, e.0, e.1, e.2);
}

/// The reader finds, from the end of an aligned archive `d`, exactly the
/// entries appended after it.
proof fn lemma_read_all(d: Seq<u8>, es: Seq<Entry>)
    requires
        d.len() % 4 == 0,
        entries_fit(es),
    ensures
        read_from(finalized(append_entries(d, es)), d.len()) == Some(es),
    decreases es.len(),
{
    if es.len() == 0 {
        lemma_read_trailer(d);
    } else {
        let e = es[0];
        let rest = es.drop_first();
        let d1 = with_entry(d, e.0, e.2, e.1, e.2.len());
        assert(seq![e] + rest =~= es);
        assert(append_entries(d, seq![e]) == d1) by {
            assert(seq![e].drop_last() =~= Seq::<Entry>::empty());
            assert(append_entries(d, seq![e].drop_last()) == d);
        }
        lemma_append_concat(d, seq![e], rest);
        let x = append_entries(d1, rest);
        lemma_entry_appends(d, e.0, e.2, e.1, e.2.len());
        assert(entries_fit(rest)) by {
            assert forall|i: int| 0 <= i < rest.len() implies (#[trigger] rest[i]).0.len() + 1 < pow16(8) && rest[i].1 < pow16(8) && rest[i].2.len() < pow16(8) && rest[i].0 != trailer_name() by {
                assert(rest[i] == es[i + 1]);
            }
        }
        assert(es[0] == e);
        lemma_read_all(d1, rest);
        lemma_append_aligned(d1, rest);
        lemma_finalized(x);
        let f = finalized(x);
        assert(f.subrange(0, d1.len() as int) =~= d1) by {
            assert(f.subrange(0, d1.len() as int) =~= x.subrange(0, d1.len() as int));
        }
        lemma_read_step(f, d, e, rest);
    }
}

/// Law: a newc reader over a finished archive gives back, in order, the
/// entries of the calls that built it: for `add_dir` its directory, for
/// `add_file` a directory entry (mode 0o040755) for each ancestor and then
/// the file (mode `mode | 0o100000`) with its content; as long as the
/// names and sizes fit the eight-digit fields and no entry is named like
/// the trailer.
pub proof fn lemma_archive_reads_back(ops: Seq<CpioOp>)
    requires
        entries_fit(ops_entries(ops)),
    ensures
        read_from(finalized(archive_of(ops)), 0) == Some(ops_entries(ops)),
{
    lemma_archive_entries(ops);
    lemma_read_all(Seq::<u8>::empty(), ops_entries(ops));
}

} // verus!
