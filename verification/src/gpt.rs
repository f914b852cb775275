//! Reading GPT partition tables, to find the root partition named "nex"
//! when the firmware does not describe it.
use vstd::prelude::*;
use crate::text::push_char;
use crate::text::str_eq;

verus! {

/// The little-endian number whose bytes are `s`.
pub open spec fn le_value(s: Seq<u8>) -> nat
    decreases s.len(),
{
    if s.len() == 0 {
        0
    } else {
        s[0] as nat + 256 * le_value(s.drop_first())
    }
}

/// Reads `n` little-endian bytes at `offset` (at most eight).
fn read_le(bytes: &[u8], offset: usize, n: usize) -> (r: u64)
    requires
        offset + n <= bytes@.len(),
        n <= 8,
    ensures
        r == le_value(bytes@.subrange(offset as int, offset + n)),
{
    let mut acc: u64 = 0;
    let mut i: usize = n;
    let total = bytes.len();
    while i > 0
        invariant
            total == bytes@.len(),
            offset + n <= bytes@.len(),
            n <= 8,
            i <= n,
            acc == le_value(bytes@.subrange(offset + i, offset + n)),
            acc < pow256((n - i) as nat),
        decreases i,
    {
        proof {
            let s = bytes@.subrange(offset + i - 1, offset + n);
            assert(s.drop_first() =~= bytes@.subrange(offset + i, offset + n));
            lemma_pow256_step((n - i) as nat);
            assert(pow256((n - i) as nat) <= 0x100000000000000) by {
                lemma_pow256_mono((n - i) as nat, 7);
                reveal_with_fuel(pow256, 8);
            }
        }
        acc = bytes[offset + i - 1] as u64 + 256 * acc;
        i -= 1;
    }
    acc
}

/// `256^k`.
pub open spec fn pow256(k: nat) -> nat
    decreases k,
{
    if k == 0 {
        1
    } else {
        256 * pow256((k - 1) as nat)
    }
}

proof fn lemma_pow256_step(k: nat)
    ensures
        pow256(k + 1) == 256 * pow256(k),
{
}

proof fn lemma_pow256_mono(a: nat, b: nat)
    requires
        a <= b,
    ensures
        pow256(a) <= pow256(b),
    decreases b,
{
    if a < b {
        lemma_pow256_mono(a, (b - 1) as nat);
    }
    reveal_with_fuel(pow256, 8);
}

/// Reads a little-endian `u32`, if the bytes reach that far.
pub fn read_u32_le(bytes: &[u8], offset: usize) -> (r: Option<u32>)
    requires
        offset <= usize::MAX - 8,
    ensures
        offset + 4 > bytes@.len() ==> r is None,
        offset + 4 <= bytes@.len() ==> r == Some(le_value(bytes@.subrange(offset as int, offset + 4)) as u32)
            && le_value(bytes@.subrange(offset as int, offset + 4)) < 0x1_0000_0000,
{
    if offset + 4 > bytes.len() {
        return None;
    }
    let v = read_le(bytes, offset, 4);
    proof {
        reveal_with_fuel(le_value, 5);
        let s = bytes@.subrange(offset as int, offset + 4);
        assert(le_value(s) < 0x1_0000_0000) by {
            assert(s.drop_first().drop_first().drop_first().drop_first().len() == 0);
        }
    }
    Some(v as u32)
}

/// Reads a little-endian `u64`, if the bytes reach that far.
pub fn read_u64_le(bytes: &[u8], offset: usize) -> (r: Option<u64>)
    requires
        offset <= usize::MAX - 8,
    ensures
        offset + 8 > bytes@.len() ==> r is None,
        offset + 8 <= bytes@.len() ==> r == Some(le_value(bytes@.subrange(offset as int, offset + 8)) as u64)
            && le_value(bytes@.subrange(offset as int, offset + 8)) < 0x1_0000_0000_0000_0000,
{
    if offset + 8 > bytes.len() {
        return None;
    }
    Some(read_le(bytes, offset, 8))
}

/// The GPT header signature "EFI PART".
pub open spec fn gpt_signature() -> Seq<u8> {
    seq![0x45u8, 0x46u8, 0x49u8, 0x20u8, 0x50u8, 0x41u8, 0x52u8, 0x54u8]
}

/// Where the partition entries lie.
pub struct GptHeader {
    pub entries_lba: u64,
    pub entry_count: u32,
    pub entry_size: u32,
}

impl GptHeader {
    /// Parses a GPT header block: the signature, then the entries' LBA,
    /// count and size at bytes 72, 80 and 84.
    pub fn parse(block: &[u8]) -> (r: Option<Self>)
        ensures
            match r {
                Some(h) => block@.len() >= 88 && block@.subrange(0, 8) == gpt_signature()
                    && h.entries_lba == le_value(block@.subrange(72, 80))
                    && h.entry_count == le_value(block@.subrange(80, 84))
                    && h.entry_size == le_value(block@.subrange(84, 88)),
                None => block@.len() < 88 || block@.subrange(0, 8) != gpt_signature(),
            },
    {
        if block.len() < 8 {
            return None;
        }
        let sig = block[0] == 0x45 && block[1] == 0x46 && block[2] == 0x49 && block[3] == 0x20 && block[4] == 0x50
            && block[5] == 0x41 && block[6] == 0x52 && block[7] == 0x54;
        if !sig {
            proof {
                if block@.subrange(0, 8) == gpt_signature() {
                    assert(block@.subrange(0, 8)[0] == block@[0]);
                    assert(block@.subrange(0, 8)[1] == block@[1]);
                    assert(block@.subrange(0, 8)[2] == block@[2]);
                    assert(block@.subrange(0, 8)[3] == block@[3]);
                    assert(block@.subrange(0, 8)[4] == block@[4]);
                    assert(block@.subrange(0, 8)[5] == block@[5]);
                    assert(block@.subrange(0, 8)[6] == block@[6]);
                    assert(block@.subrange(0, 8)[7] == block@[7]);
                }
            }
            return None;
        }
        assert(block@.subrange(0, 8) =~= gpt_signature());
        let entries_lba = match read_u64_le(block, 72) {
            Some(v) => v,
            None => return None,
        };
        let entry_count = match read_u32_le(block, 80) {
            Some(v) => v,
            None => return None,
        };
        let entry_size = match read_u32_le(block, 84) {
            Some(v) => v,
            None => return None,
        };
        Some(GptHeader { entries_lba, entry_count, entry_size })
    }
}

/// Whether a code point is a Unicode scalar value.
pub open spec fn is_scalar_value(v: u32) -> bool {
    v <= 0x10FFFF && !(0xD800 <= v && v <= 0xDFFF)
}

/// `char::from_u32`: the character of a scalar value, none otherwise.
#[verifier::external_body]
fn char_from_u32(v: u32) -> (r: Option<char>)
    ensures
        is_scalar_value(v) ==> r == Some(v as char),
        !is_scalar_value(v) ==> r is None,
{
    char::from_u32(v)
}

/// The replacement character U+FFFD.
pub open spec fn replacement() -> char {
    '\u{FFFD}'
}

/// UTF-16 decoding, with U+FFFD for each unpaired surrogate (as
/// `char::decode_utf16` and `unwrap_or('\u{FFFD}')` give).
pub open spec fn utf16_decode(units: Seq<u16>) -> Seq<char>
    decreases units.len(),
{
    if units.len() == 0 {
        Seq::empty()
    } else {
        let u = units[0];
        if u < 0xD800 || u > 0xDFFF {
            seq![(u as u32) as char] + utf16_decode(units.drop_first())
        } else if u <= 0xDBFF && units.len() >= 2 && 0xDC00 <= units[1] && units[1] <= 0xDFFF {
            seq![((0x10000 + (u - 0xD800) * 0x400 + (units[1] - 0xDC00)) as u32) as char]
                + utf16_decode(units.subrange(2, units.len() as int))
        } else {
            seq![replacement()] + utf16_decode(units.drop_first())
        }
    }
}

/// The little-endian code units of `bytes`, in pairs, up to the first zero
/// unit (an odd last byte is ignored).
pub open spec fn code_units(bytes: Seq<u8>) -> Seq<u16>
    decreases bytes.len(),
{
    if bytes.len() < 2 {
        Seq::empty()
    } else {
        let u = (bytes[0] + 256 * bytes[1]) as u16;
        if u == 0 {
            Seq::empty()
        } else {
            seq![u] + code_units(bytes.subrange(2, bytes.len() as int))
        }
    }
}

/// Decodes a UTF-16LE partition name.
pub fn utf16_name_from_bytes(bytes: &[u8]) -> (r: String)
    ensures
        r@ == utf16_decode(code_units(bytes@)),
{
    let mut units: Vec<u16> = Vec::new();
    let mut i: usize = 0;
    let n = bytes.len();
    proof {
        assert(bytes@.subrange(0, n as int) =~= bytes@);
        assert(units@ + code_units(bytes@) =~= code_units(bytes@));
    }
    let mut stop = false;
    while n - i >= 2 && !stop
        invariant
            n == bytes@.len(),
            i <= n,
            i % 2 == 0,
            code_units(bytes@) == units@ + code_units(bytes@.subrange(i as int, n as int)),
            stop ==> code_units(bytes@.subrange(i as int, n as int)) == Seq::<u16>::empty(),
        decreases n - i, (if stop { 0int } else { 1int }),
    {
        let u = (bytes[i] as u16) + 256 * (bytes[i + 1] as u16);
        proof {
            let rest = bytes@.subrange(i as int, n as int);
            assert(rest[0] == bytes@[i as int] && rest[1] == bytes@[i + 1]);
            assert(rest.subrange(2, rest.len() as int) =~= bytes@.subrange(i + 2, n as int));
        }
        if u == 0 {
            stop = true;
        } else {
            let ghost before = units@;
            units.push(u);
            proof {
                assert(units@ + code_units(bytes@.subrange(i + 2, n as int)) =~= before + (seq![u] + code_units(bytes@.subrange(i + 2, n as int))));
            }
            i += 2;
        }
    }
    proof {
        assert(units@ + Seq::<u16>::empty() =~= units@);
        if !stop {
            assert(code_units(bytes@.subrange(i as int, n as int)) =~= Seq::<u16>::empty());
            assert(units@ + Seq::<u16>::empty() =~= units@);
        }
    }
    decode_utf16(&units)
}

/// Decodes code units.
fn decode_utf16(units: &Vec<u16>) -> (r: String)
    requires
        true,
    ensures
        r@ == utf16_decode(units@),
{
    let mut out = String::new();
    let mut i: usize = 0;
    let n = units.len();
    proof {
        assert(units@.subrange(0, n as int) =~= units@);
        assert(out@ + utf16_decode(units@) =~= utf16_decode(units@));
    }
    while i < n
        invariant
            n == units@.len(),
            i <= n,
            utf16_decode(units@) == out@ + utf16_decode(units@.subrange(i as int, n as int)),
        decreases n - i,
    {
        let rest = Ghost(units@.subrange(i as int, n as int));
        let u = units[i];
        proof {
            assert(rest@[0] == u);
        }
        if u < 0xD800 || u > 0xDFFF {
            let c = match char_from_u32(u as u32) {
                Some(c) => c,
                None => '\u{FFFD}',
            };
            let ghost before = out@;
            push_char(&mut out, c);
            proof {
                assert(rest@.drop_first() =~= units@.subrange(i + 1, n as int));
                assert(out@ + utf16_decode(units@.subrange(i + 1, n as int)) =~= before + (seq![c] + utf16_decode(rest@.drop_first())));
            }
            i += 1;
        } else if u <= 0xDBFF && i + 1 < n && 0xDC00 <= units[i + 1] && units[i + 1] <= 0xDFFF {
            let low = units[i + 1];
            let v: u32 = 0x10000 + ((u - 0xD800) as u32) * 0x400 + ((low - 0xDC00) as u32);
            let c = match char_from_u32(v) {
                Some(c) => c,
                None => '\u{FFFD}',
            };
            let ghost before = out@;
            push_char(&mut out, c);
            proof {
                assert(rest@[1] == low);
                assert(rest@.subrange(2, rest@.len() as int) =~= units@.subrange(i + 2, n as int));
                assert(out@ + utf16_decode(units@.subrange(i + 2, n as int)) =~= before + (seq![c] + utf16_decode(rest@.subrange(2, rest@.len() as int))));
            }
            i += 2;
        } else {
            let ghost before = out@;
            push_char(&mut out, '\u{FFFD}');
            proof {
                assert(rest@.drop_first() =~= units@.subrange(i + 1, n as int));
                assert(out@ + utf16_decode(units@.subrange(i + 1, n as int)) =~= before + (seq![replacement()] + utf16_decode(rest@.drop_first())));
            }
            i += 1;
        }
    }
    proof {
        assert(utf16_decode(units@.subrange(n as int, n as int)) =~= Seq::<char>::empty()) by {
            assert(units@.subrange(n as int, n as int).len() == 0);
        }
        assert(out@ + Seq::<char>::empty() =~= out@);
    }
    out
}

/// The lowercase hexadecimal digit of `d` (`d < 16`).
pub open spec fn hex_char(d: nat) -> char {
    if d < 10 {
        (48 + d) as char
    } else {
        (87 + d) as char
    }
}

/// A byte as two lowercase hexadecimal digits.
pub open spec fn hex2(b: u8) -> Seq<char> {
    seq![hex_char((b / 16) as nat), hex_char((b % 16) as nat)]
}

/// The text of a GUID from its 16 bytes: the first three fields are stored
/// little-endian, the rest in order.
pub open spec fn guid_text(g: Seq<u8>) -> Seq<char> {
    hex2(g[3]) + hex2(g[2]) + hex2(g[1]) + hex2(g[0]) + "-"@ + hex2(g[5]) + hex2(g[4]) + "-"@
        + hex2(g[7]) + hex2(g[6]) + "-"@ + hex2(g[8]) + hex2(g[9]) + "-"@ + hex2(g[10]) + hex2(g[11])
        + hex2(g[12]) + hex2(g[13]) + hex2(g[14]) + hex2(g[15])
}

/// Appends a byte as two hexadecimal digits.
fn push_hex2(s: &mut String, b: u8)
    ensures
        final(s)@ == old(s)@ + hex2(b),
{
    let hi = b / 16;
    let lo = b % 16;
    let ch = if hi < 10 { (48 + hi) as char } else { (87 + hi) as char };
    let cl = if lo < 10 { (48 + lo) as char } else { (87 + lo) as char };
    push_char(s, ch);
    push_char(s, cl);
    assert(final(s)@ =~= old(s)@ + hex2(b));
}

/// Formats a GUID as lowercase text without braces.
pub fn format_guid(g: &[u8; 16]) -> (r: String)
    ensures
        r@ == guid_text(g@),
{
    let mut s = String::new();
    push_hex2(&mut s, g[3]);
    push_hex2(&mut s, g[2]);
    push_hex2(&mut s, g[1]);
    push_hex2(&mut s, g[0]);
    push_char(&mut s, '-');
    push_hex2(&mut s, g[5]);
    push_hex2(&mut s, g[4]);
    push_char(&mut s, '-');
    push_hex2(&mut s, g[7]);
    push_hex2(&mut s, g[6]);
    push_char(&mut s, '-');
    push_hex2(&mut s, g[8]);
    push_hex2(&mut s, g[9]);
    push_char(&mut s, '-');
    push_hex2(&mut s, g[10]);
    push_hex2(&mut s, g[11]);
    push_hex2(&mut s, g[12]);
    push_hex2(&mut s, g[13]);
    push_hex2(&mut s, g[14]);
    push_hex2(&mut s, g[15]);
    proof {
        reveal_strlit("-");
        assert(s@ =~= guid_text(g@));
    }
    s
}

/// Whether all bytes of a GUID are zero (an unused entry).
pub fn guid_is_zero(g: &[u8; 16]) -> (r: bool)
    ensures
        r == (forall|i: int| 0 <= i < 16 ==> g@[i] == 0),
{
    let mut i: usize = 0;
    while i < 16
        invariant
            i <= 16,
            forall|j: int| 0 <= j < i ==> g@[j] == 0,
        decreases 16 - i,
    {
        if g[i] != 0 {
            return false;
        }
        i += 1;
    }
    true
}

/// The bytes of the Linux filesystem partition type
/// 0fc63daf-8483-4772-8e79-3d69d8477de4.
pub open spec fn linux_filesystem_type() -> Seq<u8> {
    seq![0xafu8, 0x3du8, 0xc6u8, 0x0fu8, 0x83u8, 0x84u8, 0x72u8, 0x47u8, 0x8eu8, 0x79u8, 0x3du8, 0x69u8,
        0xd8u8, 0x47u8, 0x7du8, 0xe4u8]
}

/// A partition entry.
pub struct GptEntry {
    pub partition_type_guid: [u8; 16],
    pub partuuid: String,
    pub start_lba: u64,
    pub end_lba: u64,
    pub name: String,
}

/// Copies 16 bytes into a GUID.
fn guid_at(bytes: &[u8], offset: usize) -> (r: [u8; 16])
    requires
        offset + 16 <= bytes@.len(),
    ensures
        r@ == bytes@.subrange(offset as int, offset + 16),
{
    let mut g = [0u8; 16];
    let mut i: usize = 0;
    let total = bytes.len();
    while i < 16
        invariant
            total == bytes@.len(),
            offset + 16 <= bytes@.len(),
            i <= 16,
            forall|j: int| 0 <= j < i ==> g@[j] == bytes@[offset + j],
        decreases 16 - i,
    {
        g[i] = bytes[offset + i];
        i += 1;
    }
    assert(g@ =~= bytes@.subrange(offset as int, offset + 16));
    g
}

impl GptEntry {
    /// Parses a partition entry: none for one shorter than 128 bytes or an
    /// unused one (zero type).
    pub fn parse(bytes: &[u8]) -> (r: Option<Self>)
        ensures
            bytes@.len() < 128 ==> r is None,
            bytes@.len() >= 128 && (forall|i: int| 0 <= i < 16 ==> bytes@[i] == 0) ==> r is None,
            r matches Some(e) ==> e.partition_type_guid@ == bytes@.subrange(0, 16)
                && e.partuuid@ == guid_text(bytes@.subrange(16, 32))
                && e.start_lba == le_value(bytes@.subrange(32, 40))
                && e.end_lba == le_value(bytes@.subrange(40, 48))
                && e.name@ == utf16_decode(code_units(bytes@.subrange(56, 128))),
            bytes@.len() >= 128 && !(forall|i: int| 0 <= i < 16 ==> bytes@[i] == 0) ==> r is Some,
    {
        if bytes.len() < 128 {
            return None;
        }
        let partition_type_guid = guid_at(bytes, 0);
        if guid_is_zero(&partition_type_guid) {
            proof {
                assert forall|i: int| 0 <= i < 16 implies bytes@[i] == 0 by {
                    assert(partition_type_guid@[i] == bytes@.subrange(0, 16)[i]);
                }
            }
            return None;
        }
        let unique = guid_at(bytes, 16);
        let mut name_bytes: Vec<u8> = Vec::new();
        let mut i: usize = 56;
        while i < 128
            invariant
                bytes@.len() >= 128,
                56 <= i <= 128,
                name_bytes@ == bytes@.subrange(56, i as int),
            decreases 128 - i,
        {
            name_bytes.push(bytes[i]);
            i += 1;
            assert(name_bytes@ =~= bytes@.subrange(56, i as int));
        }
        let name = utf16_name_from_bytes(name_bytes.as_slice());
        let start_lba = match read_u64_le(bytes, 32) {
            Some(v) => v,
            None => return None,
        };
        let end_lba = match read_u64_le(bytes, 40) {
            Some(v) => v,
            None => return None,
        };
        Some(GptEntry { partition_type_guid, partuuid: format_guid(&unique), start_lba, end_lba, name })
    }
}

/// The root partition that a table names: the first entry of the Linux
/// filesystem type named "nex", with its block count.
pub struct RootEntry {
    pub partuuid: String,
    pub start_lba: u64,
    pub num_blocks: u64,
}

/// Entry `k` of the table in `entries`.
pub open spec fn entry_bytes(entries: Seq<u8>, size: nat, k: nat) -> Seq<u8> {
    entries.subrange((k * size) as int, ((k + 1) * size) as int)
}

/// Entry `k` is a root candidate: a Linux filesystem entry named "nex".
pub open spec fn is_root_entry(e: Seq<u8>) -> bool {
    e.len() >= 128 && e.subrange(0, 16) == linux_filesystem_type() && !(forall|i: int| 0 <= i < 16 ==> e[i] == 0)
        && utf16_decode(code_units(e.subrange(56, 128))) == "nex"@
}

/// Finds the root partition among `entry_count` entries of `entry_size`
/// bytes read into `entries`: none when the entry size is below 128, the
/// table size overflows, no entry qualifies, or the first qualifying entry
/// ends before it starts or spans every block.
pub fn select_root_entry(entries: &[u8], entry_size: u32, entry_count: u32) -> (r: Option<RootEntry>)
    requires
        entry_size as nat * entry_count as nat <= entries@.len(),
    ensures
        entry_size < 128 ==> r is None,
        r matches Some(root) ==> exists|k: nat|
            k < entry_count && is_root_entry(entry_bytes(entries@, entry_size as nat, k))
                && (forall|j: nat| j < k ==> !is_root_entry(#[trigger] entry_bytes(entries@, entry_size as nat, j)))
                && root.partuuid@ == guid_text(entry_bytes(entries@, entry_size as nat, k).subrange(16, 32))
                && root.start_lba == le_value(entry_bytes(entries@, entry_size as nat, k).subrange(32, 40))
                && root.num_blocks == le_value(entry_bytes(entries@, entry_size as nat, k).subrange(40, 48))
                    - root.start_lba + 1,
        r is None && entry_size >= 128 ==> forall|k: nat|
            k < entry_count && is_root_entry(#[trigger] entry_bytes(entries@, entry_size as nat, k)) ==> exists|j: nat|
                j <= k && is_root_entry(#[trigger] entry_bytes(entries@, entry_size as nat, j)) && ({
                    let e = entry_bytes(entries@, entry_size as nat, j);
                    le_value(e.subrange(40, 48)) < le_value(e.subrange(32, 40))
                        || le_value(e.subrange(40, 48)) - le_value(e.subrange(32, 40)) + 1 >= 0x1_0000_0000_0000_0000
                }),
{
    if entry_size < 128 {
        return None;
    }
    let size = entry_size as usize;
    let count = entry_count as usize;
    let total = entries.len();
    let mut k: usize = 0;
    while k < count
        invariant
            total == entries@.len(),
            size == entry_size,
            count == entry_count,
            size >= 128,
            size * count <= entries@.len(),
            k <= count,
            forall|j: nat| j < k ==> !is_root_entry(#[trigger] entry_bytes(entries@, size as nat, j)),
        decreases count - k,
    {
        proof {
            assert((k + 1) * size <= count * size) by (nonlinear_arith)
                requires
                    k + 1 <= count,
            ;
            assert((k + 1) * size == k * size + size) by (nonlinear_arith);
        }
        let offset = k * size;
        let mut chunk: Vec<u8> = Vec::new();
        let mut i: usize = 0;
        while i < size
            invariant
                total == entries@.len(),
                offset + size <= entries@.len(),
                i <= size,
                chunk@ == entries@.subrange(offset as int, offset + i),
            decreases size - i,
        {
            chunk.push(entries[offset + i]);
            i += 1;
            assert(chunk@ =~= entries@.subrange(offset as int, offset + i));
        }
        assert(chunk@ == entry_bytes(entries@, size as nat, k as nat));
        match GptEntry::parse(chunk.as_slice()) {
            Some(entry) => {
                let is_linux = entry.partition_type_guid[0] == 0xaf && entry.partition_type_guid[1] == 0x3d
                    && entry.partition_type_guid[2] == 0xc6 && entry.partition_type_guid[3] == 0x0f
                    && entry.partition_type_guid[4] == 0x83 && entry.partition_type_guid[5] == 0x84
                    && entry.partition_type_guid[6] == 0x72 && entry.partition_type_guid[7] == 0x47
                    && entry.partition_type_guid[8] == 0x8e && entry.partition_type_guid[9] == 0x79
                    && entry.partition_type_guid[10] == 0x3d && entry.partition_type_guid[11] == 0x69
                    && entry.partition_type_guid[12] == 0xd8 && entry.partition_type_guid[13] == 0x47
                    && entry.partition_type_guid[14] == 0x7d && entry.partition_type_guid[15] == 0xe4;
                proof {
                    if is_linux {
                        assert(entry.partition_type_guid@ =~= linux_filesystem_type());
                    } else {
                        assert(entry.partition_type_guid@ != linux_filesystem_type()) by {
                            if entry.partition_type_guid@ == linux_filesystem_type() {
                                assert(entry.partition_type_guid@[0] == 0xaf);
                            }
                        }
                    }
                }
                if is_linux && str_eq(entry.name.as_str(), "nex") {
                    if entry.end_lba < entry.start_lba {
                        return None;
                    }
                    let span = entry.end_lba - entry.start_lba;
                    if span == u64::MAX {
                        return None;
                    }
                    return Some(RootEntry { partuuid: entry.partuuid, start_lba: entry.start_lba, num_blocks: span + 1 });
                }
            },
            None => {},
        }
        k += 1;
    }
    None
}

} // verus!
