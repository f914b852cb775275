//! The 4096-byte binary header at the start of a LUKS2 volume.
use vstd::prelude::*;
use crate::text::utf8_lossy;
use crate::text::from_utf8_lossy;

verus! {

/// The LUKS magic "LUKS\xba\xbe" at offset 0.
pub open spec fn luks_magic() -> Seq<u8> {
    seq![0x4cu8, 0x55u8, 0x4bu8, 0x53u8, 0xbau8, 0xbeu8]
}

/// The header version this library reads.
pub const LUKS2_VERSION: u16 = 2;

/// The size of the binary header; the JSON area follows it.
pub const BINARY_HEADER_SIZE: u64 = 4096;

/// The big-endian number whose bytes are `s`.
pub open spec fn be_value(s: Seq<u8>) -> nat
    decreases s.len(),
{
    if s.len() == 0 {
        0
    } else {
        be_value(s.drop_last()) * 256 + s.last() as nat
    }
}

/// `2^(8 n)`, the bound of an `n`-byte number.
pub open spec fn byte_bound(n: nat) -> nat
    decreases n,
{
    if n == 0 {
        1
    } else {
        byte_bound((n - 1) as nat) * 256
    }
}

/// A big-endian number of `n` bytes is below `2^(8 n)`.
pub proof fn lemma_be_value_bound(s: Seq<u8>)
    ensures
        be_value(s) < byte_bound(s.len()),
    decreases s.len(),
{
    if s.len() > 0 {
        lemma_be_value_bound(s.drop_last());
        let v = be_value(s.drop_last());
        let b = byte_bound((s.len() - 1) as nat);
        assert(v * 256 + s.last() < b * 256) by (nonlinear_arith)
            requires
                v < b,
                s.last() < 256,
        ;
    }
}

/// The number of bytes before the first NUL of `s` (all of `s` if it has none).
pub open spec fn cstr_len(s: Seq<u8>) -> nat
    decreases s.len(),
{
    if s.len() == 0 {
        0
    } else if s[0] == 0 {
        0
    } else {
        1 + cstr_len(s.drop_first())
    }
}

/// The text of a NUL-terminated field.
pub open spec fn cstr_text(s: Seq<u8>) -> Seq<char> {
    utf8_lossy(s.subrange(0, cstr_len(s) as int))
}

/// LUKS2 binary header (first 512 bytes are used, rest is padding)
pub struct Luks2BinaryHeader {
    pub version: u16,
    pub hdr_size: u64,
    pub seqid: u64,
    pub label: String,
    pub checksum_alg: String,
    pub salt: [u8; 64],
    pub uuid: String,
    pub hdr_offset: u64,
}

/// Why a binary header was refused.
pub enum HeaderError {
    InvalidMagic,
    UnsupportedVersion(u16),
    BufferTooSmall,
}

/// The version field of a header, big-endian at offset 6.
pub open spec fn header_version(d: Seq<u8>) -> nat {
    be_value(d.subrange(6, 8))
}

/// What `Luks2BinaryHeader::parse` returns for the bytes `d`.
pub open spec fn parse_outcome(d: Seq<u8>, r: Result<Luks2BinaryHeader, HeaderError>) -> bool {
    if d.len() < 512 {
        r matches Err(HeaderError::BufferTooSmall)
    } else if d.subrange(0, 6) != luks_magic() {
        r matches Err(HeaderError::InvalidMagic)
    } else if header_version(d) != 2 {
        r matches Err(HeaderError::UnsupportedVersion(v)) && v == header_version(d)
    } else {
        r matches Ok(h) && h.version == 2 && h.hdr_size == be_value(d.subrange(8, 16))
            && h.seqid == be_value(d.subrange(16, 24)) && h.label@ == cstr_text(d.subrange(24, 72))
            && h.checksum_alg@ == cstr_text(d.subrange(72, 104)) && h.salt@ == d.subrange(104, 168)
            && h.uuid@ == cstr_text(d.subrange(168, 208)) && h.hdr_offset == be_value(
            d.subrange(256, 264),
        )
    }
}

/// Reads the big-endian number in `d[from..to]`.
fn read_be(d: &[u8], from: usize, to: usize) -> (r: u64)
    requires
        from <= to <= d@.len(),
        to - from <= 8,
    ensures
        r == be_value(d@.subrange(from as int, to as int)),
{
    let mut acc: u64 = 0;
    let mut i: usize = from;
    while i < to
        invariant
            from <= i <= to <= d@.len(),
            to - from <= 8,
            acc == be_value(d@.subrange(from as int, i as int)),
        decreases to - i,
    {
        proof {
            lemma_be_value_bound(d@.subrange(from as int, i as int));
            lemma_byte_bound_le((i - from) as nat, 7);
        }
        let ghost prev = d@.subrange(from as int, i as int);
        acc = acc * 256 + d[i] as u64;
        i += 1;
        assert(d@.subrange(from as int, i as int).drop_last() =~= prev);
    }
    acc
}

/// `2^(8 a) <= 2^(8 b)` for `a <= b`, and `2^56` is the bound of seven bytes.
proof fn lemma_byte_bound_le(a: nat, b: nat)
    requires
        a <= b,
        b <= 7,
    ensures
        byte_bound(a) <= byte_bound(b),
        byte_bound(b) <= 0x100000000000000,
    decreases b,
{
    reveal_with_fuel(byte_bound, 8);
    if a < b {
        lemma_byte_bound_le(a, (b - 1) as nat);
    }
}

/// Every byte before `i` is non-zero and `i` ends the field: `i` is its
/// NUL-terminated length.
proof fn lemma_cstr_len(s: Seq<u8>, i: int)
    requires
        0 <= i <= s.len(),
        forall|j: int| 0 <= j < i ==> s[j] != 0,
        i == s.len() || s[i] == 0,
    ensures
        cstr_len(s) == i,
    decreases i,
{
    if i > 0 {
        let t = s.drop_first();
        assert forall|j: int| 0 <= j < i - 1 implies t[j] != 0 by {
            assert(t[j] == s[j + 1]);
        }
        if i - 1 < t.len() {
            assert(t[i - 1] == s[i]);
        }
        lemma_cstr_len(t, i - 1);
    }
}

/// parse null-terminated string from byte slice
fn parse_null_terminated(d: &[u8], from: usize, to: usize) -> (r: String)
    requires
        from <= to <= d@.len(),
    ensures
        r@ == cstr_text(d@.subrange(from as int, to as int)),
{
    let ghost s = d@.subrange(from as int, to as int);
    let mut i: usize = from;
    while i < to && d[i] != 0
        invariant
            from <= i <= to <= d@.len(),
            s == d@.subrange(from as int, to as int),
            forall|j: int| 0 <= j < i - from ==> s[j] != 0,
        decreases to - i,
    {
        assert(s[i - from] == d@[i as int]);
        i += 1;
    }
    proof {
        if i < to {
            assert(s[i - from] == d@[i as int]);
        }
        lemma_cstr_len(s, i - from);
    }
    let mut field: Vec<u8> = Vec::new();
    let mut k: usize = from;
    while k < i
        invariant
            from <= k <= i <= to <= d@.len(),
            field@ == d@.subrange(from as int, k as int),
        decreases i - k,
    {
        field.push(d[k]);
        k += 1;
        assert(field@ =~= d@.subrange(from as int, k as int));
    }
    assert(field@ =~= s.subrange(0, cstr_len(s) as int));
    from_utf8_lossy(field.as_slice())
}

/// Whether the six bytes at the start of `d` are the LUKS magic.
fn has_magic(d: &[u8]) -> (r: bool)
    requires
        d@.len() >= 6,
    ensures
        r == (d@.subrange(0, 6) == luks_magic()),
{
    let r = d[0] == 0x4c && d[1] == 0x55 && d[2] == 0x4b && d[3] == 0x53 && d[4] == 0xba && d[5]
        == 0xbe;
    if r {
        assert(d@.subrange(0, 6) =~= luks_magic());
    } else {
        assert(d@.subrange(0, 6) != luks_magic()) by {
            if d@.subrange(0, 6) == luks_magic() {
                assert(d@.subrange(0, 6)[0] == d@[0]);
                assert(d@.subrange(0, 6)[1] == d@[1]);
                assert(d@.subrange(0, 6)[2] == d@[2]);
                assert(d@.subrange(0, 6)[3] == d@[3]);
                assert(d@.subrange(0, 6)[4] == d@[4]);
                assert(d@.subrange(0, 6)[5] == d@[5]);
            }
        }
    }
    r
}

impl Luks2BinaryHeader {
    /// parse LUKS2 binary header from raw bytes
    pub fn parse(data: &[u8]) -> (r: Result<Self, HeaderError>)
        ensures
            parse_outcome(data@, r),
    {
        if data.len() < 512 {
            return Err(HeaderError::BufferTooSmall);
        }
        if !has_magic(data) {
            return Err(HeaderError::InvalidMagic);
        }
        let v = read_be(data, 6, 8);
        proof {
            lemma_be_value_bound(data@.subrange(6, 8));
            reveal_with_fuel(byte_bound, 3);
        }
        let version = v as u16;
        if version != LUKS2_VERSION {
            return Err(HeaderError::UnsupportedVersion(version));
        }
        let hdr_size = read_be(data, 8, 16);
        let seqid = read_be(data, 16, 24);
        let label = parse_null_terminated(data, 24, 72);
        let checksum_alg = parse_null_terminated(data, 72, 104);
        let mut salt = [0u8; 64];
        let mut i: usize = 0;
        while i < 64
            invariant
                i <= 64,
                data@.len() >= 512,
                forall|j: int| 0 <= j < i ==> salt@[j] == data@[104 + j],
            decreases 64 - i,
        {
            salt[i] = data[104 + i];
            i += 1;
        }
        assert(salt@ =~= data@.subrange(104, 168));
        let uuid = parse_null_terminated(data, 168, 208);
        let hdr_offset = read_be(data, 256, 264);
        Ok(Self { version, hdr_size, seqid, label, checksum_alg, salt, uuid, hdr_offset })
    }

    /// offset where JSON metadata begins (after binary header)
    pub fn json_offset(&self) -> (r: u64)
        ensures
            r == BINARY_HEADER_SIZE,
    {
        BINARY_HEADER_SIZE
    }

    /// Size of the JSON metadata area: the header size less the binary
    /// header, or zero when the header size is smaller.
    pub fn json_size(&self) -> (r: u64)
        ensures
            r == (if self.hdr_size >= BINARY_HEADER_SIZE {
                self.hdr_size - BINARY_HEADER_SIZE
            } else {
                0
            }),
    {
        self.hdr_size.saturating_sub(BINARY_HEADER_SIZE)
    }
}

/// check if data starts with LUKS magic
pub fn is_luks(data: &[u8]) -> (r: bool)
    ensures
        r == (data@.len() >= 6 && data@.subrange(0, 6) == luks_magic()),
{
    data.len() >= 6 && has_magic(data)
}

/// check if data is LUKS2 specifically
pub fn is_luks2(data: &[u8]) -> (r: bool)
    ensures
        r == (data@.len() >= 8 && data@.subrange(0, 6) == luks_magic() && header_version(data@)
            == 2),
{
    if data.len() < 8 {
        return false;
    }
    if !has_magic(data) {
        return false;
    }
    let version = read_be(data, 6, 8);
    version == 2
}

/// Data that `is_luks2` accepts also passes `is_luks`.
pub proof fn lemma_luks2_is_luks(data: Seq<u8>)
    requires
        data.len() >= 8,
        data.subrange(0, 6) == luks_magic(),
        header_version(data) == 2,
    ensures
        data.len() >= 6 && data.subrange(0, 6) == luks_magic(),
{
}

/// A header of at least 512 bytes that `is_luks2` accepts is parsed
/// successfully, and the parsed version is 2.
pub proof fn lemma_luks2_parses(data: Seq<u8>, r: Result<Luks2BinaryHeader, HeaderError>)
    requires
        data.len() >= 512,
        data.subrange(0, 6) == luks_magic(),
        header_version(data) == 2,
        parse_outcome(data, r),
    ensures
        r matches Ok(h) && h.version == 2,
{
}

} // verus!
