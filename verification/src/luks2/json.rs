//! The LUKS2 JSON metadata: keyslots, segments and digests.
//!
//! The on-disk JSON maps are held as lists of `(id, value)` pairs in the
//! order of their ids, the order in which a sorted map walks them.
use vstd::prelude::*;
use crate::sorted::keys_sorted;
use crate::sorted::seq_lt;
use crate::text::str_eq;
use crate::text::contains;
use crate::text::contains_seq;
use crate::text::before_nul;
use crate::text::bytes_before_nul;
use crate::text::from_utf8;

verus! {

/// top-level LUKS2 JSON metadata
pub struct Luks2Metadata {
    pub keyslots: Vec<(String, Keyslot)>,
    pub segments: Vec<(String, Segment)>,
    pub digests: Vec<(String, Digest)>,
    pub config: Config,
}

/// keyslot entry - stores encrypted master key material
pub struct Keyslot {
    pub keyslot_type: String,
    pub key_size: u32,
    pub priority: Option<i32>,
    pub kdf: Kdf,
    pub af: AntiForensic,
    pub area: KeyslotArea,
}

/// key derivation function parameters
pub struct Kdf {
    pub kdf_type: String,
    pub salt: Vec<u8>,
    pub time: Option<u32>,
    pub memory: Option<u32>,
    pub cpus: Option<u32>,
    pub iterations: Option<u32>,
    pub hash: Option<String>,
}

/// anti-forensic splitter parameters
pub struct AntiForensic {
    pub af_type: String,
    pub stripes: u32,
    pub hash: String,
}

/// keyslot storage area on disk
pub struct KeyslotArea {
    pub area_type: String,
    pub offset: u64,
    pub size: u64,
    pub encryption: String,
    pub key_size: u32,
}

/// segment describing encrypted data area
pub struct Segment {
    pub segment_type: String,
    pub offset: u64,
    pub size: SegmentSize,
    pub encryption: String,
    pub sector_size: u32,
    pub iv_tweak: u64,
}

/// segment size can be a number or "dynamic"
#[derive(Clone, Copy)]
pub enum SegmentSize {
    Fixed(u64),
    Dynamic,
}

/// digest for verifying master key
pub struct Digest {
    pub digest_type: String,
    pub keyslots: Vec<String>,
    pub segments: Vec<String>,
    pub salt: Vec<u8>,
    pub digest: Vec<u8>,
    pub hash: String,
    pub iterations: u32,
}

/// config section
pub struct Config {
    pub json_size: Option<String>,
    pub keyslots_size: Option<String>,
}

impl Default for Config {
    fn default() -> (r: Self)
        ensures
            r.json_size is None && r.keyslots_size is None,
    {
        Config { json_size: None, keyslots_size: None }
    }
}

/// Why the JSON metadata could not be read.
pub enum JsonError {
    ParseError(String),
    InvalidUtf8,
}

/// The JSON text of the metadata area: its bytes up to the first NUL,
/// which must be valid UTF-8.
pub open spec fn metadata_json_text(data: Seq<u8>) -> Option<Seq<char>> {
    if vstd::utf8::valid_utf8(before_nul(data)) {
        Some(vstd::utf8::decode_utf8(before_nul(data)))
    } else {
        None
    }
}

/// The JSON text that the metadata area holds (it is NUL-terminated); the
/// text is then parsed into a `Luks2Metadata`.
pub fn metadata_text(data: &[u8]) -> (r: Result<String, JsonError>)
    ensures
        match r {
            Ok(t) => metadata_json_text(data@) == Some(t@),
            Err(e) => metadata_json_text(data@) is None && e is InvalidUtf8,
        },
{
    match from_utf8(bytes_before_nul(data)) {
        Some(t) => Ok(t),
        None => Err(JsonError::InvalidUtf8),
    }
}

/// A keyslot whose key is derived with Argon2 (id or i).
pub open spec fn is_argon2_slot(ks: Keyslot) -> bool {
    ks.kdf.kdf_type@ == "argon2id"@ || ks.kdf.kdf_type@ == "argon2i"@
}

/// A keyslot whose key is derived with PBKDF2.
pub open spec fn is_pbkdf2_slot(ks: Keyslot) -> bool {
    ks.kdf.kdf_type@ == "pbkdf2"@
}

/// A list of ids holds `id`.
pub open spec fn lists_id(ids: Seq<String>, id: Seq<char>) -> bool {
    exists|i: int| 0 <= i < ids.len() && ids[i]@ == id
}

/// `i` is the first index of `s` whose value satisfies `p`.
pub open spec fn first_where<V>(s: Seq<(String, V)>, p: spec_fn(V) -> bool, i: int) -> bool {
    0 <= i < s.len() && p(s[i].1) && forall|j: int| 0 <= j < i ==> !p(#[trigger] s[j].1)
}

/// The key of entry `i` is the least among the entries that satisfy `p`.
pub open spec fn least_key_where<V>(s: Seq<(String, V)>, p: spec_fn(V) -> bool, i: int) -> bool {
    forall|j: int| 0 <= j < s.len() && p(#[trigger] s[j].1) ==> j == i || seq_lt(s[i].0@, s[j].0@)
}

/// With keys in order, the first entry that satisfies `p` has the least
/// key of those that do.
pub proof fn lemma_first_is_least<V>(s: Seq<(String, V)>, p: spec_fn(V) -> bool, i: int)
    requires
        keys_sorted(s),
        first_where(s, p, i),
    ensures
        least_key_where(s, p, i),
{
    assert forall|j: int| 0 <= j < s.len() && p(#[trigger] s[j].1) implies j == i || seq_lt(s[i].0@, s[j].0@) by {
        if j < i {
            assert(!p(s[j].1));
        } else if j > i {
            assert(seq_lt(s[i].0@, s[j].0@));
        }
    }
}

/// No value of `s` satisfies `p`.
pub open spec fn none_where<V>(s: Seq<(String, V)>, p: spec_fn(V) -> bool) -> bool {
    forall|j: int| 0 <= j < s.len() ==> !p(#[trigger] s[j].1)
}

/// The value of the first entry of `s` that satisfies `p`.
pub open spec fn first_value<V>(s: Seq<(String, V)>, p: spec_fn(V) -> bool) -> Option<V>
    decreases s.len(),
{
    if s.len() == 0 {
        None
    } else if p(s[0].1) {
        Some(s[0].1)
    } else {
        first_value(s.drop_first(), p)
    }
}

/// The first entry that satisfies `p` is the one at `i`.
pub proof fn lemma_first_value_at<V>(s: Seq<(String, V)>, p: spec_fn(V) -> bool, i: int)
    requires
        first_where(s, p, i),
    ensures
        first_value(s, p) == Some(s[i].1),
    decreases i,
{
    if i > 0 {
        assert(!p(s[0].1));
        let t = s.drop_first();
        assert forall|j: int| 0 <= j < i - 1 implies !p(#[trigger] t[j].1) by {
            assert(t[j] == s[j + 1]);
        }
        assert(t[i - 1] == s[i]);
        lemma_first_value_at(t, p, i - 1);
    }
}

/// No entry satisfies `p`: there is no first one.
pub proof fn lemma_first_value_none<V>(s: Seq<(String, V)>, p: spec_fn(V) -> bool)
    requires
        none_where(s, p),
    ensures
        first_value(s, p) is None,
    decreases s.len(),
{
    if s.len() > 0 {
        assert(!p(s[0].1));
        let t = s.drop_first();
        assert forall|j: int| 0 <= j < t.len() implies !p(#[trigger] t[j].1) by {
            assert(t[j] == s[j + 1]);
        }
        lemma_first_value_none(t, p);
    }
}

/// A digest that lists the keyslot `id`.
pub open spec fn covers_keyslot(id: Seq<char>) -> spec_fn(Digest) -> bool {
    |d: Digest| lists_id(d.keyslots@, id)
}

/// A digest that lists segment "0".
pub open spec fn covers_segment_zero() -> spec_fn(Digest) -> bool {
    |d: Digest| lists_id(d.segments@, "0"@)
}

/// Whether `ids` holds `id`.
fn has_id(ids: &Vec<String>, id: &str) -> (r: bool)
    ensures
        r == lists_id(ids@, id@),
{
    let mut i: usize = 0;
    while i < ids.len()
        invariant
            i <= ids@.len(),
            forall|j: int| 0 <= j < i ==> ids@[j]@ != id@,
        decreases ids@.len() - i,
    {
        if str_eq(ids[i].as_str(), id) {
            return true;
        }
        i += 1;
    }
    false
}

/// Whether a keyslot derives its key with Argon2.
fn slot_is_argon2(ks: &Keyslot) -> (r: bool)
    ensures
        r == is_argon2_slot(*ks),
{
    str_eq(ks.kdf.kdf_type.as_str(), "argon2id") || str_eq(ks.kdf.kdf_type.as_str(), "argon2i")
}

/// Whether a keyslot derives its key with PBKDF2.
fn slot_is_pbkdf2(ks: &Keyslot) -> (r: bool)
    ensures
        r == is_pbkdf2_slot(*ks),
{
    str_eq(ks.kdf.kdf_type.as_str(), "pbkdf2")
}

impl Luks2Metadata {
    /// The keyslots, segments and digests are in key order, each key once,
    /// as the JSON object's map holds them.
    pub open spec fn wf(&self) -> bool {
        keys_sorted(self.keyslots@) && keys_sorted(self.segments@) && keys_sorted(self.digests@)
    }

    /// find first active keyslot with argon2id KDF
    pub fn find_argon2id_keyslot(&self) -> (r: Option<(&String, &Keyslot)>)
        ensures
            match r {
                Some((id, ks)) => exists|i: int|
                    first_where(self.keyslots@, |k: Keyslot| is_argon2_slot(k), i) && *id
                        == self.keyslots@[i].0 && *ks == self.keyslots@[i].1 && (self.wf() ==> least_key_where(
                        self.keyslots@,
                        |k: Keyslot| is_argon2_slot(k),
                        i,
                    )),
                None => none_where(self.keyslots@, |k: Keyslot| is_argon2_slot(k)),
            },
    {
        let mut i: usize = 0;
        while i < self.keyslots.len()
            invariant
                i <= self.keyslots@.len(),
                forall|j: int| 0 <= j < i ==> !is_argon2_slot(#[trigger] self.keyslots@[j].1),
            decreases self.keyslots@.len() - i,
        {
            let entry = &self.keyslots[i];
            if slot_is_argon2(&entry.1) {
                assert(first_where(self.keyslots@, |k: Keyslot| is_argon2_slot(k), i as int));
                proof {
                    if self.wf() {
                        lemma_first_is_least(self.keyslots@, |k: Keyslot| is_argon2_slot(k), i as int);
                    }
                }
                return Some((&entry.0, &entry.1));
            }
            i += 1;
        }
        None
    }

    /// find first PBKDF2 keyslot (fallback)
    pub fn find_pbkdf2_keyslot(&self) -> (r: Option<(&String, &Keyslot)>)
        ensures
            match r {
                Some((id, ks)) => exists|i: int|
                    first_where(self.keyslots@, |k: Keyslot| is_pbkdf2_slot(k), i) && *id
                        == self.keyslots@[i].0 && *ks == self.keyslots@[i].1 && (self.wf() ==> least_key_where(
                        self.keyslots@,
                        |k: Keyslot| is_pbkdf2_slot(k),
                        i,
                    )),
                None => none_where(self.keyslots@, |k: Keyslot| is_pbkdf2_slot(k)),
            },
    {
        let mut i: usize = 0;
        while i < self.keyslots.len()
            invariant
                i <= self.keyslots@.len(),
                forall|j: int| 0 <= j < i ==> !is_pbkdf2_slot(#[trigger] self.keyslots@[j].1),
            decreases self.keyslots@.len() - i,
        {
            let entry = &self.keyslots[i];
            if slot_is_pbkdf2(&entry.1) {
                assert(first_where(self.keyslots@, |k: Keyslot| is_pbkdf2_slot(k), i as int));
                proof {
                    if self.wf() {
                        lemma_first_is_least(self.keyslots@, |k: Keyslot| is_pbkdf2_slot(k), i as int);
                    }
                }
                return Some((&entry.0, &entry.1));
            }
            i += 1;
        }
        None
    }

    /// The data segment, the one with id "0".
    pub fn data_segment(&self) -> (r: Option<&Segment>)
        ensures
            match r {
                Some(s) => exists|i: int|
                    0 <= i < self.segments@.len() && self.segments@[i].0@ == "0"@ && *s
                        == self.segments@[i].1 && forall|j: int|
                        0 <= j < i ==> (#[trigger] self.segments@[j]).0@ != "0"@,
                None => forall|j: int|
                    0 <= j < self.segments@.len() ==> (#[trigger] self.segments@[j]).0@ != "0"@,
            },
    {
        let mut i: usize = 0;
        while i < self.segments.len()
            invariant
                i <= self.segments@.len(),
                forall|j: int| 0 <= j < i ==> (#[trigger] self.segments@[j]).0@ != "0"@,
            decreases self.segments@.len() - i,
        {
            let entry = &self.segments[i];
            if str_eq(entry.0.as_str(), "0") {
                return Some(&entry.1);
            }
            i += 1;
        }
        None
    }

    /// find digest that covers a keyslot
    pub fn find_digest_for_keyslot(&self, keyslot_id: &str) -> (r: Option<&Digest>)
        ensures
            match r {
                Some(d) => exists|i: int|
                    first_where(self.digests@, covers_keyslot(keyslot_id@), i) && *d
                        == self.digests@[i].1 && (self.wf() ==> least_key_where(self.digests@, covers_keyslot(keyslot_id@), i)),
                None => none_where(self.digests@, covers_keyslot(keyslot_id@)),
            },
    {
        let mut i: usize = 0;
        while i < self.digests.len()
            invariant
                i <= self.digests@.len(),
                forall|j: int|
                    0 <= j < i ==> !covers_keyslot(keyslot_id@)(#[trigger] self.digests@[j].1),
            decreases self.digests@.len() - i,
        {
            let entry = &self.digests[i];
            if has_id(&entry.1.keyslots, keyslot_id) {
                assert(first_where(self.digests@, covers_keyslot(keyslot_id@), i as int));
                proof {
                    if self.wf() {
                        lemma_first_is_least(self.digests@, covers_keyslot(keyslot_id@), i as int);
                    }
                }
                return Some(&entry.1);
            }
            i += 1;
        }
        None
    }

    /// The first digest that covers segment "0", if any.
    pub fn find_digest_for_data_segment(&self) -> (r: Option<&Digest>)
        ensures
            match r {
                Some(d) => exists|i: int|
                    first_where(self.digests@, covers_segment_zero(), i) && *d
                        == self.digests@[i].1 && (self.wf() ==> least_key_where(self.digests@, covers_segment_zero(), i)),
                None => none_where(self.digests@, covers_segment_zero()),
            },
    {
        let mut i: usize = 0;
        while i < self.digests.len()
            invariant
                i <= self.digests@.len(),
                forall|j: int| 0 <= j < i ==> !covers_segment_zero()(#[trigger] self.digests@[j].1),
            decreases self.digests@.len() - i,
        {
            let entry = &self.digests[i];
            if has_id(&entry.1.segments, "0") {
                assert(first_where(self.digests@, covers_segment_zero(), i as int));
                proof {
                    if self.wf() {
                        lemma_first_is_least(self.digests@, covers_segment_zero(), i as int);
                    }
                }
                return Some(&entry.1);
            }
            i += 1;
        }
        None
    }
}

/// Whether the encryption names an AES-XTS cipher, which is the only one
/// the data reader can decrypt.
pub open spec fn is_aes_xts(enc: Seq<char>) -> bool {
    contains_seq(enc, "aes"@) && contains_seq(enc, "xts"@)
}

/// `true` when the segment's cipher is AES in XTS mode.
pub fn segment_is_aes_xts(segment: &Segment) -> (r: bool)
    ensures
        r == is_aes_xts(segment.encryption@),
{
    contains(segment.encryption.as_str(), "aes") && contains(segment.encryption.as_str(), "xts")
}

} // verus!
