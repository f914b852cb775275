//! The decisions of unlocking a LUKS2 volume: which keyslot to use, where
//! its key material lies, how the master key is recovered and checked, and
//! which sectors a read of the decrypted volume needs.
use vstd::prelude::*;
use crate::luks2::header::HeaderError;
use crate::luks2::json::Luks2Metadata;
use crate::luks2::json::Keyslot;
use crate::luks2::json::Segment;
use crate::luks2::json::Digest;
use crate::luks2::json::JsonError;
use crate::luks2::json::is_argon2_slot;
use crate::luks2::json::is_pbkdf2_slot;
use crate::luks2::json::is_aes_xts;
use crate::luks2::json::segment_is_aes_xts;
use crate::luks2::json::first_where;
use crate::luks2::json::none_where;
use crate::luks2::json::first_value;
use crate::luks2::json::covers_keyslot;
use crate::luks2::json::covers_segment_zero;
use crate::luks2::json::lemma_first_value_at;
use crate::luks2::json::lemma_first_value_none;
use crate::luks2::crypto::CryptoError;
use crate::luks2::crypto::AesXts;
use crate::luks2::crypto::derive_key;
use crate::luks2::crypto::derive_key_admits;
use crate::luks2::crypto::derived_key;
use crate::luks2::crypto::pbkdf2_hash_name;
use crate::luks2::crypto::pbkdf2_sha256_output;
use crate::luks2::crypto::af_merge;
use crate::luks2::crypto::af_merged;
use crate::luks2::crypto::decrypted;
use crate::luks2::crypto::verify_master_key;
use crate::text::to_owned_string;

verus! {

/// Why a volume could not be unlocked.
pub enum Luks2Error {
    InvalidHeader(HeaderError),
    InvalidJson(JsonError),
    IoError(String),
    NoKeyslot,
    NoSegment,
    CryptoError(CryptoError),
    PassphraseError,
    KeyVerificationFailed,
    InvalidKeySize,
    UnsupportedCipher(String),
}

/// The sector size of keyslot areas.
pub const KEYSLOT_SECTOR_SIZE: usize = 512;

/// The most JSON metadata read from disk.
pub const MAX_JSON_READ: u64 = 65536;

/// Refuses a data segment whose cipher the reader cannot decrypt.
pub fn validate_segment(segment: &Segment) -> (r: Result<(), Luks2Error>)
    ensures
        is_aes_xts(segment.encryption@) ==> r is Ok,
        !is_aes_xts(segment.encryption@) ==> (r matches Err(Luks2Error::UnsupportedCipher(c))
            && c@ == segment.encryption@),
{
    if !segment_is_aes_xts(segment) {
        return Err(Luks2Error::UnsupportedCipher(to_owned_string(segment.encryption.as_str())));
    }
    Ok(())
}

/// The keyslot to unlock with: the first Argon2 one, else the first PBKDF2
/// one.
pub open spec fn chosen_keyslot(m: Luks2Metadata) -> Option<(String, Keyslot)> {
    match first_entry(m.keyslots@, |k: Keyslot| is_argon2_slot(k)) {
        Some(e) => Some(e),
        None => first_entry(m.keyslots@, |k: Keyslot| is_pbkdf2_slot(k)),
    }
}

/// The first entry of `s` whose value satisfies `p`.
pub open spec fn first_entry<V>(s: Seq<(String, V)>, p: spec_fn(V) -> bool) -> Option<(String, V)>
    decreases s.len(),
{
    if s.len() == 0 {
        None
    } else if p(s[0].1) {
        Some(s[0])
    } else {
        first_entry(s.drop_first(), p)
    }
}

proof fn lemma_first_entry_at<V>(s: Seq<(String, V)>, p: spec_fn(V) -> bool, i: int)
    requires
        first_where(s, p, i),
    ensures
        first_entry(s, p) == Some(s[i]),
    decreases i,
{
    if i > 0 {
        let t = s.drop_first();
        assert forall|j: int| 0 <= j < i - 1 implies !p(#[trigger] t[j].1) by {
            assert(t[j] == s[j + 1]);
        }
        assert(t[i - 1] == s[i]);
        lemma_first_entry_at(t, p, i - 1);
    }
}

proof fn lemma_first_entry_none<V>(s: Seq<(String, V)>, p: spec_fn(V) -> bool)
    requires
        none_where(s, p),
    ensures
        first_entry(s, p) is None,
    decreases s.len(),
{
    if s.len() > 0 {
        assert(!p(s[0].1));
        let t = s.drop_first();
        assert forall|j: int| 0 <= j < t.len() implies !p(#[trigger] t[j].1) by {
            assert(t[j] == s[j + 1]);
        }
        lemma_first_entry_none(t, p);
    }
}

/// Picks the keyslot to unlock with.
pub fn select_keyslot(metadata: &Luks2Metadata) -> (r: Result<(&String, &Keyslot), Luks2Error>)
    ensures
        match chosen_keyslot(*metadata) {
            Some(e) => r matches Ok((id, ks)) && *id == e.0 && *ks == e.1,
            None => r matches Err(Luks2Error::NoKeyslot),
        },
{
    match metadata.find_argon2id_keyslot() {
        Some(found) => {
            proof {
                let i = choose|i: int|
                    first_where(metadata.keyslots@, |k: Keyslot| is_argon2_slot(k), i)
                        && *found.0 == metadata.keyslots@[i].0 && *found.1
                        == metadata.keyslots@[i].1;
                lemma_first_entry_at(metadata.keyslots@, |k: Keyslot| is_argon2_slot(k), i);
            }
            Ok(found)
        },
        None => {
            proof {
                lemma_first_entry_none(metadata.keyslots@, |k: Keyslot| is_argon2_slot(k));
            }
            match metadata.find_pbkdf2_keyslot() {
                Some(found) => {
                    proof {
                        let i = choose|i: int|
                            first_where(metadata.keyslots@, |k: Keyslot| is_pbkdf2_slot(k), i)
                                && *found.0 == metadata.keyslots@[i].0 && *found.1
                                == metadata.keyslots@[i].1;
                        lemma_first_entry_at(metadata.keyslots@, |k: Keyslot| is_pbkdf2_slot(k), i);
                    }
                    Ok(found)
                },
                None => {
                    proof {
                        lemma_first_entry_none(metadata.keyslots@, |k: Keyslot| is_pbkdf2_slot(k));
                    }
                    Err(Luks2Error::NoKeyslot)
                },
            }
        },
    }
}

/// What checking `key` against the digest `d` gives.
pub open spec fn digest_check(d: Digest, key: Seq<u8>, r: Result<(), Luks2Error>) -> bool {
    if d.hash@ != "sha256"@ {
        r matches Err(Luks2Error::CryptoError(CryptoError::UnsupportedHash(h))) && h@ == d.hash@
    } else if pbkdf2_sha256_output(key, d.salt@, d.iterations, d.digest@.len()) == d.digest@ {
        r is Ok
    } else {
        r matches Err(Luks2Error::KeyVerificationFailed)
    }
}

/// What checking `key` against the first digest that satisfies `p` gives:
/// success when there is none.
pub open spec fn key_check(digests: Seq<(String, Digest)>, p: spec_fn(Digest) -> bool, key: Seq<u8>, r: Result<(), Luks2Error>) -> bool {
    match first_value(digests, p) {
        None => r is Ok,
        Some(d) => digest_check(d, key, r),
    }
}

/// Digests short enough for PBKDF2 to produce.
pub open spec fn digests_admissible(m: Luks2Metadata) -> bool {
    forall|i: int| 0 <= i < m.digests@.len() ==> (#[trigger] m.digests@[i]).1.digest@.len() < 0x20_0000_0000
}

fn check_digest(d: &Digest, master_key: &[u8]) -> (r: Result<(), Luks2Error>)
    requires
        d.digest@.len() < 0x20_0000_0000,
    ensures
        digest_check(*d, master_key@, r),
{
    match verify_master_key(
        master_key,
        d.salt.as_slice(),
        d.digest.as_slice(),
        d.iterations,
        d.hash.as_str(),
    ) {
        Ok(true) => Ok(()),
        Ok(false) => Err(Luks2Error::KeyVerificationFailed),
        Err(e) => Err(Luks2Error::CryptoError(e)),
    }
}

/// verify master key against any available digest in metadata
pub fn verify_master_key_against_metadata(master_key: &[u8], metadata: &Luks2Metadata) -> (r:
    Result<(), Luks2Error>)
    requires
        digests_admissible(*metadata),
    ensures
        key_check(metadata.digests@, covers_segment_zero(), master_key@, r),
{
    match metadata.find_digest_for_data_segment() {
        Some(d) => {
            proof {
                let i = choose|i: int|
                    first_where(metadata.digests@, covers_segment_zero(), i) && *d
                        == metadata.digests@[i].1;
                lemma_first_value_at(metadata.digests@, covers_segment_zero(), i);
            }
            check_digest(d, master_key)
        },
        None => {
            proof {
                lemma_first_value_none(metadata.digests@, covers_segment_zero());
            }
            Ok(())
        },
    }
}

/// verify the recovered key against the digest of its keyslot
pub fn verify_keyslot_master_key(master_key: &[u8], metadata: &Luks2Metadata, slot_id: &str) -> (r:
    Result<(), Luks2Error>)
    requires
        digests_admissible(*metadata),
    ensures
        key_check(metadata.digests@, covers_keyslot(slot_id@), master_key@, r),
{
    match metadata.find_digest_for_keyslot(slot_id) {
        Some(d) => {
            proof {
                let i = choose|i: int|
                    first_where(metadata.digests@, covers_keyslot(slot_id@), i) && *d
                        == metadata.digests@[i].1;
                lemma_first_value_at(metadata.digests@, covers_keyslot(slot_id@), i);
            }
            check_digest(d, master_key)
        },
        None => {
            proof {
                lemma_first_value_none(metadata.digests@, covers_keyslot(slot_id@));
            }
            Ok(())
        },
    }
}

/// A master key from the TPM is used once it passes the data segment's
/// digest.
pub fn accept_tpm_key(tpm_key: Vec<u8>, metadata: &Luks2Metadata) -> (r: Result<Vec<u8>, Luks2Error>)
    requires
        digests_admissible(*metadata),
    ensures
        r matches Ok(k) ==> k@ == tpm_key@,
        key_check(metadata.digests@, covers_segment_zero(), tpm_key@, match r {
            Ok(_) => Ok(()),
            Err(e) => Err(e),
        }),
{
    match verify_master_key_against_metadata(tpm_key.as_slice(), metadata) {
        Ok(()) => Ok(tpm_key),
        Err(e) => Err(e),
    }
}

/// Where the key material of a keyslot area lies: the first block to read,
/// the number of bytes to read, and the material's offset in them.
pub struct AreaPlan {
    pub start_block: u64,
    pub read_len: usize,
    pub offset_in_block: usize,
}

/// `ceil(a / b)`.
pub open spec fn div_ceil(a: nat, b: nat) -> nat {
    ((a + b - 1) as nat) / b
}

/// Plans the read of a keyslot area of `size` bytes at byte `offset`.
pub fn keyslot_area_plan(block_size: usize, offset: u64, size: u64) -> (r: AreaPlan)
    requires
        block_size > 0,
        (offset as nat) % (block_size as nat) + size + block_size <= usize::MAX,
    ensures
        r.start_block == (offset as nat) / (block_size as nat),
        r.offset_in_block == (offset as nat) % (block_size as nat),
        r.read_len == div_ceil((r.offset_in_block + size) as nat, block_size as nat) * block_size,
        r.offset_in_block + size <= r.read_len,
{
    let bs = block_size as u64;
    let start_block = offset / bs;
    let offset_in_block = (offset % bs) as usize;
    let need = offset_in_block + size as usize;
    let blocks = (need + block_size - 1) / block_size;
    proof {
        vstd::arithmetic::div_mod::lemma_fundamental_div_mod((need + block_size - 1) as int, block_size as int);
        assert(blocks * block_size <= need + block_size - 1) by (nonlinear_arith)
            requires
                blocks == (need + block_size - 1) / (block_size as int),
                block_size > 0,
                need + block_size - 1 == block_size * blocks + (need + block_size - 1) % (block_size as int),
                (need + block_size - 1) % (block_size as int) >= 0;
        assert(need <= blocks * block_size) by (nonlinear_arith)
            requires
                blocks == (need + block_size - 1) / (block_size as int),
                block_size > 0,
                need + block_size - 1 == block_size * blocks + (need + block_size - 1) % (block_size as int),
                (need + block_size - 1) % (block_size as int) < block_size;
    }
    AreaPlan { start_block, read_len: blocks * block_size, offset_in_block }
}

/// How the metadata of a volume is read: the bytes of whole blocks that
/// hold the binary header, then the JSON area (at most `MAX_JSON_READ`
/// bytes of it) from its first block.
pub struct MetadataPlan {
    pub header_read_len: usize,
    pub json_read_size: usize,
    pub json_start_block: u64,
    pub json_read_len: usize,
}

/// Plans the reads of a volume's metadata, with disk blocks of
/// `block_size` bytes, for a JSON area of `json_size` bytes at byte
/// `json_offset`.
pub fn metadata_read_plan(block_size: usize, json_offset: u64, json_size: u64) -> (r: MetadataPlan)
    requires
        0 < block_size <= usize::MAX - 65536,
        json_size <= usize::MAX,
    ensures
        r.header_read_len == div_ceil(4096, block_size as nat) * block_size,
        r.json_read_size == if json_size < MAX_JSON_READ {
            json_size as nat
        } else {
            MAX_JSON_READ as nat
        },
        r.json_start_block == (json_offset as nat) / (block_size as nat),
        r.json_read_len == div_ceil(r.json_read_size as nat, block_size as nat) * block_size,
        r.json_read_size <= r.json_read_len,
{
    let header_blocks = (4096 + block_size - 1) / block_size;
    let size = json_size as usize;
    let json_read_size: usize = if size < 65536 {
        size
    } else {
        65536
    };
    let json_start_block = json_offset / block_size as u64;
    let json_blocks = (json_read_size + block_size - 1) / block_size;
    proof {
        let x = (json_read_size + block_size - 1) as int;
        vstd::arithmetic::div_mod::lemma_fundamental_div_mod(x, block_size as int);
        vstd::arithmetic::div_mod::lemma_mod_pos_bound(x, block_size as int);
        vstd::arithmetic::mul::lemma_mul_is_commutative(block_size as int, json_blocks as int);
        assert(json_blocks * block_size <= x);
        assert(header_blocks * block_size <= 4096 + block_size - 1) by (nonlinear_arith)
            requires
                header_blocks == (4096 + block_size - 1) / (block_size as int),
                0 < block_size,
        {
            vstd::arithmetic::div_mod::lemma_fundamental_div_mod(4096 + block_size - 1, block_size as int);
            vstd::arithmetic::div_mod::lemma_mod_pos_bound(4096 + block_size - 1, block_size as int);
        }
    }
    MetadataPlan {
        header_read_len: header_blocks * block_size,
        json_read_size,
        json_start_block,
        json_read_len: json_blocks * block_size,
    }
}

/// The key material of a keyslot: `size` bytes at `offset % block_size` of
/// the area that was read.
pub open spec fn material_of(area: Seq<u8>, block_size: nat, offset: u64, size: u64) -> Seq<u8> {
    let start = (offset as nat) % block_size;
    area.subrange(start as int, start + size)
}

/// Copies the key material out of the keyslot area.
pub fn keyslot_material(area_buf: &Vec<u8>, block_size: usize, keyslot: &Keyslot) -> (r: Vec<u8>)
    requires
        block_size > 0,
        (keyslot.area.offset as nat) % (block_size as nat) + keyslot.area.size <= area_buf@.len(),
    ensures
        r@ == material_of(area_buf@, block_size as nat, keyslot.area.offset, keyslot.area.size),
{
    let total = area_buf.len();
    let start = (keyslot.area.offset % (block_size as u64)) as usize;
    let size = keyslot.area.size as usize;
    let mut out: Vec<u8> = Vec::new();
    let mut i: usize = 0;
    while i < size
        invariant
            start + size <= area_buf@.len(),
            total == area_buf@.len(),
            i <= size,
            out@ == area_buf@.subrange(start as int, start + i),
        decreases size - i,
    {
        out.push(area_buf[start + i]);
        i += 1;
        assert(out@ =~= area_buf@.subrange(start as int, start + i));
    }
    out
}

/// The master key that a passphrase recovers from a keyslot's material:
/// derive the keyslot key, decrypt the material with it, merge the stripes.
pub open spec fn recovered_key(passphrase: Seq<u8>, ks: Keyslot, material: Seq<u8>) -> Seq<u8> {
    let dk = derived_key(passphrase, ks.kdf, ks.area.key_size as nat);
    af_merged(decrypted(dk, 512, 0, material), ks.key_size as nat, ks.af.stripes as nat)
}

/// The inputs on which recovery runs without a panic in the calls it makes.
pub open spec fn recovery_admits(ks: Keyslot, material: Seq<u8>) -> bool {
    &&& derive_key_admits(ks.kdf, ks.area.key_size as nat)
    &&& ks.af.stripes * ks.key_size <= material.len()
}

/// Recovers the master key with a passphrase from the key material of the
/// keyslot `slot_id` and checks it against the keyslot's digest.
pub fn recover_master_key(
    passphrase: &[u8],
    metadata: &Luks2Metadata,
    slot_id: &str,
    keyslot: &Keyslot,
    material: Vec<u8>,
) -> (r: Result<Vec<u8>, Luks2Error>)
    requires
        recovery_admits(*keyslot, material@),
        digests_admissible(*metadata),
    ensures
        r matches Ok(k) ==> k@ == recovered_key(passphrase@, *keyslot, material@) && key_check(
            metadata.digests@,
            covers_keyslot(slot_id@),
            k@,
            Ok(()),
        ),
        keyslot.area.key_size != 64 && keyslot.kdf.kdf_type@ == "pbkdf2"@ && pbkdf2_hash_name(
            keyslot.kdf,
        ) == "sha256"@ ==> r matches Err(Luks2Error::CryptoError(CryptoError::InvalidKeySize)),
        keyslot.kdf.kdf_type@ != "pbkdf2"@ && keyslot.kdf.kdf_type@ != "argon2id"@
            && keyslot.kdf.kdf_type@ != "argon2i"@ ==> r matches Err(Luks2Error::CryptoError(
            CryptoError::UnsupportedKdf(_),
        )),
{
    proof {
        reveal_strlit("pbkdf2");
        reveal_strlit("argon2id");
        reveal_strlit("argon2i");
        assert("pbkdf2"@.len() != "argon2id"@.len());
        assert("pbkdf2"@.len() != "argon2i"@.len());
    }
    let derived = match derive_key(passphrase, &keyslot.kdf, keyslot.area.key_size as usize) {
        Ok(k) => k,
        Err(e) => return Err(Luks2Error::CryptoError(e)),
    };
    let cipher = match AesXts::new(derived.as_slice(), KEYSLOT_SECTOR_SIZE) {
        Ok(c) => c,
        Err(e) => return Err(Luks2Error::CryptoError(e)),
    };
    let mut data = material;
    let n = data.len();
    cipher.decrypt_sectors(0, &mut data);
    let master_key = match af_merge(
        data.as_slice(),
        keyslot.key_size as usize,
        keyslot.af.stripes,
        keyslot.af.hash.as_str(),
    ) {
        Ok(k) => k,
        Err(e) => return Err(Luks2Error::CryptoError(e)),
    };
    match verify_keyslot_master_key(master_key.as_slice(), metadata, slot_id) {
        Ok(()) => Ok(master_key),
        Err(e) => Err(e),
    }
}

} // verus!
