//! Key derivation, the anti-forensic splitter and AES-XTS sector
//! decryption for LUKS2 keyslots.
use vstd::prelude::*;
use crate::luks2::json::Kdf;
use crate::text::str_eq;
use crate::text::to_owned_string;
use crate::text::push_str;
use crate::text::is_prefix;

verus! {

/// Why a cryptographic step failed.
pub enum CryptoError {
    KdfError(String),
    InvalidKeySize,
    UnsupportedHash(String),
    UnsupportedKdf(String),
}

/// The SHA-256 digest of `data`.
pub uninterp spec fn sha256_digest(data: Seq<u8>) -> Seq<u8>;

/// The `len` bytes that PBKDF2-HMAC-SHA256 derives from `password` and
/// `salt` in `rounds` rounds.
pub uninterp spec fn pbkdf2_sha256_output(password: Seq<u8>, salt: Seq<u8>, rounds: u32, len: nat) -> Seq<u8>;

/// The `len` bytes that Argon2 (Argon2id when `id`, else Argon2i, version
/// 0x13) derives with memory `m` KiB, `t` passes and `p` lanes.
pub uninterp spec fn argon2_output(
    password: Seq<u8>,
    salt: Seq<u8>,
    id: bool,
    m: u32,
    t: u32,
    p: u32,
    len: nat,
) -> Seq<u8>;

/// AES-256-XTS decryption of one sector under a 64-byte key, with the
/// little-endian sector number as tweak.
pub uninterp spec fn xts_aes256_decrypt(key: Seq<u8>, sector_index: u64, sector: Seq<u8>) -> Seq<u8>;

/// The Argon2 parameters that `argon2::Params::new` accepts.
pub open spec fn argon2_params_ok(m: u32, t: u32, p: u32, len: nat) -> bool {
    &&& m >= 8
    &&& m >= p * 8
    &&& t >= 1
    &&& 1 <= p <= 0xFFFFFF
    &&& 4 <= len <= 0xFFFF_FFFF
}

/// The password and salt lengths that `hash_password_into` accepts: a
/// password of at most 0xFFFF_FFFF bytes, a salt of 8 to 0xFFFF_FFFF bytes.
pub open spec fn argon2_inputs_ok(password: Seq<u8>, salt: Seq<u8>) -> bool {
    &&& password.len() <= 0xFFFF_FFFF
    &&& 8 <= salt.len() <= 0xFFFF_FFFF
}

/// The failures of an Argon2 derivation, with the crate's message.
pub enum Argon2Failure {
    Params(String),
    Hash(String),
}

/// `Sha256::digest`: the 32-byte SHA-256 digest of `data`.
#[verifier::external_body]
pub(crate) fn sha256(data: &[u8]) -> (r: Vec<u8>)
    ensures
        r@ == sha256_digest(data@),
        r@.len() == 32,
{
    <sha2::Sha256 as sha2::Digest>::digest(data).to_vec()
}

/// `pbkdf2::pbkdf2_hmac::<Sha256>` into a fresh buffer of `len` bytes; the
/// result is named, not spelled out.
#[verifier::external_body]
fn pbkdf2_sha256(password: &[u8], salt: &[u8], rounds: u32, len: usize) -> (r: Vec<u8>)
    requires
        len < 0x20_0000_0000,
    ensures
        r@ == pbkdf2_sha256_output(password@, salt@, rounds, len as nat),
        r@.len() == len,
{
    let mut out = vec![0u8; len];
    pbkdf2::pbkdf2_hmac::<sha2::Sha256>(password, salt, rounds, &mut out);
    out
}

/// `argon2::Params::new(m, t, p, Some(len))`, then `Argon2::new` with the
/// algorithm and version 0x13 and `hash_password_into` a buffer of `len`
/// bytes. The parameters are refused exactly when `argon2_params_ok` fails;
/// with accepted parameters the hash is refused exactly when the password or
/// salt length is out of range (`argon2_inputs_ok`), since the output buffer
/// has the length the parameters name.
#[verifier::external_body]
fn argon2_hash(password: &[u8], salt: &[u8], id: bool, m: u32, t: u32, p: u32, len: usize) -> (r:
    Result<Vec<u8>, Argon2Failure>)
    requires
        p <= 0x1fff_ffff,
    ensures
        (r matches Err(Argon2Failure::Params(_))) <==> !argon2_params_ok(m, t, p, len as nat),
        (r matches Err(Argon2Failure::Hash(_))) <==> (argon2_params_ok(m, t, p, len as nat) && !argon2_inputs_ok(password@, salt@)),
        r matches Ok(v) ==> v@ == argon2_output(password@, salt@, id, m, t, p, len as nat)
            && v@.len() == len,
{
    let alg = if id { argon2::Algorithm::Argon2id } else { argon2::Algorithm::Argon2i };
    let params = match argon2::Params::new(m, t, p, Some(len)) {
        Ok(x) => x,
        Err(e) => return Err(Argon2Failure::Params(e.to_string())),
    };
    let mut out = vec![0u8; len];
    match argon2::Argon2::new(alg, argon2::Version::V0x13, params).hash_password_into(password, salt, &mut out) {
        Ok(()) => Ok(out),
        Err(e) => Err(Argon2Failure::Hash(e.to_string())),
    }
}

/// One AES-256-XTS sector decryption (`Xts128::decrypt_sector` with the two
/// halves of `key` and `get_tweak_default(sector_index)`), on a copy.
#[verifier::external_body]
fn xts_decrypt_sector(key: &[u8], sector_index: u64, sector: &[u8]) -> (r: Vec<u8>)
    requires
        key@.len() == 64,
        sector@.len() >= 16,
    ensures
        r@ == xts_aes256_decrypt(key@, sector_index, sector@),
        r@.len() == sector@.len(),
{
    let k1 = aes::cipher::generic_array::GenericArray::from_slice(&key[0..32]);
    let k2 = aes::cipher::generic_array::GenericArray::from_slice(&key[32..64]);
    let xts = xts_mode::Xts128::new(<aes::Aes256 as aes::cipher::KeyInit>::new(k1), <aes::Aes256 as aes::cipher::KeyInit>::new(k2));
    let mut buf = sector.to_vec();
    xts.decrypt_sector(&mut buf, xts_mode::get_tweak_default(sector_index as u128));
    buf
}

/// The message of a KDF failure: `prefix` followed by the crate's message.
fn kdf_message(prefix: &str, msg: &String) -> (r: String)
    ensures
        r@ == prefix@ + msg@,
{
    let mut s = to_owned_string(prefix);
    push_str(&mut s, msg.as_str());
    s
}

/// The Argon2 variant, time, memory and lane count that a keyslot's KDF
/// asks for, with the LUKS2 defaults for missing values.
pub open spec fn argon2_settings(kdf: Kdf) -> (bool, u32, u32, u32) {
    (
        kdf.kdf_type@ == "argon2id"@,
        match kdf.time { Some(t) => t, None => 4 },
        match kdf.memory { Some(m) => m, None => 1048576 },
        match kdf.cpus { Some(c) => c, None => 4 },
    )
}

/// The hash that a PBKDF2 KDF names ("sha256" when missing).
pub open spec fn pbkdf2_hash_name(kdf: Kdf) -> Seq<char> {
    match kdf.hash {
        Some(h) => h@,
        None => "sha256"@,
    }
}

/// The PBKDF2 rounds of a KDF (100000 when missing).
pub open spec fn pbkdf2_rounds(kdf: Kdf) -> u32 {
    match kdf.iterations {
        Some(i) => i,
        None => 100000,
    }
}

/// The inputs that `derive_key` can take without a panic in the crates it
/// calls: a lane count whose memory check cannot overflow, and a length
/// that PBKDF2 can number in blocks.
pub open spec fn derive_key_admits(kdf: Kdf, output_len: nat) -> bool {
    &&& argon2_settings(kdf).3 <= 0x1fff_ffff
    &&& output_len < 0x20_0000_0000
}

/// What `derive_key` returns for the passphrase, KDF and length.
pub open spec fn derive_key_outcome(
    passphrase: Seq<u8>,
    kdf: Kdf,
    output_len: nat,
    r: Result<Vec<u8>, CryptoError>,
) -> bool {
    let (id, t, m, p) = argon2_settings(kdf);
    if kdf.kdf_type@ == "argon2id"@ || kdf.kdf_type@ == "argon2i"@ {
        &&& !argon2_params_ok(m, t, p, output_len) ==> (r matches Err(CryptoError::KdfError(msg))
            && is_prefix("params: "@, msg@))
        &&& argon2_params_ok(m, t, p, output_len) && !argon2_inputs_ok(passphrase, kdf.salt@) ==> (r matches Err(
            CryptoError::KdfError(msg),
        ) && is_prefix("hash: "@, msg@))
        &&& argon2_params_ok(m, t, p, output_len) && argon2_inputs_ok(passphrase, kdf.salt@) ==> r is Ok
        &&& r matches Ok(v) ==> v@ == argon2_output(passphrase, kdf.salt@, id, m, t, p, output_len)
            && v@.len() == output_len
        &&& r matches Err(e) ==> e matches CryptoError::KdfError(_)
    } else if kdf.kdf_type@ == "pbkdf2"@ {
        if pbkdf2_hash_name(kdf) != "sha256"@ {
            r matches Err(CryptoError::UnsupportedHash(h)) && h@ == pbkdf2_hash_name(kdf)
        } else {
            r matches Ok(v) && v@ == pbkdf2_sha256_output(
                passphrase,
                kdf.salt@,
                pbkdf2_rounds(kdf),
                output_len,
            ) && v@.len() == output_len
        }
    } else {
        r matches Err(CryptoError::UnsupportedKdf(k)) && k@ == kdf.kdf_type@
    }
}

/// The key that a KDF derives when it succeeds.
pub open spec fn derived_key(passphrase: Seq<u8>, kdf: Kdf, len: nat) -> Seq<u8> {
    let (id, t, m, p) = argon2_settings(kdf);
    if kdf.kdf_type@ == "pbkdf2"@ {
        pbkdf2_sha256_output(passphrase, kdf.salt@, pbkdf2_rounds(kdf), len)
    } else {
        argon2_output(passphrase, kdf.salt@, id, m, t, p, len)
    }
}

/// derive key using the KDF parameters from a keyslot
pub fn derive_key(passphrase: &[u8], kdf: &Kdf, output_len: usize) -> (r: Result<
    Vec<u8>,
    CryptoError,
>)
    requires
        derive_key_admits(*kdf, output_len as nat),
    ensures
        derive_key_outcome(passphrase@, *kdf, output_len as nat, r),
        r matches Ok(v) ==> v@ == derived_key(passphrase@, *kdf, output_len as nat) && v@.len()
            == output_len,
{
    proof {
        reveal_strlit("pbkdf2");
        reveal_strlit("argon2id");
        reveal_strlit("argon2i");
        assert("pbkdf2"@.len() != "argon2id"@.len());
        assert("pbkdf2"@.len() != "argon2i"@.len());
    }
    let t = kdf.kdf_type.as_str();
    if str_eq(t, "argon2id") || str_eq(t, "argon2i") {
        derive_key_argon2(passphrase, kdf, output_len)
    } else if str_eq(t, "pbkdf2") {
        derive_key_pbkdf2(passphrase, kdf, output_len)
    } else {
        Err(CryptoError::UnsupportedKdf(to_owned_string(t)))
    }
}

/// derive key using Argon2id/Argon2i
fn derive_key_argon2(passphrase: &[u8], kdf: &Kdf, output_len: usize) -> (r: Result<
    Vec<u8>,
    CryptoError,
>)
    requires
        kdf.kdf_type@ == "argon2id"@ || kdf.kdf_type@ == "argon2i"@,
        derive_key_admits(*kdf, output_len as nat),
    ensures
        derive_key_outcome(passphrase@, *kdf, output_len as nat, r),
{
    let id = str_eq(kdf.kdf_type.as_str(), "argon2id");
    let time_cost = match kdf.time {
        Some(t) => t,
        None => 4,
    };
    let memory_cost = match kdf.memory {
        Some(m) => m,
        None => 1048576,
    };
    let parallelism = match kdf.cpus {
        Some(c) => c,
        None => 4,
    };
    match argon2_hash(
        passphrase,
        kdf.salt.as_slice(),
        id,
        memory_cost,
        time_cost,
        parallelism,
        output_len,
    ) {
        Ok(v) => Ok(v),
        Err(Argon2Failure::Params(e)) => {
            let msg = kdf_message("params: ", &e);
            assert(msg@.subrange(0, "params: "@.len() as int) =~= "params: "@);
            Err(CryptoError::KdfError(msg))
        },
        Err(Argon2Failure::Hash(e)) => {
            let msg = kdf_message("hash: ", &e);
            assert(msg@.subrange(0, "hash: "@.len() as int) =~= "hash: "@);
            Err(CryptoError::KdfError(msg))
        },
    }
}

/// derive key using PBKDF2-SHA256
fn derive_key_pbkdf2(passphrase: &[u8], kdf: &Kdf, output_len: usize) -> (r: Result<
    Vec<u8>,
    CryptoError,
>)
    requires
        kdf.kdf_type@ == "pbkdf2"@,
        derive_key_admits(*kdf, output_len as nat),
    ensures
        derive_key_outcome(passphrase@, *kdf, output_len as nat, r),
{
    proof {
        reveal_strlit("pbkdf2");
        reveal_strlit("argon2id");
        reveal_strlit("argon2i");
        assert("pbkdf2"@.len() != "argon2id"@.len());
        assert("pbkdf2"@.len() != "argon2i"@.len());
    }
    let hash: &str = match &kdf.hash {
        Some(h) => h.as_str(),
        None => "sha256",
    };
    if !str_eq(hash, "sha256") {
        return Err(CryptoError::UnsupportedHash(to_owned_string(hash)));
    }
    let iterations = match kdf.iterations {
        Some(i) => i,
        None => 100000,
    };
    Ok(pbkdf2_sha256(passphrase, kdf.salt.as_slice(), iterations, output_len))
}

/// The four big-endian bytes of `v` taken as a `u32`.
pub open spec fn be32(v: nat) -> Seq<u8> {
    seq![
        (v / 0x1000000 % 256) as u8,
        (v / 0x10000 % 256) as u8,
        (v / 0x100 % 256) as u8,
        (v % 256) as u8,
    ]
}

/// The end of the 32-byte block `i` of `len` bytes.
pub open spec fn block_end(len: nat, i: nat) -> nat {
    if 32 * i + 32 <= len {
        32 * i + 32
    } else {
        len
    }
}

/// Block `i` of the diffusion of `d`: the SHA-256 digest of the block
/// number and the block, cut to the block's length.
pub open spec fn diffuse_block(d: Seq<u8>, i: nat) -> Seq<u8> {
    let start = 32 * i;
    let end = block_end(d.len(), i);
    sha256_digest(be32(i) + d.subrange(start as int, end as int)).subrange(0, end - start)
}

/// The first `n` diffused blocks of `d`.
pub open spec fn diffused(d: Seq<u8>, n: nat) -> Seq<u8>
    decreases n,
{
    if n == 0 {
        Seq::<u8>::empty()
    } else {
        diffused(d, (n - 1) as nat) + diffuse_block(d, (n - 1) as nat)
    }
}

/// The number of 32-byte blocks that cover `len` bytes.
pub open spec fn block_count(len: nat) -> nat {
    (len + 31) / 32
}

/// The anti-forensic diffusion of `d`.
pub open spec fn af_diffused(d: Seq<u8>) -> Seq<u8> {
    diffused(d, block_count(d.len()))
}

/// Byte-wise exclusive or of two sequences, as long as the first.
pub open spec fn xor_seq(a: Seq<u8>, b: Seq<u8>) -> Seq<u8> {
    Seq::new(a.len(), |j: int| a[j] ^ b[j])
}

/// Stripe `i` of `split`: its bytes `i * key_size .. (i + 1) * key_size`.
pub open spec fn stripe(split: Seq<u8>, key_size: nat, i: nat) -> Seq<u8> {
    split.subrange((i * key_size) as int, ((i + 1) * key_size) as int)
}

/// The running value of the merge after the first `k` stripes: zero bytes,
/// then for each stripe the diffusion of the value exclusive-or the stripe.
pub open spec fn af_acc(split: Seq<u8>, key_size: nat, k: nat) -> Seq<u8>
    decreases k,
{
    if k == 0 {
        Seq::new(key_size, |j: int| 0u8)
    } else {
        af_diffused(xor_seq(af_acc(split, key_size, (k - 1) as nat), stripe(split, key_size, (k - 1) as nat)))
    }
}

/// The anti-forensic merge of `stripes` stripes: the running value after
/// all stripes but the last, exclusive-or the last stripe (so one stripe
/// merges to itself); zero bytes when there is no stripe.
pub open spec fn af_merged(split: Seq<u8>, key_size: nat, stripes: nat) -> Seq<u8> {
    if stripes == 0 {
        Seq::new(key_size, |j: int| 0u8)
    } else {
        xor_seq(af_acc(split, key_size, (stripes - 1) as nat), stripe(split, key_size, (stripes - 1) as nat))
    }
}

/// The four big-endian bytes of the block number `i`, followed by block `i`
/// of `d`: what the diffusion hashes for that block.
pub open spec fn diffusion_input(d: Seq<u8>, i: nat) -> Seq<u8> {
    seq![
        ((i / 0x1000000) % 256) as u8,
        ((i / 0x10000) % 256) as u8,
        ((i / 0x100) % 256) as u8,
        (i % 256) as u8,
    ] + d.subrange((32 * i) as int, block_end(d.len(), i) as int)
}

/// diffuse function for anti-forensic splitter (SHA-256 based)
fn af_diffuse(data: &[u8]) -> (r: Vec<u8>)
    ensures
        r@ == af_diffused(data@),
        r@.len() == data@.len(),
        forall|i: nat|
            32 * i < data@.len() ==> r@.subrange((32 * i) as int, #[trigger] block_end(data@.len(), i) as int)
                == sha256_digest(diffusion_input(data@, i)).subrange(0, block_end(data@.len(), i) - 32 * i),
{
    let n = data.len();
    let num_blocks = n / 32 + if n % 32 == 0 {
        0
    } else {
        1
    };
    assert(num_blocks == block_count(n as nat));
    let mut output: Vec<u8> = Vec::new();
    let mut b: usize = 0;
    while b < num_blocks
        invariant
            n == data@.len(),
            num_blocks == block_count(n as nat),
            b <= num_blocks,
            output@ == diffused(data@, b as nat),
            output@.len() == (if 32 * b <= n {
                32 * b
            } else {
                n as int
            }),
            forall|i: nat|
                i < b ==> output@.subrange((32 * i) as int, #[trigger] block_end(n as nat, i) as int)
                    == sha256_digest(diffusion_input(data@, i)).subrange(0, block_end(n as nat, i) - 32 * i),
        decreases num_blocks - b,
    {
        let start = b * 32;
        assert(32 * b < n) by {
            assert(b < num_blocks);
        }
        let end = if n - start >= 32 {
            start + 32
        } else {
            n
        };
        let mut input: Vec<u8> = Vec::new();
        input.push(((b / 0x1000000) % 256) as u8);
        input.push(((b / 0x10000) % 256) as u8);
        input.push(((b / 0x100) % 256) as u8);
        input.push((b % 256) as u8);
        let mut k: usize = start;
        while k < end
            invariant
                start <= k <= end <= n == data@.len(),
                input@ == be32(b as nat) + data@.subrange(start as int, k as int),
            decreases end - k,
        {
            input.push(data[k]);
            k += 1;
            assert(input@ =~= be32(b as nat) + data@.subrange(start as int, k as int));
        }
        let h = sha256(input.as_slice());
        let ghost before = output@;
        let mut j: usize = 0;
        while j < end - start
            invariant
                start <= end,
                end - start <= 32,
                h@.len() == 32,
                j <= end - start,
                output@ == before + h@.subrange(0, j as int),
            decreases end - start - j,
        {
            output.push(h[j]);
            j += 1;
            assert(output@ =~= before + h@.subrange(0, j as int));
        }
        assert(diffuse_block(data@, b as nat) == h@.subrange(0, (end - start) as int));
        assert(end == block_end(n as nat, b as nat));
        assert(input@ =~= diffusion_input(data@, b as nat));
        assert forall|i: nat| i < b + 1 implies output@.subrange((32 * i) as int, #[trigger] block_end(n as nat, i) as int)
            == sha256_digest(diffusion_input(data@, i)).subrange(0, block_end(n as nat, i) - 32 * i) by {
            if i < b {
                assert(block_end(n as nat, i) <= 32 * b);
                assert(output@.subrange((32 * i) as int, block_end(n as nat, i) as int) =~= before.subrange(
                    (32 * i) as int,
                    block_end(n as nat, i) as int,
                ));
            } else {
                assert(output@.subrange((32 * i) as int, block_end(n as nat, i) as int) =~= h@.subrange(
                    0,
                    (end - start) as int,
                ));
            }
        }
        b += 1;
    }
    output
}

/// The value exclusive-or stripe `i` of `split_key`.
fn xor_stripe(value: &Vec<u8>, split_key: &[u8], key_size: usize, i: u32, stripes: u32) -> (r: Vec<u8>)
    requires
        i < stripes,
        stripes * key_size <= split_key@.len(),
        value@.len() == key_size,
    ensures
        r@ == xor_seq(value@, stripe(split_key@, key_size as nat, i as nat)),
        r@.len() == key_size,
{
    assert((i + 1) * key_size <= stripes * key_size) by (nonlinear_arith)
        requires
            i + 1 <= stripes,
    ;
    assert((i + 1) * key_size == i * key_size + key_size) by (nonlinear_arith);
    let total = split_key.len();
    let offset = (i as usize) * key_size;
    let mut next: Vec<u8> = Vec::new();
    let mut j: usize = 0;
    while j < key_size
        invariant
            j <= key_size,
            total == split_key@.len(),
            value@.len() == key_size,
            offset == i * key_size,
            offset + key_size <= split_key@.len(),
            next@.len() == j,
            forall|q: int| 0 <= q < j ==> next@[q] == value@[q] ^ split_key@[offset + q],
        decreases key_size - j,
    {
        next.push(value[j] ^ split_key[offset + j]);
        j += 1;
    }
    assert(next@ =~= xor_seq(value@, stripe(split_key@, key_size as nat, i as nat)));
    next
}

/// LUKS1-style anti-forensic splitter merge operation
///
/// recovers the master key from the striped key material
pub fn af_merge(split_key: &[u8], key_size: usize, stripes: u32, hash: &str) -> (r: Result<
    Vec<u8>,
    CryptoError,
>)
    requires
        stripes * key_size <= split_key@.len(),
    ensures
        hash@ != "sha256"@ ==> (r matches Err(CryptoError::UnsupportedHash(h)) && h@ == hash@),
        hash@ == "sha256"@ ==> (r matches Ok(v) && v@ == af_merged(
            split_key@,
            key_size as nat,
            stripes as nat,
        ) && v@.len() == key_size),
{
    if !str_eq(hash, "sha256") {
        return Err(CryptoError::UnsupportedHash(to_owned_string(hash)));
    }
    let mut result: Vec<u8> = Vec::new();
    let mut z: usize = 0;
    while z < key_size
        invariant
            z <= key_size,
            result@ == Seq::new(z as nat, |j: int| 0u8),
        decreases key_size - z,
    {
        result.push(0);
        z += 1;
        assert(result@ =~= Seq::new(z as nat, |j: int| 0u8));
    }
    let mut i: u32 = 0;
    while i + 1 < stripes
        invariant
            i < stripes || stripes == 0,
            i == 0 || i < stripes,
            stripes * key_size <= split_key@.len(),
            result@ == af_acc(split_key@, key_size as nat, i as nat),
            result@.len() == key_size,
        decreases stripes - i,
    {
        let mixed = xor_stripe(&result, split_key, key_size, i, stripes);
        result = af_diffuse(mixed.as_slice());
        i += 1;
    }
    if stripes > 0 {
        result = xor_stripe(&result, split_key, key_size, i, stripes);
    }
    Ok(result)
}

/// Byte-wise equality of two slices in time independent of where they
/// differ.
pub fn constant_time_eq(a: &[u8], b: &[u8]) -> (r: bool)
    ensures
        r == (a@ == b@),
{
    if a.len() != b.len() {
        return false;
    }
    let mut result: u8 = 0;
    let mut i: usize = 0;
    while i < a.len()
        invariant
            i <= a@.len(),
            a@.len() == b@.len(),
            (result == 0) == (forall|j: int| 0 <= j < i ==> a@[j] == b@[j]),
        decreases a@.len() - i,
    {
        let x = a[i];
        let y = b[i];
        let acc = result;
        assert(((acc | (x ^ y)) == 0) == (acc == 0 && x == y)) by (bit_vector);
        result = acc | (x ^ y);
        i += 1;
    }
    if result == 0 {
        assert(a@ =~= b@);
    }
    result == 0
}

/// What `verify_master_key` returns.
pub open spec fn verify_outcome(
    master_key: Seq<u8>,
    salt: Seq<u8>,
    expected: Seq<u8>,
    iterations: u32,
    hash: Seq<char>,
    r: Result<bool, CryptoError>,
) -> bool {
    if hash != "sha256"@ {
        r matches Err(CryptoError::UnsupportedHash(h)) && h@ == hash
    } else {
        r matches Ok(ok) && ok == (pbkdf2_sha256_output(master_key, salt, iterations, expected.len())
            == expected)
    }
}

/// verify master key against a PBKDF2 digest
pub fn verify_master_key(
    master_key: &[u8],
    salt: &[u8],
    expected_digest: &[u8],
    iterations: u32,
    hash: &str,
) -> (r: Result<bool, CryptoError>)
    requires
        expected_digest@.len() < 0x20_0000_0000,
    ensures
        verify_outcome(master_key@, salt@, expected_digest@, iterations, hash@, r),
{
    if !str_eq(hash, "sha256") {
        return Err(CryptoError::UnsupportedHash(to_owned_string(hash)));
    }
    let derived = pbkdf2_sha256(master_key, salt, iterations, expected_digest.len());
    Ok(constant_time_eq(derived.as_slice(), expected_digest))
}

/// The full sectors of `data` decrypted one by one, numbered from `start`.
pub open spec fn decrypted_sectors(key: Seq<u8>, size: nat, start: nat, data: Seq<u8>, n: nat) -> Seq<
    u8,
>
    decreases n,
{
    if n == 0 {
        Seq::<u8>::empty()
    } else {
        decrypted_sectors(key, size, start, data, (n - 1) as nat) + xts_aes256_decrypt(
            key,
            (start + n - 1) as u64,
            data.subrange((n - 1) * size, (n * size) as int),
        )
    }
}

/// `data` after its full sectors are decrypted; bytes after the last full
/// sector stay as they are.
pub open spec fn decrypted(key: Seq<u8>, size: nat, start: nat, data: Seq<u8>) -> Seq<u8> {
    let n = data.len() / size;
    decrypted_sectors(key, size, start, data, n) + data.subrange((n * size) as int, data.len() as int)
}

/// AES-256-XTS cipher for sector decryption
pub struct AesXts {
    key: Vec<u8>,
    sector_size: usize,
}

impl AesXts {
    /// The 64-byte key.
    pub closed spec fn key(&self) -> Seq<u8> {
        self.key@
    }

    /// The sector size given at construction.
    pub closed spec fn spec_sector_size(&self) -> nat {
        self.sector_size as nat
    }

    /// create from 512-bit key (two 256-bit keys for XTS)
    pub fn new(key: &[u8], sector_size: usize) -> (r: Result<Self, CryptoError>)
        ensures
            key@.len() != 64 ==> r matches Err(CryptoError::InvalidKeySize),
            key@.len() == 64 ==> (r matches Ok(x) && x.key() == key@ && x.spec_sector_size()
                == sector_size),
    {
        if key.len() != 64 {
            return Err(CryptoError::InvalidKeySize);
        }
        let mut k: Vec<u8> = Vec::new();
        let mut i: usize = 0;
        while i < 64
            invariant
                i <= 64,
                key@.len() == 64,
                k@ == key@.subrange(0, i as int),
            decreases 64 - i,
        {
            k.push(key[i]);
            i += 1;
            assert(k@ =~= key@.subrange(0, i as int));
        }
        assert(k@ =~= key@);
        Ok(AesXts { key: k, sector_size })
    }

    pub fn sector_size(&self) -> (r: usize)
        ensures
            r == self.spec_sector_size(),
    {
        self.sector_size
    }

    /// decrypt multiple consecutive sectors in place
    pub fn decrypt_sectors(&self, start_sector: u64, data: &mut Vec<u8>)
        requires
            self.key().len() == 64,
            self.spec_sector_size() >= 16,
            start_sector + old(data)@.len() / self.spec_sector_size() <= u64::MAX,
        ensures
            final(data)@ == decrypted(
                self.key(),
                self.spec_sector_size(),
                start_sector as nat,
                old(data)@,
            ),
            final(data)@.len() == old(data)@.len(),
    {
        let size = self.sector_size;
        let ghost orig = data@;
        let num_sectors = data.len() / size;
        let mut out: Vec<u8> = Vec::new();
        let mut i: usize = 0;
        proof {
            vstd::arithmetic::div_mod::lemma_fundamental_div_mod(orig.len() as int, size as int);
        }
        while i < num_sectors
            invariant
                size == self.spec_sector_size(),
                size >= 16,
                self.key@.len() == 64,
                data@ == orig,
                num_sectors == orig.len() / (size as nat),
                num_sectors * size <= orig.len(),
                start_sector + num_sectors <= u64::MAX,
                i <= num_sectors,
                out@ == decrypted_sectors(self.key@, size as nat, start_sector as nat, orig, i as nat),
                out@.len() == i * size,
            decreases num_sectors - i,
        {
            assert((i + 1) * size <= num_sectors * size) by (nonlinear_arith)
                requires
                    i + 1 <= num_sectors,
            ;
            assert((i + 1) * size == i * size + size) by (nonlinear_arith);
            let total = data.len();
            let offset = i * size;
            let mut sector: Vec<u8> = Vec::new();
            let mut k: usize = 0;
            while k < size
                invariant
                    total == orig.len(),
                    offset + size <= orig.len(),
                    data@ == orig,
                    k <= size,
                    sector@ == orig.subrange(offset as int, offset + k),
                decreases size - k,
            {
                sector.push(data[offset + k]);
                k += 1;
                assert(sector@ =~= orig.subrange(offset as int, offset + k));
            }
            let plain = xts_decrypt_sector(self.key.as_slice(), start_sector + i as u64, sector.as_slice());
            let ghost before = out@;
            let mut q: usize = 0;
            while q < plain.len()
                invariant
                    q <= plain@.len(),
                    out@ == before + plain@.subrange(0, q as int),
                decreases plain@.len() - q,
            {
                out.push(plain[q]);
                q += 1;
                assert(out@ =~= before + plain@.subrange(0, q as int));
            }
            assert(plain@.subrange(0, plain@.len() as int) =~= plain@);
            i += 1;
        }
        let tail_start = num_sectors * size;
        let ghost done = out@;
        let mut k: usize = tail_start;
        while k < data.len()
            invariant
                data@ == orig,
                tail_start <= k <= orig.len(),
                out@ == done + orig.subrange(tail_start as int, k as int),
                done.len() == tail_start,
            decreases orig.len() - k,
        {
            out.push(data[k]);
            k += 1;
            assert(out@ =~= done + orig.subrange(tail_start as int, k as int));
        }
        *data = out;
    }
}

} // verus!
