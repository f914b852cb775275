//! Unsealing the LUKS2 master key from TPM2 NV storage.
//!
//! The raw TPM2 commands are built and their responses parsed here; the
//! unsealing sequence is a step function from the current stage and the
//! TPM's reply to the next stage, which the firmware side drives by
//! submitting each stage's command.
use vstd::prelude::*;

verus! {

/// TPM2 NV index that holds the LUKS master key.
pub const NV_INDEX_LUKS_MASTER_KEY: u32 = 0x01800020;
/// Size of the master key for AES-256-XTS.
pub const MASTER_KEY_SIZE: u16 = 64;
/// PCR that UEFI extends with loaded images.
pub const PCR_BOOTLOADER: u32 = 4;
/// PCR that records the SecureBoot state.
pub const PCR_SECUREBOOT: u32 = 7;

pub const TPM2_CC_START_AUTH_SESSION: u32 = 0x00000176;
pub const TPM2_CC_POLICY_PCR: u32 = 0x0000017F;
pub const TPM2_CC_NV_READ: u32 = 0x0000014E;
pub const TPM2_CC_FLUSH_CONTEXT: u32 = 0x00000165;
pub const TPM2_ST_NO_SESSIONS: u16 = 0x8001;
pub const TPM2_ST_SESSIONS: u16 = 0x8002;
pub const TPM2_RH_NULL: u32 = 0x40000007;
pub const TPM2_ALG_SHA256: u16 = 0x000B;
pub const TPM2_ALG_NULL: u16 = 0x0010;
pub const TPM2_SE_POLICY: u8 = 0x01;

/// Why unsealing failed.
pub enum TpmError {
    ProtocolNotFound,
    TpmNotPresent,
    CommandFailed(u32),
    InvalidResponse,
    NvNotFound,
}

/// key material that can be returned from TPM
pub enum TpmKeyMaterial {
    /// direct master key - skip KDF
    MasterKey(Vec<u8>),
    /// passphrase material - run through KDF
    Passphrase(Vec<u8>),
}

/// The two big-endian bytes of `v`.
pub open spec fn be16(v: u16) -> Seq<u8> {
    seq![(v / 256) as u8, (v % 256) as u8]
}

/// The four big-endian bytes of `v`.
pub open spec fn be32(v: u32) -> Seq<u8> {
    seq![(v / 0x1000000) as u8, (v / 0x10000 % 256) as u8, (v / 0x100 % 256) as u8, (v % 256) as u8]
}

/// The number that four big-endian bytes at `off` hold.
pub open spec fn read_be32(d: Seq<u8>, off: int) -> u32 {
    (d[off] * 0x1000000 + d[off + 1] * 0x10000 + d[off + 2] * 0x100 + d[off + 3]) as u32
}

/// A command whose header is `tag`, its own length and `cc`, then `body`.
pub open spec fn command(tag: u16, cc: u32, body: Seq<u8>) -> Seq<u8> {
    be16(tag) + be32((10 + body.len()) as u32) + be32(cc) + body
}

/// The body of TPM2_StartAuthSession for an unbound, unsalted policy
/// session with a zero nonce, no symmetric cipher and SHA-256.
pub open spec fn start_session_body() -> Seq<u8> {
    be32(TPM2_RH_NULL) + be32(TPM2_RH_NULL) + be16(32) + Seq::new(32, |i: int| 0u8) + be16(0)
        + seq![TPM2_SE_POLICY] + be16(TPM2_ALG_NULL) + be16(TPM2_ALG_SHA256)
}

/// The PCR selection bitmap of three bytes with only `pcr` set.
pub open spec fn pcr_select(pcr: u32) -> Seq<u8> {
    Seq::new(3, |i: int| if i == pcr / 8 { (1u32 << (pcr % 8)) as u8 } else { 0u8 })
}

/// The body of TPM2_PolicyPCR on `session` for the SHA-256 bank and `pcr`.
pub open spec fn policy_pcr_body(session: u32, pcr: u32) -> Seq<u8> {
    be32(session) + be16(0) + be32(1) + be16(TPM2_ALG_SHA256) + seq![3u8] + pcr_select(pcr)
}

/// The body of TPM2_NV_Read of `size` bytes at offset 0 of `nv_index`,
/// authorized by the policy `session`.
pub open spec fn nv_read_body(session: u32, nv_index: u32, size: u16) -> Seq<u8> {
    let nv_handle = (0x01000000u32 | nv_index) as u32;
    be32(nv_handle) + be32(nv_handle) + be32(9) + be32(session) + be16(0) + seq![1u8] + be16(0)
        + be16(size) + be16(0)
}

/// Appends the big-endian bytes of a `u16`.
fn push_be16(out: &mut Vec<u8>, v: u16)
    ensures
        final(out)@ == old(out)@ + be16(v),
{
    out.push((v / 256) as u8);
    out.push((v % 256) as u8);
    assert(final(out)@ =~= old(out)@ + be16(v));
}

/// Appends the big-endian bytes of a `u32`.
fn push_be32(out: &mut Vec<u8>, v: u32)
    ensures
        final(out)@ == old(out)@ + be32(v),
{
    out.push((v / 0x1000000) as u8);
    out.push((v / 0x10000 % 256) as u8);
    out.push((v / 0x100 % 256) as u8);
    out.push((v % 256) as u8);
    assert(final(out)@ =~= old(out)@ + be32(v));
}

/// Builds a command from its tag, code and body.
fn frame_command(tag: u16, cc: u32, body: &Vec<u8>) -> (r: Vec<u8>)
    requires
        body@.len() + 10 <= u32::MAX,
    ensures
        r@ == command(tag, cc, body@),
{
    let mut cmd: Vec<u8> = Vec::new();
    push_be16(&mut cmd, tag);
    push_be32(&mut cmd, (10 + body.len()) as u32);
    push_be32(&mut cmd, cc);
    let ghost head = cmd@;
    let mut i: usize = 0;
    while i < body.len()
        invariant
            i <= body@.len(),
            cmd@ == head + body@.subrange(0, i as int),
        decreases body@.len() - i,
    {
        cmd.push(body[i]);
        i += 1;
        assert(cmd@ =~= head + body@.subrange(0, i as int));
    }
    assert(body@.subrange(0, body@.len() as int) =~= body@);
    cmd
}

/// The TPM2_StartAuthSession command.
pub fn start_session_command() -> (r: Vec<u8>)
    ensures
        r@ == command(TPM2_ST_NO_SESSIONS, TPM2_CC_START_AUTH_SESSION, start_session_body()),
{
    let mut body: Vec<u8> = Vec::new();
    push_be32(&mut body, TPM2_RH_NULL);
    push_be32(&mut body, TPM2_RH_NULL);
    push_be16(&mut body, 32);
    let ghost head = body@;
    let mut i: usize = 0;
    while i < 32
        invariant
            i <= 32,
            body@ == head + Seq::new(i as nat, |j: int| 0u8),
        decreases 32 - i,
    {
        body.push(0);
        i += 1;
        assert(body@ =~= head + Seq::new(i as nat, |j: int| 0u8));
    }
    push_be16(&mut body, 0);
    body.push(TPM2_SE_POLICY);
    push_be16(&mut body, TPM2_ALG_NULL);
    push_be16(&mut body, TPM2_ALG_SHA256);
    assert(body@ =~= start_session_body());
    frame_command(TPM2_ST_NO_SESSIONS, TPM2_CC_START_AUTH_SESSION, &body)
}

/// The TPM2_PolicyPCR command for one PCR of the SHA-256 bank.
pub fn policy_pcr_command(session: u32, pcr: u32) -> (r: Vec<u8>)
    requires
        pcr < 24,
    ensures
        r@ == command(TPM2_ST_NO_SESSIONS, TPM2_CC_POLICY_PCR, policy_pcr_body(session, pcr)),
{
    let mut body: Vec<u8> = Vec::new();
    push_be32(&mut body, session);
    push_be16(&mut body, 0);
    push_be32(&mut body, 1);
    push_be16(&mut body, TPM2_ALG_SHA256);
    body.push(3);
    let bit: u8 = (1u32 << (pcr % 8)) as u8;
    let byte = pcr / 8;
    let ghost head = body@;
    let mut i: u32 = 0;
    while i < 3
        invariant
            i <= 3,
            bit == (1u32 << (pcr % 8)) as u8,
            byte == pcr / 8,
            body@ == head + pcr_select(pcr).subrange(0, i as int),
        decreases 3 - i,
    {
        if i == byte {
            body.push(bit);
        } else {
            body.push(0);
        }
        i += 1;
        assert(body@ =~= head + pcr_select(pcr).subrange(0, i as int));
    }
    assert(pcr_select(pcr).subrange(0, 3) =~= pcr_select(pcr));
    assert(body@ =~= policy_pcr_body(session, pcr));
    frame_command(TPM2_ST_NO_SESSIONS, TPM2_CC_POLICY_PCR, &body)
}

/// Law: an NV_Read command ends with its parameters, the requested size
/// in big-endian order and then the offset 0 (TPM2_NV_Read takes
/// `UINT16 size, UINT16 offset`), so the whole `size` bytes are read from
/// the start of the index.
pub proof fn lemma_nv_read_reads_size_from_start(session_handle: u32, nv_index: u32, size: u16)
    ensures
        ({
            let c = command(TPM2_ST_SESSIONS, TPM2_CC_NV_READ, nv_read_body(session_handle, nv_index, size));
            &&& c.len() >= 4
            &&& c[c.len() - 4] as int == size as int / 256
            &&& c[c.len() - 3] as int == size as int % 256
            &&& c[c.len() - 2] == 0u8
            &&& c[c.len() - 1] == 0u8
        }),
{
    let b = nv_read_body(session_handle, nv_index, size);
    let c = command(TPM2_ST_SESSIONS, TPM2_CC_NV_READ, b);
    let nv_handle = (0x01000000u32 | nv_index) as u32;
    let pre = be32(nv_handle) + be32(nv_handle) + be32(9) + be32(session_handle) + be16(0) + seq![1u8] + be16(0);
    assert(pre.len() == 21);
    assert(b == pre + be16(size) + be16(0));
    assert(b.len() == 25);
    assert(b[21] == be16(size)[0]);
    assert(b[22] == be16(size)[1]);
    assert(b[23] == be16(0)[0]);
    assert(b[24] == be16(0)[1]);
    let head = be16(TPM2_ST_SESSIONS) + be32((10 + b.len()) as u32) + be32(TPM2_CC_NV_READ);
    assert(head.len() == 10);
    assert(c == head + b);
    assert(c.len() == 35);
    assert(c[31] == b[21]);
    assert(c[32] == b[22]);
    assert(c[33] == b[23]);
    assert(c[34] == b[24]);
}

/// The TPM2_NV_Read command.
pub fn build_nv_read_command(session_handle: u32, nv_index: u32, size: u16) -> (r: Vec<u8>)
    ensures
        r@ == command(TPM2_ST_SESSIONS, TPM2_CC_NV_READ, nv_read_body(session_handle, nv_index, size)),
        r@.len() >= 4,
        r@[r@.len() - 4] as int == size as int / 256,
        r@[r@.len() - 3] as int == size as int % 256,
        r@[r@.len() - 2] == 0u8,
        r@[r@.len() - 1] == 0u8,
{
    proof {
        lemma_nv_read_reads_size_from_start(session_handle, nv_index, size);
    }
    let nv_handle = 0x01000000u32 | nv_index;
    let mut body: Vec<u8> = Vec::new();
    push_be32(&mut body, nv_handle);
    push_be32(&mut body, nv_handle);
    push_be32(&mut body, 9);
    push_be32(&mut body, session_handle);
    push_be16(&mut body, 0);
    body.push(1);
    push_be16(&mut body, 0);
    push_be16(&mut body, size);
    push_be16(&mut body, 0);
    assert(body@ =~= nv_read_body(session_handle, nv_index, size));
    frame_command(TPM2_ST_SESSIONS, TPM2_CC_NV_READ, &body)
}

/// The TPM2_FlushContext command for `handle`.
pub fn flush_context_command(handle: u32) -> (r: Vec<u8>)
    ensures
        r@ == command(TPM2_ST_NO_SESSIONS, TPM2_CC_FLUSH_CONTEXT, be32(handle)),
{
    let mut body: Vec<u8> = Vec::new();
    push_be32(&mut body, handle);
    frame_command(TPM2_ST_NO_SESSIONS, TPM2_CC_FLUSH_CONTEXT, &body)
}

/// Reads four big-endian bytes.
fn get_be32(d: &[u8], off: usize) -> (r: u32)
    requires
        off + 4 <= d@.len(),
    ensures
        r == read_be32(d@, off as int),
{
    let a = d[off] as u32;
    let b = d[off + 1] as u32;
    let c = d[off + 2] as u32;
    let e = d[off + 3] as u32;
    a * 0x1000000 + b * 0x10000 + c * 0x100 + e
}

/// The response code of a response: the four bytes after the tag and size.
pub fn parse_response_code(response: &[u8]) -> (r: Result<u32, TpmError>)
    ensures
        response@.len() < 10 ==> r matches Err(TpmError::InvalidResponse),
        response@.len() >= 10 ==> (r matches Ok(rc) && rc == read_be32(response@, 6)),
{
    if response.len() < 10 {
        return Err(TpmError::InvalidResponse);
    }
    Ok(get_be32(response, 6))
}

/// What a successful response is checked against: a response code of zero.
pub open spec fn response_failure(response: Seq<u8>, r: Result<u32, TpmError>) -> bool {
    ||| response.len() < 10 && r matches Err(TpmError::InvalidResponse)
    ||| response.len() >= 10 && read_be32(response, 6) != 0 && (r matches Err(
        TpmError::CommandFailed(rc),
    ) && rc == read_be32(response, 6))
}

/// The session handle that a TPM2_StartAuthSession response carries.
pub fn parse_session_response(response: &[u8]) -> (r: Result<u32, TpmError>)
    ensures
        response@.len() >= 14 && read_be32(response@, 6) == 0 ==> (r matches Ok(h) && h
            == read_be32(response@, 10)),
        response@.len() >= 10 && response@.len() < 14 && read_be32(response@, 6) == 0 ==> r matches Err(
            TpmError::InvalidResponse,
        ),
        (response@.len() < 10 || read_be32(response@, 6) != 0) ==> response_failure(
            response@,
            match r {
                Ok(v) => Ok(v),
                Err(e) => Err(e),
            },
        ),
{
    let rc = match parse_response_code(response) {
        Ok(rc) => rc,
        Err(e) => return Err(e),
    };
    if rc != 0 {
        return Err(TpmError::CommandFailed(rc));
    }
    if response.len() < 14 {
        return Err(TpmError::InvalidResponse);
    }
    Ok(get_be32(response, 10))
}

/// Whether a TPM2_PolicyPCR response reports success.
pub fn parse_policy_response(response: &[u8]) -> (r: Result<(), TpmError>)
    ensures
        response@.len() >= 10 && read_be32(response@, 6) == 0 ==> r is Ok,
        !(response@.len() >= 10 && read_be32(response@, 6) == 0) ==> response_failure(
            response@,
            match r {
                Ok(_) => Ok(0),
                Err(e) => Err(e),
            },
        ),
{
    let rc = match parse_response_code(response) {
        Ok(rc) => rc,
        Err(e) => return Err(e),
    };
    if rc != 0 {
        return Err(TpmError::CommandFailed(rc));
    }
    Ok(())
}

/// The data of a TPM2_NV_Read response, after the response code, the
/// parameter size and the two-byte data size.
pub open spec fn nv_read_outcome(response: Seq<u8>, r: Result<Vec<u8>, TpmError>) -> bool {
    if response.len() < 10 || read_be32(response, 6) != 0 {
        response_failure(response, match r {
            Ok(_) => Ok(0),
            Err(e) => Err(e),
        })
    } else if response.len() < 16 {
        r matches Err(TpmError::InvalidResponse)
    } else if read_be32(response, 10) < 2 {
        r matches Err(TpmError::InvalidResponse)
    } else {
        let n = response[14] * 256 + response[15];
        if response.len() < 16 + n {
            r matches Err(TpmError::InvalidResponse)
        } else {
            r matches Ok(v) && v@ == response.subrange(16, 16 + n)
        }
    }
}

/// parse a TPM2_NV_Read response
pub fn parse_nv_read_response(response: &[u8]) -> (r: Result<Vec<u8>, TpmError>)
    ensures
        nv_read_outcome(response@, r),
{
    let rc = match parse_response_code(response) {
        Ok(rc) => rc,
        Err(e) => return Err(e),
    };
    if rc != 0 {
        return Err(TpmError::CommandFailed(rc));
    }
    if response.len() < 16 {
        return Err(TpmError::InvalidResponse);
    }
    let param_size = get_be32(response, 10);
    if param_size < 2 {
        return Err(TpmError::InvalidResponse);
    }
    let data_size = (response[14] as usize) * 256 + response[15] as usize;
    if response.len() < 16 + data_size {
        return Err(TpmError::InvalidResponse);
    }
    let end = 16 + data_size;
    let mut out: Vec<u8> = Vec::new();
    let mut i: usize = 16;
    while i < end
        invariant
            end == 16 + data_size,
            16 <= i <= end <= response@.len(),
            out@ == response@.subrange(16, i as int),
        decreases end - i,
    {
        out.push(response[i]);
        i += 1;
        assert(out@ =~= response@.subrange(16, i as int));
    }
    Ok(out)
}

/// A stage of unsealing.
pub enum UnsealStage {
    /// Open a policy session.
    StartSession,
    /// Bind the session to the SecureBoot PCR.
    PolicySecureBoot { session: u32 },
    /// Bind the session to the bootloader PCR, after the SecureBoot one failed.
    PolicyBootloader { session: u32 },
    /// Read the key from NV storage.
    ReadKey { session: u32 },
    /// Flush the session; the key that was read is kept.
    Flush { session: u32, key: Vec<u8> },
    /// Finished with this outcome.
    Done(Result<TpmKeyMaterial, TpmError>),
}

/// The command that a stage submits, if it submits one.
pub fn stage_command(stage: &UnsealStage) -> (r: Option<Vec<u8>>)
    ensures
        match *stage {
            UnsealStage::StartSession => r matches Some(c) && c@ == command(
                TPM2_ST_NO_SESSIONS,
                TPM2_CC_START_AUTH_SESSION,
                start_session_body(),
            ),
            UnsealStage::PolicySecureBoot { session } => r matches Some(c) && c@ == command(
                TPM2_ST_NO_SESSIONS,
                TPM2_CC_POLICY_PCR,
                policy_pcr_body(session, PCR_SECUREBOOT),
            ),
            UnsealStage::PolicyBootloader { session } => r matches Some(c) && c@ == command(
                TPM2_ST_NO_SESSIONS,
                TPM2_CC_POLICY_PCR,
                policy_pcr_body(session, PCR_BOOTLOADER),
            ),
            UnsealStage::ReadKey { session } => r matches Some(c) && c@ == command(
                TPM2_ST_SESSIONS,
                TPM2_CC_NV_READ,
                nv_read_body(session, NV_INDEX_LUKS_MASTER_KEY, MASTER_KEY_SIZE),
            ),
            UnsealStage::Flush { session, key: _ } => r matches Some(c) && c@ == command(
                TPM2_ST_NO_SESSIONS,
                TPM2_CC_FLUSH_CONTEXT,
                be32(session),
            ),
            UnsealStage::Done(_) => r is None,
        },
{
    match stage {
        UnsealStage::StartSession => Some(start_session_command()),
        UnsealStage::PolicySecureBoot { session } => Some(policy_pcr_command(*session, PCR_SECUREBOOT)),
        UnsealStage::PolicyBootloader { session } => Some(policy_pcr_command(*session, PCR_BOOTLOADER)),
        UnsealStage::ReadKey { session } => Some(
            build_nv_read_command(*session, NV_INDEX_LUKS_MASTER_KEY, MASTER_KEY_SIZE),
        ),
        UnsealStage::Flush { session, key: _ } => Some(flush_context_command(*session)),
        UnsealStage::Done(_) => None,
    }
}

/// The key that was read becomes the master key when it has the expected
/// size.
pub fn key_material(key: Vec<u8>) -> (r: Result<TpmKeyMaterial, TpmError>)
    ensures
        key@.len() == 64 ==> (r matches Ok(TpmKeyMaterial::MasterKey(k)) && k@ == key@),
        key@.len() != 64 ==> r matches Err(TpmError::InvalidResponse),
{
    if key.len() != MASTER_KEY_SIZE as usize {
        return Err(TpmError::InvalidResponse);
    }
    Ok(TpmKeyMaterial::MasterKey(key))
}

/// The stage after `stage` given the TPM's reply to its command (an error
/// when the command could not be submitted). A failed SecureBoot policy
/// falls back to the bootloader PCR; the flush's reply is ignored; any
/// other failure ends unsealing with that error.
pub fn unseal_next(stage: UnsealStage, reply: Result<Vec<u8>, TpmError>) -> (r: UnsealStage)
    ensures
        match stage {
            UnsealStage::StartSession => match reply {
                Err(e) => r == UnsealStage::Done(Err(e)),
                Ok(resp) => r is PolicySecureBoot || r matches UnsealStage::Done(Err(_)),
            },
            UnsealStage::PolicySecureBoot { session } => match reply {
                Ok(resp) => if resp@.len() >= 10 && read_be32(resp@, 6) == 0 {
                    r == UnsealStage::ReadKey { session }
                } else {
                    r == UnsealStage::PolicyBootloader { session }
                },
                Err(_) => r == UnsealStage::PolicyBootloader { session },
            },
            UnsealStage::PolicyBootloader { session } => match reply {
                Ok(resp) => if resp@.len() >= 10 && read_be32(resp@, 6) == 0 {
                    r == UnsealStage::ReadKey { session }
                } else {
                    r matches UnsealStage::Done(Err(_))
                },
                Err(e) => r == UnsealStage::Done(Err(e)),
            },
            UnsealStage::ReadKey { session } => match reply {
                Ok(resp) => (r matches UnsealStage::Flush { session: s, key } && s == session
                    && nv_read_outcome(resp@, Ok(key))) || (r matches UnsealStage::Done(Err(e))
                    && nv_read_outcome(resp@, Err(e))),
                Err(e) => r == UnsealStage::Done(Err(e)),
            },
            UnsealStage::Flush { session: _, key } => (key@.len() == 64 ==> (r matches UnsealStage::Done(
                Ok(TpmKeyMaterial::MasterKey(k)),
            ) && k@ == key@)) && (key@.len() != 64 ==> r matches UnsealStage::Done(
                Err(TpmError::InvalidResponse),
            )),
            UnsealStage::Done(_) => r == stage,
        },
{
    match stage {
        UnsealStage::StartSession => match reply {
            Err(e) => UnsealStage::Done(Err(e)),
            Ok(resp) => match parse_session_response(resp.as_slice()) {
                Ok(session) => UnsealStage::PolicySecureBoot { session },
                Err(e) => UnsealStage::Done(Err(e)),
            },
        },
        UnsealStage::PolicySecureBoot { session } => match reply {
            Ok(resp) => match parse_policy_response(resp.as_slice()) {
                Ok(()) => UnsealStage::ReadKey { session },
                Err(_) => UnsealStage::PolicyBootloader { session },
            },
            Err(_) => UnsealStage::PolicyBootloader { session },
        },
        UnsealStage::PolicyBootloader { session } => match reply {
            Ok(resp) => match parse_policy_response(resp.as_slice()) {
                Ok(()) => UnsealStage::ReadKey { session },
                Err(e) => UnsealStage::Done(Err(e)),
            },
            Err(e) => UnsealStage::Done(Err(e)),
        },
        UnsealStage::ReadKey { session } => match reply {
            Ok(resp) => match parse_nv_read_response(resp.as_slice()) {
                Ok(key) => UnsealStage::Flush { session, key },
                Err(e) => UnsealStage::Done(Err(e)),
            },
            Err(e) => UnsealStage::Done(Err(e)),
        },
        UnsealStage::Flush { session: _, key } => UnsealStage::Done(key_material(key)),
        UnsealStage::Done(outcome) => UnsealStage::Done(outcome),
    }
}

/// How far a stage is from the end of unsealing.
pub open spec fn stage_rank(stage: UnsealStage) -> nat {
    match stage {
        UnsealStage::StartSession => 5,
        UnsealStage::PolicySecureBoot { .. } => 4,
        UnsealStage::PolicyBootloader { .. } => 3,
        UnsealStage::ReadKey { .. } => 2,
        UnsealStage::Flush { .. } => 1,
        UnsealStage::Done(_) => 0,
    }
}

/// The TPM accepted the PCR policy for `session` on PCR 7 or, failing
/// that, PCR 4: `submit` answered the PolicyPCR command with success.
pub open spec fn policy_passed<F: Fn(&Vec<u8>) -> Result<Vec<u8>, TpmError>>(submit: F, session: u32) -> bool {
    exists|c: &Vec<u8>, resp: Vec<u8>|
        (c@ == command(TPM2_ST_NO_SESSIONS, TPM2_CC_POLICY_PCR, policy_pcr_body(session, PCR_SECUREBOOT))
            || c@ == command(TPM2_ST_NO_SESSIONS, TPM2_CC_POLICY_PCR, policy_pcr_body(session, PCR_BOOTLOADER)))
            && #[trigger] call_ensures(submit, (c,), Ok(resp)) && resp@.len() >= 10 && read_be32(resp@, 6) == 0
}

/// `key` is what the TPM answered to the NV_Read of the master key index
/// (0x01800020, 64 bytes) in `session`.
pub open spec fn key_read<F: Fn(&Vec<u8>) -> Result<Vec<u8>, TpmError>>(submit: F, session: u32, key: Seq<u8>) -> bool {
    exists|c: &Vec<u8>, resp: Vec<u8>, kv: Vec<u8>|
        #![trigger call_ensures(submit, (c,), Ok(resp)), nv_read_outcome(resp@, Ok(kv))]
        c@ == command(TPM2_ST_SESSIONS, TPM2_CC_NV_READ, nv_read_body(session, NV_INDEX_LUKS_MASTER_KEY, MASTER_KEY_SIZE))
            && call_ensures(submit, (c,), Ok(resp)) && nv_read_outcome(resp@, Ok(kv)) && kv@ == key
}

/// What a stage has established about the TPM's answers so far.
pub open spec fn stage_facts<F: Fn(&Vec<u8>) -> Result<Vec<u8>, TpmError>>(submit: F, stage: UnsealStage) -> bool {
    match stage {
        UnsealStage::ReadKey { session } => policy_passed(submit, session),
        UnsealStage::Flush { session, key } => policy_passed(submit, session) && key_read(submit, session, key@),
        UnsealStage::Done(Ok(TpmKeyMaterial::MasterKey(k))) => k@.len() == 64 && exists|s: u32|
            policy_passed(submit, s) && #[trigger] key_read(submit, s, k@),
        UnsealStage::Done(Ok(TpmKeyMaterial::Passphrase(_))) => false,
        _ => true,
    }
}

/// Unseals the LUKS master key by running the stages against `submit`,
/// which hands a command to the TPM and returns its reply: a policy
/// session, the PCR policy on PCR 7 or else PCR 4, the NV_Read of the
/// 64-byte key at index 0x01800020, and the flush of the session. A key it
/// returns has 64 bytes and is what the TPM answered to that read after it
/// accepted the policy.
pub fn unseal_with<F: Fn(&Vec<u8>) -> Result<Vec<u8>, TpmError>>(submit: F) -> (r: Result<TpmKeyMaterial, TpmError>)
    requires
        forall|c: &Vec<u8>| call_requires(submit, (c,)),
    ensures
        r matches Ok(TpmKeyMaterial::MasterKey(k)) ==> k@.len() == 64 && exists|s: u32|
            policy_passed(submit, s) && #[trigger] key_read(submit, s, k@),
        !(r matches Ok(TpmKeyMaterial::Passphrase(_))),
{
    let mut stage = UnsealStage::StartSession;
    loop
        invariant
            forall|c: &Vec<u8>| call_requires(submit, (c,)),
            stage_facts(submit, stage),
        decreases stage_rank(stage),
    {
        stage = match stage {
            UnsealStage::Done(outcome) => {
                return outcome;
            },
            other => other,
        };
        let cmd = match stage_command(&stage) {
            Some(c) => c,
            None => {
                return Err(TpmError::InvalidResponse);
            },
        };
        let reply = submit(&cmd);
        let ghost old_stage = stage;
        let ghost rep = reply;
        stage = unseal_next(stage, reply);
        let ghost next = stage;
        proof {
            match old_stage {
                UnsealStage::PolicySecureBoot { session } => {
                    if next is ReadKey {
                        let resp = rep->Ok_0;
                        assert(call_ensures(submit, (&cmd,), Ok(resp)));
                        assert(policy_passed(submit, session));
                    }
                },
                UnsealStage::PolicyBootloader { session } => {
                    if next is ReadKey {
                        let resp = rep->Ok_0;
                        assert(call_ensures(submit, (&cmd,), Ok(resp)));
                        assert(policy_passed(submit, session));
                    }
                },
                UnsealStage::ReadKey { session } => {
                    if next is Flush {
                        let resp = rep->Ok_0;
                        assert(call_ensures(submit, (&cmd,), Ok(resp)));
                        let key = next->key;
                        assert(nv_read_outcome(resp@, Ok(key)));
                        assert(key_read(submit, session, key@));
                    }
                },
                UnsealStage::Flush { session, key } => {
                    match next {
                        UnsealStage::Done(Ok(TpmKeyMaterial::MasterKey(k))) => {
                            assert(k@ == key@);
                            assert(key_read(submit, session, k@));
                        },
                        _ => {},
                    }
                },
                _ => {},
            }
        }
    }
}

/// try to unseal LUKS master key from TPM
///
/// returns None if TPM is not available or unsealing fails
/// (caller should fall back to passphrase input); passphrase material is
/// not used yet.
pub fn try_unseal_master_key(outcome: Result<TpmKeyMaterial, TpmError>) -> (r: Option<Vec<u8>>)
    ensures
        match outcome {
            Ok(TpmKeyMaterial::MasterKey(k)) => r == Some(k),
            _ => r is None,
        },
{
    match outcome {
        Ok(TpmKeyMaterial::MasterKey(key)) => Some(key),
        Ok(TpmKeyMaterial::Passphrase(_)) => None,
        Err(_) => None,
    }
}

} // verus!
