use nex::luks2::crypto::AesXts;
use nex::luks2::crypto::CryptoError;
use nex::luks2::crypto::af_merge;
use nex::luks2::crypto::constant_time_eq;
use nex::luks2::crypto::derive_key;
use nex::luks2::crypto::verify_master_key;
use nex::luks2::header::HeaderError;
use nex::luks2::header::Luks2BinaryHeader;
use nex::luks2::header::is_luks;
use nex::luks2::header::is_luks2;
use nex::luks2::json::Kdf;
use nex::tpm::TpmError;
use nex::tpm::TpmKeyMaterial;
use nex::tpm::UnsealStage;
use nex::tpm::build_nv_read_command;
use nex::tpm::parse_nv_read_response;
use nex::tpm::policy_pcr_command;
use nex::tpm::stage_command;
use nex::tpm::try_unseal_master_key;
use nex::tpm::unseal_next;
use nex::tpm::unseal_with;

fn header_bytes(version: u16) -> Vec<u8> {
    let mut d = vec![0u8; 512];
    d[0..6].copy_from_slice(b"LUKS\xba\xbe");
    d[6..8].copy_from_slice(&version.to_be_bytes());
    d[8..16].copy_from_slice(&16384u64.to_be_bytes());
    d[16..24].copy_from_slice(&7u64.to_be_bytes());
    d[24..29].copy_from_slice(b"label");
    d[72..78].copy_from_slice(b"sha256");
    for i in 0..64 {
        d[104 + i] = i as u8;
    }
    d[168..172].copy_from_slice(b"uuid");
    d[256..264].copy_from_slice(&4096u64.to_be_bytes());
    d
}

#[test]
fn luks2_header_fields_are_read() {
    let h = Luks2BinaryHeader::parse(&header_bytes(2)).ok().unwrap();
    assert_eq!(h.version, 2);
    assert_eq!(h.hdr_size, 16384);
    assert_eq!(h.seqid, 7);
    assert_eq!(h.label, "label");
    assert_eq!(h.checksum_alg, "sha256");
    assert_eq!(h.uuid, "uuid");
    assert_eq!(h.salt[63], 63);
    assert_eq!(h.hdr_offset, 4096);
    assert_eq!(h.json_offset(), 4096);
    assert_eq!(h.json_size(), 16384 - 4096);
}

#[test]
fn luks2_header_errors() {
    assert!(matches!(Luks2BinaryHeader::parse(&[0u8; 100]), Err(HeaderError::BufferTooSmall)));
    assert!(matches!(Luks2BinaryHeader::parse(&[0u8; 512]), Err(HeaderError::InvalidMagic)));
    assert!(matches!(
        Luks2BinaryHeader::parse(&header_bytes(1)),
        Err(HeaderError::UnsupportedVersion(1))
    ));
    let d = header_bytes(2);
    assert!(is_luks(&d) && is_luks2(&d));
    let d1 = header_bytes(1);
    assert!(is_luks(&d1) && !is_luks2(&d1));
    assert!(!is_luks(b"LUKS"));
}

#[test]
fn constant_time_comparison_is_equality() {
    assert!(constant_time_eq(b"abc", b"abc"));
    assert!(!constant_time_eq(b"abc", b"abd"));
    assert!(!constant_time_eq(b"abc", b"ab"));
    assert!(constant_time_eq(b"", b""));
}

fn pbkdf2_kdf(hash: Option<&str>, iterations: u32) -> Kdf {
    Kdf {
        kdf_type: "pbkdf2".into(),
        salt: b"salt".to_vec(),
        time: None,
        memory: None,
        cpus: None,
        iterations: Some(iterations),
        hash: hash.map(|s| s.to_string()),
    }
}

#[test]
fn pbkdf2_key_derivation_matches_reference_vector() {
    // RFC 7914 / common PBKDF2-HMAC-SHA256 vector: P="password", S="salt", c=1
    let key = derive_key(b"password", &pbkdf2_kdf(None, 1), 32).ok().unwrap();
    assert_eq!(
        key,
        vec![
            0x12, 0x0f, 0xb6, 0xcf, 0xfc, 0xf8, 0xb3, 0x2c, 0x43, 0xe7, 0x22, 0x52, 0x56, 0xc4,
            0xf8, 0x37, 0xa8, 0x65, 0x48, 0xc9, 0x2c, 0xcc, 0x35, 0x48, 0x08, 0x05, 0x98, 0x7c,
            0xb7, 0x0b, 0xe1, 0x7b
        ]
    );
    assert!(matches!(
        derive_key(b"p", &pbkdf2_kdf(Some("sha1"), 1), 32),
        Err(CryptoError::UnsupportedHash(h)) if h == "sha1"
    ));
    let mut other = pbkdf2_kdf(None, 1);
    other.kdf_type = "scrypt".into();
    assert!(matches!(derive_key(b"p", &other, 32), Err(CryptoError::UnsupportedKdf(k)) if k == "scrypt"));
}

#[test]
fn argon2_rejects_bad_parameters() {
    let kdf = Kdf {
        kdf_type: "argon2id".into(),
        salt: b"saltsalt".to_vec(),
        time: Some(0),
        memory: Some(64),
        cpus: Some(1),
        iterations: None,
        hash: None,
    };
    match derive_key(b"p", &kdf, 32) {
        Err(CryptoError::KdfError(m)) => assert!(m.starts_with("params: ")),
        _ => panic!("expected a parameter error"),
    }
    let ok = Kdf { time: Some(1), ..kdf };
    let key = derive_key(b"p", &ok, 32).ok().unwrap();
    assert_eq!(key.len(), 32);
    let short = Kdf { salt: b"short".to_vec(), ..ok };
    match derive_key(b"p", &short, 32) {
        Err(CryptoError::KdfError(m)) => assert!(m.starts_with("hash: ")),
        _ => panic!("expected a salt error"),
    }
}

#[test]
fn master_key_verification_uses_pbkdf2() {
    let digest = derive_key(b"password", &pbkdf2_kdf(None, 1), 32).ok().unwrap();
    assert!(verify_master_key(b"password", b"salt", &digest, 1, "sha256").ok().unwrap());
    assert!(!verify_master_key(b"passwore", b"salt", &digest, 1, "sha256").ok().unwrap());
    assert!(verify_master_key(b"password", b"salt", &digest, 1, "md5").is_err());
}

#[test]
fn af_merge_combines_stripes_with_diffusion() {
    // one stripe merges to itself
    let split = vec![5u8; 32];
    let key = af_merge(&split, 32, 1, "sha256").ok().unwrap();
    assert_eq!(key, vec![5u8; 32]);
    assert!(matches!(af_merge(&split, 32, 1, "sha1"), Err(CryptoError::UnsupportedHash(_))));
    // two stripes: the diffusion of the first (zero key xor stripe 0),
    // that is SHA-256 of the block number 0 and the stripe, xor stripe 1
    let mut split2 = vec![1u8; 32];
    split2.extend_from_slice(&[2u8; 32]);
    let key2 = af_merge(&split2, 32, 2, "sha256").ok().unwrap();
    let mut input = vec![0u8; 4];
    input.extend_from_slice(&[1u8; 32]);
    let h = <sha2::Sha256 as sha2::Digest>::digest(&input);
    let expected: Vec<u8> = h.iter().map(|b| b ^ 2).collect();
    assert_eq!(key2, expected);
    // no stripe: zero bytes
    assert_eq!(af_merge(&[], 4, 0, "sha256").ok().unwrap(), vec![0u8; 4]);
}

#[test]
fn xts_cipher_checks_key_size_and_keeps_length() {
    assert!(matches!(AesXts::new(&[0u8; 32], 512), Err(CryptoError::InvalidKeySize)));
    let c = AesXts::new(&[7u8; 64], 512).ok().unwrap();
    assert_eq!(c.sector_size(), 512);
    let mut data = vec![0u8; 1100];
    c.decrypt_sectors(0, &mut data);
    assert_eq!(data.len(), 1100);
    assert_ne!(&data[0..512], &[0u8; 512][..]);
    // the partial tail after the last full sector is left as it was
    assert_eq!(&data[1024..], &[0u8; 76][..]);
}

#[test]
fn tpm_commands_carry_their_size() {
    let cmd = policy_pcr_command(0x03000000, 7);
    assert_eq!(u32::from_be_bytes([cmd[2], cmd[3], cmd[4], cmd[5]]) as usize, cmd.len());
    assert_eq!(&cmd[cmd.len() - 3..], &[0x80u8, 0, 0]);
    let cmd4 = policy_pcr_command(0x03000000, 9);
    assert_eq!(&cmd4[cmd4.len() - 3..], &[0u8, 0x02, 0]);
    let nv = build_nv_read_command(0x03000001, 0x01800020, 64);
    assert_eq!(nv.len(), 35);
    assert_eq!(&nv[0..2], &[0x80, 0x02]);
    assert_eq!(&nv[10..14], &[0x01, 0x80, 0x00, 0x20]);
    let start = stage_command(&UnsealStage::StartSession).unwrap();
    assert_eq!(start.len(), 59);
}

#[test]
fn tpm_nv_read_response_is_parsed() {
    let mut resp = vec![0x80, 0x02, 0, 0, 0, 20, 0, 0, 0, 0, 0, 0, 0, 6, 0, 4, 1, 2, 3, 4];
    assert_eq!(parse_nv_read_response(&resp).ok().unwrap(), vec![1, 2, 3, 4]);
    resp[9] = 1;
    assert!(matches!(parse_nv_read_response(&resp), Err(TpmError::CommandFailed(1))));
    assert!(matches!(parse_nv_read_response(&resp[..8]), Err(TpmError::InvalidResponse)));
}

#[test]
fn tpm_unseal_falls_back_to_bootloader_pcr() {
    let session_reply = vec![0x80, 0x01, 0, 0, 0, 14, 0, 0, 0, 0, 0x03, 0, 0, 0x05];
    let stage = unseal_next(UnsealStage::StartSession, Ok(session_reply));
    assert!(matches!(stage, UnsealStage::PolicySecureBoot { session: 0x03000005 }));
    let failed = vec![0x80, 0x01, 0, 0, 0, 10, 0, 0, 0x01, 0x1d];
    let stage = unseal_next(stage, Ok(failed));
    assert!(matches!(stage, UnsealStage::PolicyBootloader { session: 0x03000005 }));
    let ok = vec![0x80, 0x01, 0, 0, 0, 10, 0, 0, 0, 0];
    let stage = unseal_next(stage, Ok(ok));
    assert!(matches!(stage, UnsealStage::ReadKey { session: 0x03000005 }));
    let mut key_reply = vec![0x80, 0x02, 0, 0, 0, 0, 0, 0, 0, 0, 0, 0, 0, 66, 0, 64];
    key_reply.extend_from_slice(&[9u8; 64]);
    let stage = unseal_next(stage, Ok(key_reply));
    assert!(matches!(stage, UnsealStage::Flush { .. }));
    let stage = unseal_next(stage, Err(TpmError::CommandFailed(0)));
    match stage {
        UnsealStage::Done(outcome) => assert_eq!(try_unseal_master_key(outcome), Some(vec![9u8; 64])),
        _ => panic!("expected the end of unsealing"),
    }
    assert_eq!(try_unseal_master_key(Err(TpmError::TpmNotPresent)), None);
    assert_eq!(try_unseal_master_key(Ok(TpmKeyMaterial::Passphrase(vec![1]))), None);
}

fn fake_tpm(cmd: &Vec<u8>) -> Result<Vec<u8>, TpmError> {
    let cc = u32::from_be_bytes([cmd[6], cmd[7], cmd[8], cmd[9]]);
    match cc {
        0x176 => Ok(vec![0x80, 0x01, 0, 0, 0, 14, 0, 0, 0, 0, 0x03, 0, 0, 0x05]),
        0x17F => {
            // PCR 7 is refused, PCR 4 accepted
            let pcr_bits = &cmd[cmd.len() - 3..];
            if pcr_bits[0] & 0x80 != 0 {
                Ok(vec![0x80, 0x01, 0, 0, 0, 10, 0, 0, 0x01, 0x1d])
            } else {
                Ok(vec![0x80, 0x01, 0, 0, 0, 10, 0, 0, 0, 0])
            }
        }
        0x14E => {
            let mut r = vec![0x80, 0x02, 0, 0, 0, 0, 0, 0, 0, 0, 0, 0, 0, 66, 0, 64];
            r.extend_from_slice(&[7u8; 64]);
            Ok(r)
        }
        _ => Ok(vec![0x80, 0x01, 0, 0, 0, 10, 0, 0, 0, 0]),
    }
}

#[test]
fn unseal_with_runs_the_stages_against_the_tpm() {
    let outcome = unseal_with(fake_tpm);
    assert_eq!(try_unseal_master_key(outcome), Some(vec![7u8; 64]));
    let absent = unseal_with(|_c: &Vec<u8>| Err(TpmError::TpmNotPresent));
    assert!(matches!(absent, Err(TpmError::TpmNotPresent)));
}
