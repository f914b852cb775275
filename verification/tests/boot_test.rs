use nex::boot::DirEntry;
use nex::boot::InputEvent;
use nex::boot::PassphraseStep;
use nex::boot::append_character;
use nex::boot::build_cmdline;
use nex::boot::config_entries;
use nex::boot::module_file_name;
use nex::boot::module_full_path;
use nex::boot::normalize_kcmdline;
use nex::boot::parse_deployment_name;
use nex::boot::parse_u32;
use nex::boot::passphrase_step;
use nex::boot::printable_event;
use nex::boot::select_default_deployment;
use nex::gpt::GptEntry;
use nex::gpt::GptHeader;
use nex::gpt::format_guid;
use nex::gpt::guid_is_zero;
use nex::gpt::read_u32_le;
use nex::gpt::read_u64_le;
use nex::gpt::select_root_entry;
use nex::gpt::utf16_name_from_bytes;

fn checksum() -> String {
    "0123456789abcdef".repeat(4)
}

#[test]
fn deployment_names_are_checksum_dot_serial() {
    let name = format!("{}.7", checksum());
    let d = parse_deployment_name(&name).unwrap();
    assert_eq!(d.checksum, checksum());
    assert_eq!(d.serial, 7);
    assert_eq!(d.path, format!("/nex/deployments/{}", name));
    assert!(parse_deployment_name(&checksum()).is_none());
    assert!(parse_deployment_name(&format!("{}.x", checksum())).is_none());
    assert!(parse_deployment_name(&format!("{}.4294967296", checksum())).is_none());
    assert!(parse_deployment_name(&format!("{}g.1", &checksum()[..63])).is_none());
    assert_eq!(parse_u32("+12"), Some(12));
    assert_eq!(parse_u32("4294967295"), Some(u32::MAX));
    assert_eq!(parse_u32(""), None);
    assert_eq!(parse_u32("+"), None);
}

#[test]
fn default_deployment_has_the_highest_serial() {
    let entries = vec![
        DirEntry { name: format!("{}.1", checksum()), is_dir: true },
        DirEntry { name: format!("{}.3", checksum()), is_dir: false },
        DirEntry { name: "junk".into(), is_dir: true },
        DirEntry { name: format!("{}.2", checksum()), is_dir: true },
    ];
    let d = select_default_deployment(&entries).unwrap();
    assert_eq!(d.serial, 2);
    assert!(select_default_deployment(&vec![]).is_none());
}

#[test]
fn kernel_command_line_is_assembled() {
    assert_eq!(
        build_cmdline("abcd", "/nex/deployments/x.1", Some("  quiet splash ")),
        "root=PARTUUID=abcd zub=/nex/deployments/x.1 ro quiet splash"
    );
    assert_eq!(build_cmdline("p", "d", Some("   ")), "root=PARTUUID=p zub=d ro");
    assert_eq!(build_cmdline("p", "d", None), "root=PARTUUID=p zub=d ro");
    assert_eq!(
        normalize_kcmdline("# comment\n quiet \n\nloglevel=3\r\n").as_deref(),
        Some("quiet loglevel=3")
    );
    assert_eq!(normalize_kcmdline("# only comments\n\n"), None);
}

#[test]
fn boot_modules_config_lists_module_paths() {
    let entries = config_entries("lib/modules/a.ko\n# skip\n  /lib/modules/b.ko  \n");
    assert_eq!(entries, vec!["lib/modules/a.ko".to_string(), "/lib/modules/b.ko".to_string()]);
    assert_eq!(module_full_path("/nex/d", "lib/x.ko"), "/nex/d/lib/x.ko");
    assert_eq!(module_full_path("/nex/d", "/lib/x.ko"), "/nex/d/lib/x.ko");
    assert_eq!(module_file_name("lib/modules/x.ko"), "x.ko");
    assert_eq!(module_file_name("x.ko"), "x.ko");
}

#[test]
fn passphrase_input_edits_the_buffer() {
    let mut p = Vec::new();
    assert!(matches!(printable_event('\r'), InputEvent::Enter));
    assert!(matches!(printable_event('\x7f'), InputEvent::Backspace));
    assert!(matches!(printable_event('a'), InputEvent::Char('a')));
    assert!(matches!(passphrase_step(&mut p, InputEvent::Char('é')), PassphraseStep::Continue));
    assert_eq!(p, "é".as_bytes().to_vec());
    assert!(matches!(passphrase_step(&mut p, InputEvent::Backspace), PassphraseStep::Continue));
    assert_eq!(p.len(), 1);
    assert!(matches!(passphrase_step(&mut p, InputEvent::Idle), PassphraseStep::Wait));
    assert!(matches!(passphrase_step(&mut p, InputEvent::Escape), PassphraseStep::Cancelled));
    assert!(matches!(passphrase_step(&mut p, InputEvent::Enter), PassphraseStep::Done));
    let mut full = vec![b'x'; 512];
    append_character(&mut full, 'y');
    assert_eq!(full.len(), 512);
}

fn gpt_entry(type_guid: [u8; 16], name: &str, start: u64, end: u64) -> Vec<u8> {
    let mut e = vec![0u8; 128];
    e[0..16].copy_from_slice(&type_guid);
    e[16..32].copy_from_slice(&[0x11; 16]);
    e[32..40].copy_from_slice(&start.to_le_bytes());
    e[40..48].copy_from_slice(&end.to_le_bytes());
    for (i, u) in name.encode_utf16().enumerate() {
        e[56 + 2 * i..58 + 2 * i].copy_from_slice(&u.to_le_bytes());
    }
    e
}

const LINUX_FS: [u8; 16] = [
    0xaf, 0x3d, 0xc6, 0x0f, 0x83, 0x84, 0x72, 0x47, 0x8e, 0x79, 0x3d, 0x69, 0xd8, 0x47, 0x7d, 0xe4,
];

#[test]
fn gpt_entries_are_decoded() {
    let e = GptEntry::parse(&gpt_entry(LINUX_FS, "nex", 2048, 4095)).unwrap();
    assert_eq!(e.name, "nex");
    assert_eq!(e.start_lba, 2048);
    assert_eq!(e.end_lba, 4095);
    assert_eq!(e.partuuid, "11111111-1111-1111-1111-111111111111");
    assert!(GptEntry::parse(&gpt_entry([0; 16], "nex", 1, 2)).is_none());
    assert!(GptEntry::parse(&[1u8; 100]).is_none());
    assert_eq!(
        format_guid(&LINUX_FS),
        "0fc63daf-8483-4772-8e79-3d69d8477de4"
    );
    assert!(guid_is_zero(&[0; 16]));
    assert!(!guid_is_zero(&LINUX_FS));
    assert_eq!(read_u32_le(&[1, 2, 3, 4], 0), Some(0x04030201));
    assert_eq!(read_u32_le(&[1, 2, 3], 0), None);
    assert_eq!(read_u64_le(&[1, 0, 0, 0, 0, 0, 0, 0x80], 0), Some(0x8000_0000_0000_0001));
    // an unpaired surrogate becomes U+FFFD; a pair is one character
    assert_eq!(utf16_name_from_bytes(&[0x00, 0xd8, 0x41, 0x00, 0x3d, 0xd8, 0x00, 0xde, 0, 0, 0x42, 0]), "\u{FFFD}A\u{1F600}");
}

#[test]
fn gpt_header_and_root_selection() {
    let mut block = vec![0u8; 512];
    block[0..8].copy_from_slice(b"EFI PART");
    block[72..80].copy_from_slice(&2u64.to_le_bytes());
    block[80..84].copy_from_slice(&3u32.to_le_bytes());
    block[84..88].copy_from_slice(&128u32.to_le_bytes());
    let h = GptHeader::parse(&block).unwrap();
    assert_eq!((h.entries_lba, h.entry_count, h.entry_size), (2, 3, 128));
    assert!(GptHeader::parse(&block[..80]).is_none());
    assert!(GptHeader::parse(&[0u8; 512]).is_none());

    let mut table = gpt_entry(LINUX_FS, "other", 1, 2);
    table.extend(gpt_entry([1; 16], "nex", 3, 4));
    table.extend(gpt_entry(LINUX_FS, "nex", 100, 199));
    let root = select_root_entry(&table, 128, 3).unwrap();
    assert_eq!(root.start_lba, 100);
    assert_eq!(root.num_blocks, 100);
    assert!(select_root_entry(&table, 64, 3).is_none());
    let bad = gpt_entry(LINUX_FS, "nex", 10, 5);
    assert!(select_root_entry(&bad, 128, 1).is_none());
}
