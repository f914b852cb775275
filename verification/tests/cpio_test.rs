use nex::cpio::build_module_initramfs;
use nex::cpio::CpioBuilder;

#[test]
fn test_cpio_header_format() {
    let mut builder = CpioBuilder::new();
    builder.add_file("test.txt", b"hello world", 0o644);
    let archive = builder.finalize();

    // check magic number
    assert_eq!(&archive[0..6], b"070701");

    // check alignment
    assert_eq!(archive.len() % 4, 0);
}

fn header_field(entry: &[u8], index: usize) -> u32 {
    let start = 6 + index * 8;
    let text = std::str::from_utf8(&entry[start..start + 8]).unwrap();
    u32::from_str_radix(text, 16).unwrap()
}

#[test]
fn cpio_file_entry_has_exact_header_and_padding() {
    let mut builder = CpioBuilder::new();
    builder.add_file("a", b"xyz", 0o644);
    let archive = builder.finalize();
    // the file entry: 110-byte header, "a\0" padded to 112, content padded to 116
    assert_eq!(&archive[0..6], b"070701");
    assert_eq!(header_field(&archive, 1), 0o100644);
    assert_eq!(header_field(&archive, 4), 1);
    assert_eq!(header_field(&archive, 6), 3);
    assert_eq!(header_field(&archive, 11), 2);
    assert_eq!(&archive[110..112], b"a\0");
    assert_eq!(&archive[112..115], b"xyz");
    assert_eq!(archive[115], 0);
    // the trailer follows
    assert_eq!(&archive[116..122], b"070701");
    assert_eq!(&archive[116 + 110..116 + 120], b"TRAILER!!!");
    assert_eq!(archive.len() % 4, 0);
}

#[test]
fn cpio_file_in_subdirectory_creates_parents() {
    let mut builder = CpioBuilder::new();
    builder.add_file("lib/modules/x.ko", b"m", 0o600);
    let archive = builder.finalize();
    let text = String::from_utf8_lossy(&archive);
    let lib = text.find("lib\0").unwrap();
    let modules = text.find("lib/modules\0").unwrap();
    let file = text.find("lib/modules/x.ko\0").unwrap();
    assert!(lib < modules && modules < file);
    // directories get mode 040755
    assert_eq!(header_field(&archive, 1), 0o040755);
}

#[test]
fn cpio_add_dir_sets_directory_mode() {
    let mut builder = CpioBuilder::new();
    builder.add_dir("etc", 0o755);
    let archive = builder.finalize();
    assert_eq!(header_field(&archive, 1), 0o040755);
    assert_eq!(header_field(&archive, 6), 0);
    assert_eq!(archive.len() % 4, 0);
}

#[test]
fn cpio_empty_archive_is_only_trailer() {
    let archive = CpioBuilder::new().finalize();
    // header + "TRAILER!!!\0" (11 bytes) padded: 110 + 11 = 121 -> 124
    assert_eq!(archive.len(), 124);
    assert_eq!(header_field(&archive, 11), 11);
}

#[test]
fn module_initramfs_places_modules_under_lib_modules() {
    let modules: Vec<(&str, Vec<u8>)> = vec![("a.ko", b"AAAA".to_vec())];
    let archive = build_module_initramfs(&modules);
    let text = String::from_utf8_lossy(&archive);
    assert!(text.contains("lib/modules/a.ko\0"));
    assert!(text.contains("AAAA"));
    assert!(text.contains("TRAILER!!!"));
    assert_eq!(archive.len() % 4, 0);
}

/// Reads back the entries of a newc archive up to the trailer.
fn read_entries(a: &[u8]) -> Vec<(String, u32, Vec<u8>)> {
    let mut out = Vec::new();
    let mut o = 0usize;
    loop {
        let field = |i: usize| u32::from_str_radix(std::str::from_utf8(&a[o + 6 + 8 * i..o + 14 + 8 * i]).unwrap(), 16).unwrap() as usize;
        assert_eq!(&a[o..o + 6], b"070701");
        let (mode, size, ns) = (field(1), field(6), field(11));
        let name = String::from_utf8(a[o + 110..o + 110 + ns - 1].to_vec()).unwrap();
        if name == "TRAILER!!!" {
            return out;
        }
        let ds = (o + 110 + ns + 3) / 4 * 4;
        out.push((name, mode as u32, a[ds..ds + size].to_vec()));
        o = (ds + size + 3) / 4 * 4;
    }
}

#[test]
fn cpio_archive_reads_back_and_stays_aligned() {
    let mut b = CpioBuilder::new();
    b.add_dir("etc", 0o755);
    b.add_file("lib/modules/x.ko", b"abcde", 0o644);
    let a = b.finalize();
    assert_eq!(a.len() % 4, 0);
    let trailer = &a[a.len() - 124..];
    assert_eq!(&trailer[..6], b"070701");
    assert_eq!(&trailer[110..121], b"TRAILER!!!\0");
    assert_eq!(
        read_entries(&a),
        vec![
            ("etc".to_string(), 0o40755, vec![]),
            ("lib".to_string(), 0o40755, vec![]),
            ("lib/modules".to_string(), 0o40755, vec![]),
            ("lib/modules/x.ko".to_string(), 0o100644, b"abcde".to_vec()),
        ]
    );
}
