use nex::builder::runtime::ProviderIndex;
use nex::builder::runtime::RuntimeScanResult;
use nex::builder::scan::elf_metadata;
use nex::builder::scan::handle_shebang_requirement;
use nex::builder::scan::parse_shebang_line;
use nex::builder::scan::record_elf_requirements;
use nex::builder::scan::split_whitespace;
use nex::builder::scan::ElfMetadata;

#[test]
fn parse_shebang_extracts_interpreter_and_args() {
    let info = parse_shebang_line(b"#!/usr/bin/env python3 -OO\n").expect("expected shebang info");
    assert_eq!(info.interpreter, "/usr/bin/env");
    assert_eq!(info.args, vec!["python3".to_string(), "-OO".to_string()]);
    assert!(parse_shebang_line(b"#!   \n").is_none());
    assert!(parse_shebang_line(b"echo hi\n").is_none());
    assert!(parse_shebang_line(b"#").is_none());
    assert_eq!(split_whitespace("  a \t b  "), vec!["a".to_string(), "b".to_string()]);
}

#[test]
fn non_elf_bytes_have_no_metadata() {
    assert!(elf_metadata(b"#!/bin/sh\n").is_none());
    assert!(elf_metadata(b"\x7fEL").is_none());
    assert!(elf_metadata(b"\x7fELF garbage").is_none());
}

#[test]
fn elf_requirements_resolve_or_stay_unresolved() {
    let mut index = ProviderIndex::default();
    index.add_entry("x/core/zlib/1/outputs/lib", "/usr/lib/libz.so.1".to_string());
    let meta = ElfMetadata {
        needed: vec!["libz.so.1".into(), "libown.so".into(), "libnone.so".into()],
        interpreter: Some("/lib/ld-linux.so.2".into()),
    };
    let local = vec!["libown.so".to_string()];
    let mut result = RuntimeScanResult::default();
    record_elf_requirements(&meta, "/usr/bin/f", &local, &index, &mut result, "bin");
    let bin = result.category_resolved("bin").unwrap();
    assert_eq!(bin.len(), 1);
    assert_eq!(bin[0].0, "x/core/zlib/1/outputs/lib");
    assert_eq!(bin[0].1, vec!["/usr/bin/f needs libz.so.1".to_string()]);
    let un = result.category_unresolved("bin").unwrap();
    let keys: Vec<&str> = un.iter().map(|(k, _)| k.as_str()).collect();
    assert_eq!(keys, vec!["/lib/ld-linux.so.2", "libnone.so"]);
}

#[test]
fn shebang_targets_skip_own_files_and_early_phases() {
    let mut index = ProviderIndex::default();
    index.add_entry("x/bootstrap/phase1/sh/1/outputs/bin", "/bin/sh".to_string());
    let exists = |p: &str| p == "usr/bin/own";
    let mut result = RuntimeScanResult::new(true);
    handle_shebang_requirement("/bin/sh", "/s", &exists, &vec![], &index, &mut result, "bin");
    assert!(result.is_empty());
    handle_shebang_requirement("/usr/bin/own", "/s", &exists, &vec![], &index, &mut result, "bin");
    assert!(result.is_empty());
    let mut later = RuntimeScanResult::new(false);
    handle_shebang_requirement(" /bin/sh ", "/s", &exists, &vec![], &index, &mut later, "bin");
    let bin = later.category_resolved("bin").unwrap();
    assert_eq!(bin[0].1, vec!["/s shebang references /bin/sh".to_string()]);
}
