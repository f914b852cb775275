use nex::builder::listing::index_listing;
use nex::builder::listing::listing_entry_path;
use nex::builder::listing::output_refs;
use nex::builder::ostree::find_commit_by_manifest_hash;
use nex::builder::ostree::log_commit_ids;
use nex::builder::ostree::metadata_value;
use nex::builder::ostree::quoted_checksum;
use nex::builder::ostree_native::cat_step;
use nex::builder::ostree_native::checkout_plan;
use nex::builder::ostree_native::commit_info_from_parts;
use nex::builder::ostree_native::dirtree_from_entries;
use nex::builder::ostree_native::file_kind;
use nex::builder::ostree_native::get_commit_metadata;
use nex::builder::ostree_native::list_refs;
use nex::builder::ostree_native::ls_lines;
use nex::builder::ostree_native::ostreemeta_mode;
use nex::builder::ostree_native::symlink_target;
use nex::builder::ostree_native::variant_string;
use nex::builder::ostree_native::CatStep;
use nex::builder::ostree_native::CheckoutOptions;
use nex::builder::ostree_native::DirEntry;
use nex::builder::ostree_native::DirTree;
use nex::builder::ostree_native::FileEntry;
use nex::builder::ostree_native::FileKind;
use nex::builder::ostree_native::OstreeRepo;
use nex::builder::ostree_native::TreeWalk;
use nex::builder::runtime::ProviderIndex;
use nex::builder::runtime::RuntimeScanner;
use nex::builder::scan::collect_basenames;
use nex::builder::scan::ElfMetadata;
use nex::builder::scan::ScannedFile;
use nex::builder::scan::ShebangInfo;

fn file(name: &str, checksum: &str) -> FileEntry {
    FileEntry { name: name.to_string(), checksum: checksum.to_string() }
}

fn dir(name: &str, tree: &str) -> DirEntry {
    DirEntry { name: name.to_string(), tree_checksum: tree.to_string(), meta_checksum: "m".to_string() }
}

#[test]
fn ls_lines_name_files_and_symlinks() {
    assert_eq!(
        listing_entry_path("-00644 0 0 1234 /usr/lib/libz.so.1.3"),
        Some("/usr/lib/libz.so.1.3".to_string())
    );
    assert_eq!(
        listing_entry_path("l00777 0 0 0 /usr/lib/libz.so.1 -> libz.so.1.3"),
        Some("/usr/lib/libz.so.1".to_string())
    );
    assert_eq!(listing_entry_path("d00755 0 0 0 /usr/lib"), None);
    assert_eq!(listing_entry_path("-00644 no-path"), None);
    assert_eq!(listing_entry_path(""), None);
}

#[test]
fn listing_indexes_under_output_branches() {
    let mut index = ProviderIndex::new();
    let outputs = vec!["x/pkg/z/1/outputs/lib".to_string()];
    let listing = "d00755 0 0 0 /usr\n-00644 0 0 10 /usr/lib/libz.so.1\n-00755 0 0 10 /usr/bin/zcat\n";
    index_listing(&mut index, listing, "x/pkg/z/1", "x/pkg/z/1/outputs/all", &outputs);
    let by_name: Vec<(String, Vec<(String, String)>)> = index
        .by_basename
        .iter()
        .map(|(k, v)| (k.clone(), v.iter().map(|m| (m.commit.clone(), m.path.clone())).collect()))
        .collect();
    assert_eq!(
        by_name,
        vec![
            ("libz.so.1".to_string(), vec![("x/pkg/z/1/outputs/lib".to_string(), "/usr/lib/libz.so.1".to_string())]),
            ("zcat".to_string(), vec![("x/pkg/z/1/outputs/all".to_string(), "/usr/bin/zcat".to_string())]),
        ]
    );
    assert_eq!(index.by_full_path.len(), 2);
}

#[test]
fn output_refs_are_trimmed_non_empty_lines() {
    assert_eq!(
        output_refs("  a/outputs/lib  \n\n b/outputs/bin\n   \n"),
        vec!["a/outputs/lib".to_string(), "b/outputs/bin".to_string()]
    );
    assert!(output_refs("").is_empty());
}

#[test]
fn scanner_scans_files_of_existing_output() {
    let deps = vec!["x/bootstrap/phase3/gcc/1".to_string()];
    let scanner = RuntimeScanner::new("/repo", &deps);
    let mut index = ProviderIndex::new();
    index.add_entry("x/pkg/z/1/outputs/lib", "/usr/lib/libz.so.1".to_string());
    let files = vec![
        ScannedFile {
            display_path: "/usr/bin/tool".to_string(),
            elf: Some(ElfMetadata { needed: vec!["libz.so.1".to_string(), "libself.so".to_string()], interpreter: None }),
            shebang: None,
        },
        ScannedFile {
            display_path: "/usr/bin/script".to_string(),
            elf: None,
            shebang: Some(ShebangInfo { interpreter: "/usr/bin/env".to_string(), args: vec!["perl".to_string()] }),
        },
    ];
    let local = vec!["tool".to_string(), "libself.so".to_string(), "tool".to_string()];
    let exists = |_p: &str| false;
    let result = scanner.scan(true, &files, &local, &index, &exists);
    assert!(result.is_phase3());
    let bin = result.category_resolved("bin").unwrap();
    assert_eq!(bin[0].0, "x/pkg/z/1/outputs/lib");
    let un = result.category_unresolved("bin").unwrap();
    let keys: Vec<&str> = un.iter().map(|(k, _)| k.as_str()).collect();
    assert_eq!(keys, vec!["/usr/bin/env", "perl"]);
    let none = scanner.scan(false, &files, &local, &index, &exists);
    assert!(none.is_empty());
    assert!(!none.is_phase3());
    assert_eq!(collect_basenames(&local), vec!["libself.so".to_string(), "tool".to_string()]);
}

#[test]
fn dirtree_checksums_are_lowercase_hex() {
    let tree = dirtree_from_entries(
        &vec![("a".to_string(), vec![0x01, 0xab, 0xff])],
        &vec![("d".to_string(), vec![0x00, 0x10], vec![0xfe])],
    );
    assert_eq!(tree.files[0].checksum, "01abff");
    assert_eq!(tree.dirs[0].tree_checksum, "0010");
    assert_eq!(tree.dirs[0].meta_checksum, "fe");
}

#[test]
fn commit_metadata_keeps_string_variants() {
    let meta = vec![
        ("nex.manifest.hash".to_string(), b"s".to_vec(), b"abc\0\0".to_vec()),
        ("nex.count".to_string(), b"u".to_vec(), vec![1, 0, 0, 0]),
        ("bad".to_string(), b"s".to_vec(), vec![0xff, 0xfe, 0]),
        ("nex.manifest.hash".to_string(), b"s".to_vec(), b"def".to_vec()),
    ];
    let info = commit_info_from_parts(&meta, "subject", &[0xaa], &[0x0b]);
    assert_eq!(info.root_tree, "aa");
    assert_eq!(info.root_meta, "0b");
    assert_eq!(info.subject, "subject");
    assert_eq!(get_commit_metadata(&info, "nex.manifest.hash"), Some("def".to_string()));
    assert_eq!(get_commit_metadata(&info, "nex.count"), None);
    assert_eq!(get_commit_metadata(&info, "bad"), None);
    assert_eq!(variant_string(b"s", b"x\0y"), Some("x".to_string()));
    assert_eq!(variant_string(b"as", b"x"), None);
}

#[test]
fn refs_are_filtered_and_sorted() {
    let names = vec!["b/outputs/lib".to_string(), "a/outputs/bin".to_string(), "c/bundles/x".to_string()];
    assert_eq!(
        list_refs(&names, Some("outputs")),
        vec!["a/outputs/bin".to_string(), "b/outputs/lib".to_string()]
    );
    assert_eq!(list_refs(&names, None).len(), 3);
    assert_eq!(list_refs(&names, None)[2], "c/bundles/x");
}

#[test]
fn walk_lists_tree_in_recursive_order() {
    let root = DirTree { files: vec![file("f", "c1")], dirs: vec![dir("a", "ta"), dir("b", "tb")] };
    let a = DirTree { files: vec![file("g", "c2")], dirs: vec![dir("x", "tx")] };
    let x = DirTree { files: vec![], dirs: vec![] };
    let b = DirTree { files: vec![file("h", "c3")], dirs: vec![] };
    let tree_of = |c: &str| match c {
        "root" => &root,
        "ta" => &a,
        "tx" => &x,
        _ => &b,
    };
    let mut walk = TreeWalk::new("root", "");
    let mut lines: Vec<String> = Vec::new();
    let mut first = true;
    while let Some(c) = walk.next_tree() {
        let tree = tree_of(&c);
        let visited = walk.visit(tree);
        lines.extend(ls_lines(&visited, first, tree));
        first = false;
    }
    assert_eq!(lines, vec!["f", "a/", "a/g", "a/x/", "b/", "b/h"]);
}

#[test]
fn checkout_plans_place_files_below_directory() {
    let tree = DirTree { files: vec![file("f", "c1"), file("g", "c2")], dirs: vec![] };
    let mut walk = TreeWalk::new("root", "/target");
    let visited = walk.visit(&tree);
    let plan = checkout_plan(&visited, &tree, &CheckoutOptions::default());
    assert_eq!(plan.len(), 2);
    assert_eq!(plan[1].dest, "/target/g");
    assert_eq!(plan[1].checksum, "c2");
    assert!(plan[0].keep_existing);
    let strict = checkout_plan(&visited, &tree, &CheckoutOptions { union: false });
    assert!(!strict[0].keep_existing);
}

#[test]
fn cat_steps_follow_the_path() {
    let tree = DirTree { files: vec![file("f", "c1")], dirs: vec![dir("etc", "te")] };
    assert!(matches!(cat_step(&tree, "/f"), CatStep::ReadFile(c) if c == "c1"));
    assert!(matches!(cat_step(&tree, "//etc/os-release"), CatStep::Descend(t, rest) if t == "te" && rest == "os-release"));
    assert!(matches!(cat_step(&tree, "nope"), CatStep::FileNotFound(p) if p == "nope"));
    assert!(matches!(cat_step(&tree, "usr/bin/x"), CatStep::DirNotFound(n) if n == "usr"));
}

#[test]
fn repo_open_needs_config_and_objects() {
    match OstreeRepo::open("/r", false, true) {
        Err(e) => assert_eq!(e, "not an OSTree repository: /r (missing config)"),
        Ok(_) => panic!("expected error"),
    }
    match OstreeRepo::open("/r", true, false) {
        Err(e) => assert_eq!(e, "not an OSTree repository: /r (missing objects)"),
        Ok(_) => panic!("expected error"),
    }
    let repo = OstreeRepo::open("/r", true, true).ok().unwrap();
    assert_eq!(repo.objects.objects_dir, "/r/objects");
    assert_eq!(repo.ref_path("x86_64/a"), "/r/refs/heads/x86_64/a");
}

#[test]
fn object_modes_and_symlinks() {
    let meta = [0, 0, 0, 0, 0, 0, 0, 0, 0x00, 0x00, 0xa1, 0xff];
    let mode = ostreemeta_mode(&meta).unwrap();
    assert_eq!(mode, 0o120777);
    assert!(matches!(file_kind(mode), FileKind::Symlink));
    assert!(matches!(file_kind(0o100644), FileKind::Regular));
    assert!(matches!(file_kind(0o040755), FileKind::Unsupported(t) if t == 0o040000));
    assert_eq!(ostreemeta_mode(&[0u8; 11]), None);
    assert_eq!(symlink_target(b"../lib/libz.so\0\0"), "../lib/libz.so");
}

#[test]
fn ostree_show_output_is_unquoted() {
    assert_eq!(metadata_value("  'abc'\n"), "abc");
    assert_eq!(metadata_value("''x''"), "x");
    assert_eq!(quoted_checksum(" 'abc' \n"), "abc");
    assert_eq!(quoted_checksum("abc"), "abc");
    assert_eq!(quoted_checksum("''"), "");
}

#[test]
fn log_lists_commits_and_search_finds_first_match() {
    let log = "commit aaa\nParent: x\n\n  commit   bbb  \nDate: now\ncommit ccc\n";
    let ids = log_commit_ids(log);
    assert_eq!(ids, vec!["aaa".to_string(), "bbb".to_string(), "ccc".to_string()]);
    let hash_of = |c: &str| -> Option<String> {
        match c {
            "bbb" | "ccc" => Some("h1".to_string()),
            _ => None,
        }
    };
    assert_eq!(find_commit_by_manifest_hash(&ids, "h1", &hash_of), Some("bbb".to_string()));
    assert_eq!(find_commit_by_manifest_hash(&ids, "h2", &hash_of), None);
}
