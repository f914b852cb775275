use nex::builder::ostree::encode_metadata_list;
use nex::builder::closure::resolve_runtime_deps_precomputed;
use nex::builder::manifest::Dependency;
use nex::builder::materializer::MaterializeRequest;
use nex::builder::resolver::needs_of;
use nex::builder::resolver::FileNeeds;
use nex::builder::resolver::ManifestEntry;
use nex::builder::resolver::ManifestModel;
use nex::builder::resolver::NeedTarget;
use nex::builder::manifest::OutputSpec;
use nex::builder::outputs::checksum_action;
use nex::builder::outputs::build_checksum;
use nex::builder::outputs::plan_hash;
use nex::builder::outputs::plan_text;
use nex::builder::outputs::output_placements;
use nex::builder::outputs::unaccounted_files;
use nex::builder::outputs::ChecksumAction;

fn hex(bytes: &[u8]) -> String {
    bytes.iter().map(|b| format!("{:02x}", b)).collect()
}

#[test]
fn build_checksum_hashes_plan_then_outputs() {
    let files = vec![("a".to_string(), b"x".to_vec()), ("b/c".to_string(), b"yz".to_vec())];
    let input = b"p1a\0x\0b/c\0yz\0".to_vec();
    let expected = hex(&<sha2::Sha256 as sha2::Digest>::digest(&input));
    assert_eq!(build_checksum("p1", &files), expected);
    let empty = hex(&<sha2::Sha256 as sha2::Digest>::digest(b""));
    assert_eq!(build_checksum("", &vec![]), empty);
    assert_eq!(empty, "e3b0c44298fc1c149afbf4c8996fb92427ae41e4649b934ca495991b7852b855");
    assert_ne!(build_checksum("p2", &files), build_checksum("p1", &files));
}

#[test]
fn plan_ignores_the_checksum_field() {
    let with = "package:\n  name: x\n  checksum: \"abc\"\nbuild:\n  script: y\n";
    let without = "package:\n  name: x\nbuild:\n  script: y\n";
    assert_eq!(plan_text(with), without);
    assert_eq!(plan_text(without), without);
    assert_eq!(plan_text("checksum: top\n  checksum: z"), "checksum: top");
    let h = hex(&<sha2::Sha256 as sha2::Digest>::digest(without.as_bytes()));
    assert_eq!(plan_hash(plan_text(with).as_bytes()), h);
}

#[test]
fn checksum_action_follows_record_and_update_flag() {
    let rec = Some("abc".to_string());
    assert!(matches!(checksum_action(&rec, "abc", false), ChecksumAction::Verified));
    assert!(matches!(checksum_action(&rec, "abc", true), ChecksumAction::Verified));
    assert!(matches!(checksum_action(&rec, "def", true), ChecksumAction::Update));
    assert!(matches!(checksum_action(&rec, "def", false), ChecksumAction::Mismatch));
    assert!(matches!(checksum_action(&None, "def", true), ChecksumAction::Record));
    assert!(matches!(checksum_action(&None, "def", false), ChecksumAction::Leave));
}

fn spec(files: &[&str]) -> OutputSpec {
    OutputSpec { files: files.iter().map(|s| s.to_string()).collect(), requires: vec![], suggests: vec![] }
}

#[test]
fn placements_skip_discard_and_empty_outputs() {
    let outputs = vec![
        ("bin".to_string(), spec(&["/usr/bin/a", "//init"])),
        ("discard".to_string(), spec(&["/usr/share/junk"])),
        ("doc".to_string(), spec(&[])),
        ("lib".to_string(), spec(&["usr/lib/l.so"])),
    ];
    let plan = output_placements(&outputs);
    assert_eq!(
        plan,
        vec![
            ("bin".to_string(), vec!["usr/bin/a".to_string(), "init".to_string()]),
            ("lib".to_string(), vec!["usr/lib/l.so".to_string()]),
        ]
    );
    let all = vec![
        "usr/bin/a".to_string(),
        "usr/share/junk".to_string(),
        "init".to_string(),
        "etc/x".to_string(),
    ];
    assert_eq!(unaccounted_files(&all, &plan), vec!["usr/share/junk".to_string(), "etc/x".to_string()]);
}

fn dep(commit: &str, name: &str) -> Dependency {
    Dependency { commit: commit.into(), name: Some(name.into()), manifest_ref: None }
}

fn entry(ns: &str, slug: &str, checksum: &str) -> ManifestEntry {
    ManifestEntry {
        namespace: ns.into(),
        slug: slug.into(),
        checksum: Some(checksum.into()),
        stable_checksum: None,
        blob_hash: None,
        dependencies: vec![],
        outputs: vec![],
        bundles: vec![],
        resolution: vec![],
    }
}

fn model() -> ManifestModel {
    let mut app = entry("apps", "app", "aaaaaaaaaaaaaaaa");
    app.dependencies = vec![
        dep("x86_64/pkg/libs/libc/1.0/outputs/lib", "glibc"),
        dep("x86_64/pkg/libs/libz/1/outputs/lib", "zlib"),
    ];
    app.outputs = vec![(
        "bin".to_string(),
        vec![FileNeeds {
            path: "/usr/bin/app".into(),
            needs: vec![
                "/usr/lib/libc.so.6".into(),
                "/usr/lib/libapp.so".into(),
                "/usr/lib/libx.so".into(),
                "/usr/lib/libz.so".into(),
            ],
        }],
    )];
    app.bundles = vec![("full".to_string(), vec!["bin".to_string()])];
    app.resolution = vec![
        ("/usr/lib/libc.so.6".to_string(), "glibc".to_string()),
        ("/usr/lib/libapp.so".to_string(), "@self".to_string()),
        ("/usr/lib/libz.so".to_string(), "zlib".to_string()),
    ];
    ManifestModel {
        manifests: vec![app, entry("libs", "libc", "cccccccccccccccc1"), entry("libs", "libz", "zzzzzzzzzzzzzzzz")],
        refs: vec!["cccccccccccccccc1/files".to_string()],
    }
}

#[test]
fn needs_come_from_the_resolution_map() {
    let m = model();
    let needs = needs_of(&m, "x86_64/pkg/apps/app/1.0/bundles/full");
    assert_eq!(needs.len(), 3);
    assert!(matches!(&needs[0].target, NeedTarget::Provider { commit, name } if commit == "cccccccccccccccc1/files" && name == "glibc"));
    assert!(matches!(&needs[1].target, NeedTarget::Unresolved { key, detail }
        if key == "/usr/lib/libx.so" && detail == "/usr/bin/app needs /usr/lib/libx.so (no resolution)"));
    assert!(matches!(&needs[2].target, NeedTarget::Unresolved { key, detail }
        if key == "libs/libz (run: nex compute-deps pkg/libs/libz.yaml)"
            && detail == "/usr/bin/app needs zlib - missing zzzzzzzzzzzz/files commit"));
    assert_eq!(needs_of(&m, "x86_64/pkg/apps/app/1.0/outputs/bin").len(), 3);
    assert!(needs_of(&m, "x86_64/pkg/apps/app/1.0/bundles/none").is_empty());
    assert!(needs_of(&m, "cccccccccccccccc1/files").is_empty());
}

#[test]
fn runtime_closure_follows_needs_transitively() {
    let m = model();
    let req = "x86_64/pkg/apps/app/1.0/bundles/full";
    let requests = vec![
        MaterializeRequest::Bundle { commit: req.to_string() },
        MaterializeRequest::Bundle { commit: req.to_string() },
    ];
    let c = resolve_runtime_deps_precomputed(&requests, &m);
    assert_eq!(c.roots, vec![(req.to_string(), format!("requested: {}", req))]);
    assert_eq!(c.commits, vec![req.to_string(), "cccccccccccccccc1/files".to_string()]);
    assert_eq!(
        c.file_deps,
        vec![(
            "cccccccccccccccc1/files".to_string(),
            "/usr/lib/libc.so.6".to_string(),
            "/usr/bin/app needs /usr/lib/libc.so.6 from glibc".to_string()
        )]
    );
    assert_eq!(c.unresolved.len(), 2);
    assert_eq!(c.unresolved[0].0, "/usr/lib/libx.so");
}

#[test]
fn metadata_lists_are_json_arrays_with_escapes() {
    let values = vec!["a\"b".to_string(), "c\\d\n\u{1}".to_string()];
    assert_eq!(
        encode_metadata_list(&values).ok().unwrap().unwrap(),
        "[\"a\\\"b\",\"c\\\\d\\n\\u0001\"]"
    );
    assert!(encode_metadata_list(&[]).ok().unwrap().is_none());
}
