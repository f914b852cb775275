use nex::builder::manifest::Build;
use nex::builder::manifest::Manifest;
use nex::builder::manifest::OutputSpec;
use nex::builder::manifest::Package;
use nex::builder::runtime::RuntimeScanResult;
use nex::builder::update::apply_runtime_requires;
use nex::builder::update::locate_outputs_block;

#[test]
fn outputs_block_spans_to_next_top_level_key() {
    let text = "package:\n  name: foo\noutputs:\n  bin:\n    - /usr/bin/foo\n\nbundles:\n  dev: []\n";
    let (a, b) = locate_outputs_block(text).unwrap();
    assert_eq!(&text[a..b], "outputs:\n  bin:\n    - /usr/bin/foo\n\n");
}

#[test]
fn outputs_block_runs_to_end_and_uses_byte_offsets() {
    let text = "name: é\noutputs:   \n  lib: []";
    let (a, b) = locate_outputs_block(text).unwrap();
    assert_eq!(a, "name: é\n".len());
    assert_eq!(b, text.len());
    assert!(locate_outputs_block("  outputs:\nfoo: 1\n").is_err());
    assert_eq!(
        locate_outputs_block("").unwrap_err(),
        "Unable to locate outputs section"
    );
}

#[test]
fn runtime_requires_replace_output_requires() {
    let mut m = Manifest {
        package: Package {
            name: "f".into(),
            slug: "f".into(),
            version: "1".into(),
            namespace: "x".into(),
            checksum: None,
            stable_checksum: None,
            bootstrap: false,
        },
        dependencies: vec![],
        sources: vec![],
        build: Build { script: String::new() },
        outputs: vec![
            (
                "bin".into(),
                OutputSpec { files: vec!["/usr/bin/f".into()], requires: vec!["old".into()], suggests: vec![] },
            ),
            (
                "doc".into(),
                OutputSpec { files: vec![], requires: vec!["old".into()], suggests: vec!["s".into()] },
            ),
        ],
        bundles: vec![],
    };
    let mut scan = RuntimeScanResult::default();
    scan.add_resolved("bin", "pkg/z", "r".into());
    scan.add_resolved("bin", "pkg/a", "r".into());
    apply_runtime_requires(&mut m, &scan);
    assert_eq!(m.outputs[0].1.requires, vec!["pkg/a".to_string(), "pkg/z".to_string()]);
    assert_eq!(m.outputs[0].1.files, vec!["/usr/bin/f".to_string()]);
    assert!(m.outputs[1].1.requires.is_empty());
    assert_eq!(m.outputs[1].1.suggests, vec!["s".to_string()]);
}
