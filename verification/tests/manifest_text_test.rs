use nex::builder::inputs::content_sha256;
use nex::builder::inputs::input_env_vars;
use nex::builder::inputs::input_link_name;
use nex::builder::inputs::url_file_name;
use nex::builder::inputs::verify_input_hash;
use nex::builder::inputs::InputOrigin;
use nex::builder::manifest::Build;
use nex::builder::manifest::Bundle;
use nex::builder::manifest::Manifest;
use nex::builder::manifest::ManifestKind;
use nex::builder::manifest::OutputSpec;
use nex::builder::manifest::Package;
use nex::builder::manifest::Source;
use nex::builder::ostree::manifest_content_hash;
use nex::builder::ostree::manifest_refs;
use nex::builder::update::update_checksum_text;

#[test]
fn checksum_line_is_replaced_with_its_quotes() {
    let text = "package:\n  name: x\n  checksum: \"old\"\nbuild:\n  script: y\n";
    assert_eq!(
        update_checksum_text(text, ManifestKind::Package, "new").ok().unwrap(),
        "package:\n  name: x\n  checksum: \"new\"\nbuild:\n  script: y\n"
    );
    let single = "package:\n    checksum: 'a'\n";
    assert_eq!(
        update_checksum_text(single, ManifestKind::Package, "b").ok().unwrap(),
        "package:\n    checksum: 'b'\n"
    );
}

#[test]
fn checksum_line_is_added_after_the_section() {
    let text = "package:\n  name: x\n\nbuild: {}\n";
    assert_eq!(
        update_checksum_text(text, ManifestKind::Package, "new").ok().unwrap(),
        "package:\n  name: x\n\n  checksum: new\nbuild: {}\n"
    );
    let other = "build:\n  checksum: zzz\nsystem:\n\tslug: s";
    assert_eq!(
        update_checksum_text(other, ManifestKind::System, "n").ok().unwrap(),
        "build:\n  checksum: zzz\nsystem:\n\tslug: s\n\tchecksum: n"
    );
    let bare = "package:\nbuild: {}\n";
    assert_eq!(
        update_checksum_text(bare, ManifestKind::Package, "c").ok().unwrap(),
        "package:\n  checksum: c\nbuild: {}\n"
    );
}

#[test]
fn missing_section_is_an_error() {
    assert_eq!(
        update_checksum_text("build: {}\n", ManifestKind::Package, "c").err().unwrap(),
        "Manifest missing package section"
    );
    assert_eq!(
        update_checksum_text("package:\n", ManifestKind::System, "c").err().unwrap(),
        "Manifest missing system section"
    );
}

fn manifest() -> Manifest {
    Manifest {
        package: Package {
            name: "zlib".into(),
            slug: "zlib".into(),
            version: "1.3".into(),
            namespace: "core".into(),
            checksum: None,
            stable_checksum: None,
            bootstrap: false,
        },
        dependencies: vec![],
        sources: vec![],
        build: Build { script: "make".into() },
        outputs: vec![(
            "lib".into(),
            OutputSpec { files: vec![], requires: vec![], suggests: vec![] },
        )],
        bundles: vec![("runtime".into(), Bundle { includes: vec![], requires: vec![], suggests: vec![] })],
    }
}

#[test]
fn completion_offers_output_bundle_and_files_refs() {
    assert_eq!(
        manifest_refs(&manifest(), "core"),
        vec![
            "x86_64/pkg/core/zlib/1.3/outputs/lib".to_string(),
            "x86_64/pkg/core/zlib/1.3/bundles/runtime".to_string(),
            "x86_64/pkg/core/zlib/1.3/files".to_string(),
        ]
    );
}

#[test]
fn hashes_are_sha256_hex() {
    assert_eq!(
        manifest_content_hash("abc"),
        "ba7816bf8f01cfea414140de5dae2223b00361a396177a9cb410ff61f20015ad"
    );
    assert_eq!(
        content_sha256(b""),
        "e3b0c44298fc1c149afbf4c8996fb92427ae41e4649b934ca495991b7852b855"
    );
    assert!(verify_input_hash(
        b"abc",
        "ba7816bf8f01cfea414140de5dae2223b00361a396177a9cb410ff61f20015ad",
        InputOrigin::Local
    )
    .is_ok());
    assert_eq!(
        verify_input_hash(b"", "00", InputOrigin::Downloaded).err().unwrap(),
        "SHA256 hash mismatch for downloaded input: e3b0c44298fc1c149afbf4c8996fb92427ae41e4649b934ca495991b7852b855"
    );
}

#[test]
fn input_names_and_variables() {
    assert_eq!(input_link_name("ab"), "sha256-ab");
    assert_eq!(url_file_name("https://x.org/dl/zlib-1.3.tar.gz?raw=1"), "zlib-1.3.tar.gz");
    assert_eq!(url_file_name("plain"), "plain");
    let sources = vec![
        Source { name: "zlib".into(), url: None, file: Some("z.tar".into()), sha256: "h".into() },
        Source { name: "patch".into(), url: None, file: Some("p.diff".into()), sha256: "h".into() },
    ];
    let files = vec!["z.tar".to_string(), "p.diff".to_string()];
    let vars = input_env_vars(&sources, &files, "./build", "/home/u", false);
    let get = |k: &str| vars.iter().find(|(key, _)| key == k).map(|(_, v)| v.clone());
    assert_eq!(get("SOURCE0"), Some("./inputs/z.tar".to_string()));
    assert_eq!(get("SOURCE_patch"), Some("./inputs/p.diff".to_string()));
    let boot = input_env_vars(&sources, &files, "./build", "/home/u", true);
    let getb = |k: &str| boot.iter().find(|(key, _)| key == k).map(|(_, v)| v.clone());
    assert_eq!(getb("SOURCE1"), Some("/home/u/./build/inputs/p.diff".to_string()));
}
