use nex::builder::manifest::detect_manifest_kind;
use nex::builder::manifest::ManifestKind;

const SYSTEM_YAML: &str = r#"
schema: 1
kind: system
system:
  name: Demo
  slug: demo
  version: "1.0"
packages:
  - commit: x86_64/foo/1.0/base/bundles/dev
build:
  script: ":"
sources: []
dependencies: []
"#;

fn kind_of(yaml: &str) -> ManifestKind {
    let value: serde_yaml::Value = serde_yaml::from_str(yaml).unwrap();
    detect_manifest_kind(value.get("kind").and_then(|k| k.as_str()), value.get("system").is_some())
}

#[test]
fn detects_system_manifest_kind() {
    assert!(matches!(kind_of(SYSTEM_YAML), ManifestKind::System));
    let value: serde_yaml::Value = serde_yaml::from_str(SYSTEM_YAML).unwrap();
    assert_eq!(value["system"]["slug"].as_str(), Some("demo"));
    assert_eq!(value["system"]["version"].as_str(), Some("1.0"));
}

#[test]
fn manifest_kind_follows_kind_key_then_system_section() {
    assert!(matches!(detect_manifest_kind(Some("package"), true), ManifestKind::Package));
    assert!(matches!(detect_manifest_kind(Some("system"), false), ManifestKind::System));
    assert!(matches!(detect_manifest_kind(Some("other"), true), ManifestKind::System));
    assert!(matches!(detect_manifest_kind(None, false), ManifestKind::Package));
    assert!(matches!(kind_of("package:\n  name: x\n"), ManifestKind::Package));
}
