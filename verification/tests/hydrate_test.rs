use nex::builder::listing::ref_package_prefix;
use nex::builder::manifest::Dependency;
use nex::builder::runtime::ProviderIndex;
use nex::builder::runtime::RuntimeScanResult;
use nex::builder::scan::record_elf_requirements;
use nex::builder::scan::ElfMetadata;
use nex::builder::update::hydrate_dependencies_text;
use nex::builder::update::hydrated_dependency;

#[test]
fn hydrated_dependency_is_named_after_its_package() {
    let d = hydrated_dependency("x86_64/zlib/1.3.1/sys/libs/bundles/dev");
    assert_eq!(d.commit, "x86_64/zlib/1.3.1/sys/libs/bundles/dev");
    assert_eq!(d.name.as_deref(), Some("zlib"));
    assert!(d.manifest_ref.is_none());
    let bare = hydrated_dependency("standalone");
    assert!(bare.name.is_none());
}

#[test]
fn hydration_replaces_only_the_dependencies_section() {
    let text = "package:\n  name: x\ndependencies:\n  - commit: old/a\n  - commit: old/b\nbuild:\n  script: y\n";
    let deps = vec![
        hydrated_dependency("x86_64/zlib/1/outputs/lib"),
        Dependency { commit: "c".to_string(), name: None, manifest_ref: None },
    ];
    let out = hydrate_dependencies_text(text, &deps).ok().unwrap();
    assert_eq!(
        out,
        "package:\n  name: x\ndependencies:\n  - name: zlib\n    commit: x86_64/zlib/1/outputs/lib\n  - commit: c\nbuild:\n  script: y\n"
    );
    let tail = "dependencies: []";
    assert_eq!(hydrate_dependencies_text(tail, &vec![]).ok().unwrap(), "dependencies:");
}

#[test]
fn hydration_needs_a_dependencies_section() {
    let err = hydrate_dependencies_text("package:\n  name: x\n", &vec![]).err().unwrap();
    assert_eq!(err, "No dependencies section found in manifest");
}

#[test]
fn package_prefix_cuts_before_outputs_or_bundles() {
    assert_eq!(ref_package_prefix("x86_64/pkg/core/zlib/1/outputs/lib"), "x86_64/pkg/core/zlib/1");
    assert_eq!(ref_package_prefix("x86_64/pkg/core/zlib/1/bundles/dev"), "x86_64/pkg/core/zlib/1");
    assert_eq!(ref_package_prefix("x86_64/plain"), "x86_64/plain");
}

#[test]
fn resolved_is_empty_until_a_provider_is_found() {
    let mut index = ProviderIndex::default();
    index.add_entry("x/core/zlib/1/outputs/lib", "/usr/lib/libz.so.1".to_string());
    let mut result = RuntimeScanResult::default();
    assert!(result.resolved_is_empty());
    let missing = ElfMetadata { needed: vec!["libnone.so".into()], interpreter: None };
    record_elf_requirements(&missing, "/usr/bin/f", &vec![], &index, &mut result, "bin");
    assert!(result.resolved_is_empty());
    let found = ElfMetadata { needed: vec!["libz.so.1".into()], interpreter: None };
    record_elf_requirements(&found, "/usr/bin/f", &vec![], &index, &mut result, "bin");
    assert!(!result.resolved_is_empty());
}
