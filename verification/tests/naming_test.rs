use nex::builder::manifest::Build;
use nex::builder::manifest::Bundle;
use nex::builder::manifest::BundleDef;
use nex::builder::manifest::Manifest;
use nex::builder::manifest::ManifestSource;
use nex::builder::manifest::OutputDef;
use nex::builder::manifest::OutputSpec;
use nex::builder::manifest::Package;
use nex::builder::manifest::SystemManifest;
use nex::builder::manifest::SystemMeta;
use nex::builder::manifest::SystemPackage;
use nex::builder::manifest::bundle_from_def;
use nex::builder::manifest::output_from_def;
use nex::builder::ostree::ObjectStore;
use nex::builder::ostree::ObjectType;
use nex::builder::ostree::RefLookup;
use nex::builder::ostree::bundle_branch_metadata;
use nex::builder::ostree::checksum_from_ref_content;
use nex::builder::ostree::commit_system_rootfs;
use nex::builder::ostree::encode_metadata_list;
use nex::builder::ostree::is_checksum;
use nex::builder::ostree::join_path;
use nex::builder::ostree::output_branch_metadata;
use nex::builder::ostree::parse_commit_ref;
use nex::builder::ostree::resolve_ref_or_checksum;
use nex::builder::repo::detect_manifest_dir;
use nex::builder::repo::detect_repo_path;
use nex::builder::repo::repo_not_found_message;
use nex::builder::repo::resolve_repo_path;
use nex::builder::system::build_system_env_vars;
use nex::builder::system::dependencies_from_system_packages;
use nex::builder::system::env_insert;

fn package(namespace: &str, checksum: Option<&str>) -> Package {
    Package {
        name: "foo".into(),
        slug: "foo".into(),
        version: "1.0".into(),
        namespace: namespace.into(),
        checksum: checksum.map(|s| s.to_string()),
        stable_checksum: None,
        bootstrap: false,
    }
}

fn manifest(checksum: Option<&str>) -> Manifest {
    Manifest {
        package: package("core/base", checksum),
        dependencies: vec![],
        sources: vec![],
        build: Build { script: "make".into() },
        outputs: vec![],
        bundles: vec![],
    }
}

#[test]
fn namespace_path_roots_under_pkg() {
    assert_eq!(package("core/base", None).namespace_path(), "pkg/core/base");
    assert_eq!(package("pkg/core/base", None).namespace_path(), "pkg/core/base");
}

#[test]
fn manifest_source_path_and_emptiness() {
    let p = ManifestSource::Path("pkg/a.yaml".into());
    assert_eq!(p.path(), "pkg/a.yaml");
    assert!(!p.is_empty());
    let b = ManifestSource::Blob { sha: "abc".into(), path: String::new() };
    assert!(b.is_empty());
}

#[test]
fn simple_definitions_become_full_specs() {
    let b: Bundle = bundle_from_def(BundleDef::Simple(vec!["bin".into(), "lib".into()]));
    assert_eq!(b.includes, vec!["bin".to_string(), "lib".to_string()]);
    assert!(b.requires.is_empty() && b.suggests.is_empty());
    let o: OutputSpec = output_from_def(OutputDef::Simple(vec!["/usr/bin/foo".into()]));
    assert_eq!(o.files, vec!["/usr/bin/foo".to_string()]);
    assert!(o.requires.is_empty());
}

#[test]
fn commit_refs_split_into_slug_version_namespace() {
    let r = parse_commit_ref("x86_64/core/base/glibc/2.40/outputs/lib").unwrap();
    assert_eq!(r, ("glibc".to_string(), "2.40".to_string(), "core/base".to_string()));
    let r = parse_commit_ref("x86_64/foo/1.0/bundles/dev").unwrap();
    assert_eq!(r, ("foo".to_string(), "1.0".to_string(), "".to_string()));
    let r = parse_commit_ref("x86_64/a/b/c/d").unwrap();
    assert_eq!(r, ("c".to_string(), "d".to_string(), "a/b".to_string()));
    assert!(parse_commit_ref("x86_64/foo/1.0").is_none());
    assert!(parse_commit_ref("x86_64/outputs/a/b").is_none());
}

#[test]
fn checksums_are_sixty_four_hex_digits() {
    let c = "a".repeat(63) + "F";
    assert!(is_checksum(&c));
    assert!(!is_checksum(&"a".repeat(63)));
    assert!(!is_checksum(&("g".to_string() + &"a".repeat(63))));
    match resolve_ref_or_checksum(&c) {
        RefLookup::Checksum(s) => assert_eq!(s, c),
        RefLookup::Ref(_) => panic!("checksum taken for a ref"),
    }
    match resolve_ref_or_checksum("pkg/foo/outputs/bin") {
        RefLookup::Ref(s) => assert_eq!(s, "pkg/foo/outputs/bin"),
        RefLookup::Checksum(_) => panic!("ref taken for a checksum"),
    }
    assert_eq!(checksum_from_ref_content(" abc\n"), "abc");
}

#[test]
fn object_paths_split_the_checksum() {
    let store = ObjectStore::new("repo/objects".into());
    let c = "ab".to_string() + &"0".repeat(62);
    assert_eq!(
        store.object_path(&c, ObjectType::DirTree),
        format!("repo/objects/ab/{}.dirtree", "0".repeat(62))
    );
    assert_eq!(ObjectType::Commit.extension(), "commit");
    assert_eq!(ObjectType::File.extension(), "file");
    assert_eq!(ObjectType::DirMeta.extension(), "dirmeta");
    assert_eq!(join_path("a/", "b"), "a/b");
    assert_eq!(join_path("a", "/b"), "/b");
    assert_eq!(join_path("", "b"), "b");
}

#[test]
fn branch_metadata_lists_hash_checksum_and_lists() {
    let m = manifest(Some("sha256:xyz"));
    let spec = OutputSpec {
        files: vec![],
        requires: vec!["a".into(), "b".into()],
        suggests: vec![],
    };
    let md = output_branch_metadata(&m, &spec, "h1").unwrap();
    assert_eq!(
        md,
        vec![
            ("nex.manifest.hash".to_string(), "h1".to_string()),
            ("nex.build.checksum".to_string(), "sha256:xyz".to_string()),
            ("nex.output.requires".to_string(), "[\"a\",\"b\"]".to_string()),
        ]
    );
    let bundle = Bundle { includes: vec![], requires: vec![], suggests: vec!["s".into()] };
    let md = bundle_branch_metadata(&manifest(None), &bundle, "h2").unwrap();
    assert_eq!(
        md,
        vec![
            ("nex.manifest.hash".to_string(), "h2".to_string()),
            ("nex.bundle.suggests".to_string(), "[\"s\"]".to_string()),
        ]
    );
    assert_eq!(encode_metadata_list(&[]).unwrap(), None);
}

fn system(arch: Option<&str>) -> SystemManifest {
    SystemManifest {
        schema: None,
        system: SystemMeta {
            name: "Demo".into(),
            slug: "demo".into(),
            version: "1.0".into(),
            architecture: arch.map(|s| s.to_string()),
            boot_method: None,
            description: Some("d".into()),
            checksum: None,
            stable_checksum: None,
        },
        packages: vec![SystemPackage { commit: "c1".into(), name: Some("n1".into()) }],
        dependencies: vec![],
        sources: vec![],
        build: Build { script: String::new() },
    }
}

#[test]
fn system_environment_and_commit_plan() {
    let inputs = vec![("SOURCE0".to_string(), "./inputs/a".to_string()), ("SYSTEM_NAME".to_string(), "old".to_string())];
    let env = build_system_env_vars(&system(Some("x86_64")), inputs);
    let get = |k: &str| env.iter().find(|(a, _)| a == k).map(|(_, v)| v.clone());
    assert_eq!(get("SYSTEM_NAME").as_deref(), Some("Demo"));
    assert_eq!(get("SOURCE0").as_deref(), Some("./inputs/a"));
    assert_eq!(get("TARGET_DIR").as_deref(), Some("/target"));
    assert_eq!(get("SYSTEM_ARCH").as_deref(), Some("x86_64"));
    assert_eq!(get("SYSTEM_BOOT_METHOD"), None);
    assert_eq!(env.iter().filter(|(k, _)| k == "SYSTEM_NAME").count(), 1);

    let (branch, md) = commit_system_rootfs(&system(None), &vec!["p".into()], &vec![], "ck").unwrap();
    assert_eq!(branch, "systems/demo/1.0");
    assert_eq!(md[0], ("nex.system.name".to_string(), "Demo".to_string()));
    assert_eq!(md[3], ("nex.build.checksum".to_string(), "ck".to_string()));
    assert_eq!(md[4], ("nex.system.description".to_string(), "d".to_string()));
    assert_eq!(md[5], ("nex.system.packages".to_string(), "[\"p\"]".to_string()));
    assert_eq!(md.len(), 6);

    let deps = dependencies_from_system_packages(&system(None).packages);
    assert_eq!(deps.len(), 1);
    assert_eq!(deps[0].commit, "c1");
    assert_eq!(deps[0].name.as_deref(), Some("n1"));
    assert!(deps[0].manifest_ref.is_none());

    let mut env = vec![];
    env_insert(&mut env, "A", "1");
    env_insert(&mut env, "A", "2");
    assert_eq!(env, vec![("A".to_string(), "2".to_string())]);
}

#[test]
fn repository_detection_prefers_local() {
    assert_eq!(detect_repo_path(true, true), ".nex/repo");
    assert_eq!(detect_repo_path(false, true), "/nex/repo");
    assert_eq!(detect_repo_path(false, false), ".nex/repo");
    assert_eq!(detect_manifest_dir(true, true).as_deref(), Some("/nex/db/pkg"));
    assert_eq!(detect_manifest_dir(false, true).as_deref(), Some("pkg"));
    assert_eq!(detect_manifest_dir(false, false), None);
    assert_eq!(resolve_repo_path(Some("r"), true, false, true).ok().unwrap(), "r");
    assert_eq!(
        resolve_repo_path(Some("r"), false, true, true).err().unwrap(),
        "OSTree repository not found: r. Use --repo to specify the correct path."
    );
    assert_eq!(resolve_repo_path(None, false, false, true).ok().unwrap(), "/nex/repo");
    assert_eq!(resolve_repo_path(None, false, true, true).ok().unwrap(), ".nex/repo");
    assert_eq!(
        resolve_repo_path(None, true, false, false).err().unwrap(),
        "OSTree repository not found: .nex/repo. Use --repo to specify the correct path."
    );
    assert_eq!(
        repo_not_found_message("x"),
        "OSTree repository not found: x. Use --repo to specify the correct path."
    );
}
