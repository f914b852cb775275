use nex::builder::deps::resolve_dependency_closure_with_fetch;
use nex::builder::manifest::Dependency;
use nex::builder::materializer::MaterializeConfig;
use nex::builder::materializer::MaterializeMode;
use nex::builder::materializer::MaterializeRequest;
use nex::builder::materializer::materialize_bundle;
use nex::builder::materializer::materialize_outputs_flat;
use nex::builder::progress::format_bytes;
use nex::builder::runtime::ProviderIndex;
use nex::builder::runtime::RuntimeScanner;
use nex::builder::runtime::RuntimeScanResult;
use nex::builder::runtime::resolve_requirement;
use nex::builder::runtime::phase_priority;
use nex::builder::runtime::file_name;
use nex::builder::runtime::interpreter_is_env;
use nex::builder::utils::determine_category;
use std::collections::HashMap;
use std::collections::HashSet;

fn dep(commit: &str) -> Dependency {
    Dependency {
        commit: commit.into(),
        name: None,
        manifest_ref: None,
    }
}

#[test]
fn closure_resolution_collects_all_commits() {
    let deps = vec![dep("pkg/A"), dep("pkg/D")];
    let mut graph: HashMap<&str, Vec<&str>> = HashMap::new();
    graph.insert("pkg/A", vec!["pkg/B", "pkg/C"]);
    graph.insert("pkg/B", vec!["pkg/C"]);
    graph.insert("pkg/C", vec!["pkg/D"]);
    graph.insert("pkg/D", vec![]);

    let result = resolve_dependency_closure_with_fetch(&deps, |commit: &str| {
        Ok(graph
            .get(commit)
            .cloned()
            .unwrap_or_default()
            .iter()
            .map(|s| s.to_string())
            .collect())
    })
    .unwrap();
    let expected: HashSet<String> = ["pkg/A", "pkg/B", "pkg/C", "pkg/D"]
        .iter()
        .map(|s| s.to_string())
        .collect();
    let actual: HashSet<String> = result.into_iter().collect();
    assert_eq!(actual, expected);
}

#[test]
fn closure_resolution_errors_on_cycle() {
    let deps = vec![dep("pkg/A")];
    let mut graph: HashMap<&str, Vec<&str>> = HashMap::new();
    graph.insert("pkg/A", vec!["pkg/B"]);
    graph.insert("pkg/B", vec!["pkg/A"]);

    let err = resolve_dependency_closure_with_fetch(&deps, |commit: &str| {
        Ok(graph
            .get(commit)
            .cloned()
            .unwrap_or_default()
            .iter()
            .map(|s| s.to_string())
            .collect())
    })
    .expect_err("expected cycle to be detected");
    assert!(
        err.contains("pkg/A -> pkg/B -> pkg/A"),
        "unexpected error message: {}",
        err
    );
}

#[test]
fn closure_lists_dependencies_before_dependents() {
    let deps = vec![dep("pkg/A")];
    let result = resolve_dependency_closure_with_fetch(&deps, |commit: &str| {
        Ok(match commit {
            "pkg/A" => vec!["pkg/B".to_string(), "pkg/C".to_string()],
            "pkg/B" => vec!["pkg/C".to_string()],
            _ => vec![],
        })
    })
    .unwrap();
    assert_eq!(result, vec!["pkg/C", "pkg/B", "pkg/A"]);
}

#[test]
fn closure_passes_lookup_errors_through() {
    let deps = vec![dep("pkg/A")];
    let err = resolve_dependency_closure_with_fetch(&deps, |commit: &str| {
        if commit == "pkg/A" {
            Ok(vec!["pkg/missing".to_string()])
        } else {
            Err(format!("no such commit: {}", commit))
        }
    })
    .unwrap_err();
    assert_eq!(err, "no such commit: pkg/missing");
}

#[test]
fn closure_of_no_dependencies_is_empty() {
    let result = resolve_dependency_closure_with_fetch(&[], |_c: &str| Ok(vec![])).unwrap();
    assert!(result.is_empty());
}

#[test]
fn test_materialize_config_default() {
    let config = MaterializeConfig::default();
    // repo_path is detected from environment, not hardcoded
    assert!(!config.repo_path.is_empty());
    assert_eq!(config.mode, MaterializeMode::Flat);
    assert!(config.resolve_deps);
}

#[test]
fn test_materialize_request_commit() {
    let bundle = MaterializeRequest::Bundle {
        commit: "test/commit".to_string(),
    };
    assert_eq!(bundle.commit(), "test/commit");

    let output = MaterializeRequest::Output {
        commit: "test/output".to_string(),
    };
    assert_eq!(output.commit(), "test/output");

    let files = MaterializeRequest::Files {
        commit: "test/files".to_string(),
        paths: vec!["/bin/foo".to_string()],
    };
    assert_eq!(files.commit(), "test/files");
}

#[test]
fn materialize_needs_a_manifest_database() {
    let msg = "manifest_db_path is required for precomputed dependency resolution";
    assert_eq!(materialize_bundle("repo", "x/bundles/dev", "/mnt", MaterializeMode::Nex).err().unwrap(), msg);
    let commits = vec!["a/outputs/bin".to_string(), "a/outputs/lib".to_string()];
    assert_eq!(materialize_outputs_flat("repo", &commits, "/t").err().unwrap(), msg);
    let none = materialize_outputs_flat("repo", &[], "/t").ok().unwrap();
    assert!(none.requests.is_empty());
    assert!(!none.config.resolve_deps);
    assert_eq!(none.config.mode, MaterializeMode::Flat);
    assert_eq!(none.config.repo_path, "repo");
}

#[test]
fn format_bytes_works() {
    assert_eq!(format_bytes(500), "500 B");
    assert_eq!(format_bytes(1024), "1.0 KB");
    assert_eq!(format_bytes(1536), "1.5 KB");
    assert_eq!(format_bytes(1024 * 1024), "1.0 MB");
    assert_eq!(format_bytes(1024 * 1024 * 1024), "1.00 GB");
}

#[test]
fn format_bytes_matches_float_formatting() {
    let samples: [u64; 14] = [
        0,
        1023,
        1075,
        1126,
        1177,
        2047,
        1_048_575,
        5_347_737,
        1_073_741_823,
        1_073_741_824 + 5_368_709,
        123_456_789_012,
        (1u64 << 53) + 1,
        u64::MAX - 1000,
        u64::MAX,
    ];
    for &b in samples.iter() {
        let expected = if b < 1024 {
            format!("{} B", b)
        } else if b < 1024 * 1024 {
            format!("{:.1} KB", b as f64 / 1024.0)
        } else if b < 1024 * 1024 * 1024 {
            format!("{:.1} MB", b as f64 / (1024.0 * 1024.0))
        } else {
            format!("{:.2} GB", b as f64 / (1024.0 * 1024.0 * 1024.0))
        };
        assert_eq!(format_bytes(b), expected, "bytes = {}", b);
    }
}

#[test]
fn provider_index_resolves_full_and_basename_matches() {
    let mut index = ProviderIndex::default();
    index.add_entry(
        "x86_64/python/3.12/base/bundles/dev",
        "/usr/bin/python3".to_string(),
    );
    let basename_matches = resolve_requirement(&index, "python3");
    assert_eq!(basename_matches.len(), 1);
    assert_eq!(
        basename_matches[0].commit,
        "x86_64/python/3.12/base/bundles/dev"
    );
    assert_eq!(basename_matches[0].path, "/usr/bin/python3");

    let path_matches = resolve_requirement(&index, "/usr/bin/python3");
    assert_eq!(path_matches.len(), 1);
    assert_eq!(
        path_matches[0].commit,
        "x86_64/python/3.12/base/bundles/dev"
    );
}

#[test]
fn provider_resolution_prefers_latest_bootstrap_phase() {
    let mut index = ProviderIndex::default();
    index.add_entry("x/bootstrap/phase1/gcc/1/outputs/lib", "/usr/lib/libgcc_s.so.1".to_string());
    index.add_entry("x/bootstrap/phase3/gcc/1/outputs/lib", "/usr/lib/libgcc_s.so.1".to_string());
    index.add_entry("x/bootstrap/phase2/gcc/1/outputs/lib", "/usr/lib/libgcc_s.so.1".to_string());
    let m = resolve_requirement(&index, "  libgcc_s.so.1 ");
    assert_eq!(m.len(), 1);
    assert_eq!(m[0].commit, "x/bootstrap/phase3/gcc/1/outputs/lib");
    assert!(resolve_requirement(&index, "").is_empty());
    assert!(resolve_requirement(&index, "libmissing.so").is_empty());
    assert_eq!(phase_priority("x/bootstrap/phase2/a"), 2);
    assert_eq!(phase_priority("x/core/a"), 100);
}

#[test]
fn runtime_scanner_builder_sets_flags() {
    let deps: Vec<String> = Vec::new();
    let scanner = RuntimeScanner::new("/tmp/repo", &deps).with_allow_missing_files(true);
    assert!(scanner.allow_missing_files);
    assert_eq!(scanner.repo_path, "/tmp/repo");
    assert!(scanner.dependency_commits.is_empty());
}

#[test]
fn scan_result_reads_back_added_entries() {
    let mut result = RuntimeScanResult::default();
    assert!(result.is_empty());
    result.add_resolved("lib", "pkg/b", "r2".to_string());
    result.add_resolved("lib", "pkg/a", "r1".to_string());
    result.add_resolved("lib", "pkg/a", "r0".to_string());
    result.add_unresolved("bin", "libz.so".to_string(), "why".to_string());
    let lib = result.category_resolved("lib").unwrap();
    let keys: Vec<&str> = lib.iter().map(|(k, _)| k.as_str()).collect();
    assert_eq!(keys, vec!["pkg/a", "pkg/b"]);
    assert_eq!(lib[0].1, vec!["r0".to_string(), "r1".to_string()]);
    assert!(result.category_resolved("bin").is_none());
    assert_eq!(result.category_unresolved("bin").unwrap()[0].0, "libz.so");
    assert!(!result.is_empty());
}

#[test]
fn file_names_follow_path_rules() {
    assert_eq!(file_name("/usr/bin/python3").as_deref(), Some("python3"));
    assert_eq!(file_name("foo.txt/.").as_deref(), Some("foo.txt"));
    assert_eq!(file_name("a//b/").as_deref(), Some("b"));
    assert_eq!(file_name("/"), None);
    assert_eq!(file_name("foo/.."), None);
    assert_eq!(file_name(""), None);
    assert!(interpreter_is_env("/usr/bin/env"));
    assert!(!interpreter_is_env("/usr/bin/envy"));
}

#[test]
fn determine_category_handles_common_layouts() {
    assert_eq!(determine_category("/usr/lib/libfoo.so"), "lib");
    assert_eq!(determine_category("/usr/include/foo.h"), "dev");
    assert_eq!(determine_category("/etc/foo.conf"), "conf");
    assert_eq!(determine_category("/usr/share/doc/foo/readme"), "doc");
    assert_eq!(determine_category("/usr/bin/foo"), "bin");
}

#[test]
fn determine_category_covers_every_rule() {
    assert_eq!(determine_category("/usr/lib/libfoo.so.1.2"), "lib");
    assert_eq!(determine_category("/usr/lib/pkgconfig/foo.pc"), "dev");
    assert_eq!(determine_category("/usr/lib/libfoo.la"), "dev");
    assert_eq!(determine_category("/usr/lib/libfoo.a"), "static");
    assert_eq!(determine_category("/usr/share/man/man1/foo.1"), "man");
    assert_eq!(determine_category("/usr/share/info/foo.info"), "info");
    assert_eq!(determine_category("/usr/share/locale/de/foo.mo"), "locale");
    assert_eq!(determine_category("/usr/libexec/foo"), "bin");
    assert_eq!(determine_category("/usr/lib64/foo/data"), "lib");
    assert_eq!(determine_category("/opt/foo.conf"), "conf");
    assert_eq!(determine_category("/usr/share/foo/data"), "misc");
}
