use nex::builder::query::extract_provider_key;
use nex::builder::query::find_package_ref;
use nex::builder::query::find_version;
use nex::builder::query::is_library_path;
use nex::builder::query::parse_deployments;
use nex::builder::query::parse_package_query;
use nex::builder::query::parse_package_ref;
use nex::builder::query::parse_version_key;

fn v(items: &[&str]) -> Vec<String> {
    items.iter().map(|s| s.to_string()).collect()
}

#[test]
fn provider_keys_and_library_paths() {
    assert_eq!(
        extract_provider_key("x86_64/pkg/libs/system/glibc/2.39/outputs/lib"),
        "libs/system/glibc/2.39"
    );
    assert_eq!(extract_provider_key("x86_64/pkg/outputs/lib"), "x86_64/pkg/outputs/lib");
    assert_eq!(extract_provider_key("plain"), "plain");
    assert!(is_library_path("/usr/lib/x"));
    assert!(is_library_path("libz.so.1"));
    assert!(!is_library_path("/usr/bin/z"));
}

#[test]
fn deployments_are_read_from_status() {
    let status = "* nex abc.0\n    origin: x\n  nex def.1(staged)\nother\n";
    assert_eq!(parse_deployments(status), v(&["abc.0", "def.1"]));
}

#[test]
fn versions_and_packages_are_found() {
    assert_eq!(parse_version_key("5.2/abc").unwrap(), ("5.2".to_string(), "abc".to_string()));
    assert_eq!(parse_version_key("5.2").unwrap_err(), "Invalid version key: 5.2");
    let keys = v(&["5.2.21/a1", "5.3/b2"]);
    assert_eq!(find_version("5.3/b2", &keys).unwrap(), "5.3/b2");
    assert_eq!(find_version("5.2", &keys).unwrap(), "5.2.21/a1");
    assert_eq!(find_version("5", &keys).unwrap_err(), "Ambiguous version '5'. Matches: 5.2.21/a1, 5.3/b2");
    assert_eq!(find_version("6", &keys).unwrap_err(), "Version '6' not found. Available: 5.2.21/a1, 5.3/b2");

    let pkgs = v(&["cli/shells/bash", "cli/shells/zsh", "core/bash"]);
    assert_eq!(parse_package_query("shells/bash", &pkgs).unwrap(), ("shells".to_string(), "bash".to_string()));
    assert_eq!(parse_package_query("zsh", &pkgs).unwrap(), ("cli/shells".to_string(), "zsh".to_string()));
    assert_eq!(
        parse_package_query("bash", &pkgs).unwrap_err(),
        "Ambiguous package 'bash'. Matches: cli/shells/bash, core/bash"
    );
    assert_eq!(parse_package_query("fish", &pkgs).unwrap_err(), "No installed package matching 'fish'");
}

#[test]
fn package_refs_prefer_full_bundles() {
    let refs = v(&[
        "x86_64/pkg/cli/shells/bash/5.2/outputs/bin",
        "x86_64/pkg/cli/shells/bash/5.2/bundles/dev",
        "x86_64/pkg/cli/shells/bash/5.2/bundles/full",
        "x86_64/pkg/cli/shells/bash/5.1/bundles/full",
    ]);
    assert_eq!(find_package_ref(&refs, "bash", None).unwrap(), refs[2]);
    assert_eq!(find_package_ref(&refs, "bash", Some("5.1")).unwrap(), refs[3]);
    assert_eq!(find_package_ref(&refs, "shells/bash", None).unwrap(), refs[2]);
    assert_eq!(
        find_package_ref(&refs, "zsh", None).unwrap_err(),
        "No package found for 'zsh'. Build it first."
    );
    assert_eq!(
        parse_package_ref("x86_64/pkg/cli/shells/bash/5.2/bundles/full").unwrap(),
        ("cli/shells".to_string(), "bash".to_string(), "5.2".to_string())
    );
    assert_eq!(parse_package_ref("a/b/c").unwrap_err(), "Invalid package ref");
    assert_eq!(parse_package_ref("a/b/outputs/x").unwrap_err(), "Invalid package ref format");
}
