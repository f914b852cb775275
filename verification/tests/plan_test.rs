use nex::builder::manifest::Dependency;
use nex::builder::resolution::build_provider_lookup;
use nex::builder::resolution::dependency_names;
use nex::builder::resolution::files_commit_metadata;
use nex::builder::resolution::files_ref;
use nex::builder::resolution::output_name;
use nex::builder::resolution::provider_locations;
use nex::builder::resolution::resolve_needs;
use nex::builder::resolution::scan_elf_for_deps;
use nex::builder::resolution::stable_address;
use nex::builder::schedule::package_build_dir;
use nex::builder::schedule::plan_waves;
use nex::builder::schedule::system_build_dir;
use nex::builder::schedule::wave_name;
use nex::builder::schedule::WaveScheduler;
use nex::builder::script_env::absolute_build_dir;
use nex::builder::script_env::build_script_env;
use nex::luks2::json::metadata_text;
use nex::luks2::json::JsonError;
use nex::luks2::reader::read_layout;
use nex::luks2::reader::DecryptingReader;
use nex::luks2::unlock::metadata_read_plan;
use nex::luks2::unlock::Luks2Error;

fn get<'a>(env: &'a [(String, String)], k: &str) -> Option<&'a str> {
    env.iter().find(|(key, _)| key == k).map(|(_, v)| v.as_str())
}

#[test]
fn bootstrap_build_env_points_into_build_dir() {
    let vars = vec![("SOURCE0".to_string(), "./inputs/a.tar".to_string()), ("TZ".to_string(), "X".to_string())];
    let env = build_script_env(true, 8, "/b/", &vars);
    assert_eq!(get(&env, "MAKEFLAGS"), Some("-j8"));
    assert_eq!(get(&env, "PATH"), Some("/b/bootstrap/tools/bin:/usr/bin"));
    assert_eq!(get(&env, "WORK_DIR"), Some("/b/2nex/work"));
    assert_eq!(get(&env, "BOOTSTRAP_SYSROOT"), Some("/b/bootstrap"));
    assert_eq!(get(&env, "TARGET"), Some("x86_64-2nex-linux-gnu"));
    assert_eq!(get(&env, "TZ"), Some("X"));
    assert_eq!(get(&env, "SOURCE0"), Some("./inputs/a.tar"));
    assert_eq!(get(&env, "RUSTFLAGS"), None);
}

#[test]
fn system_build_env_is_fixed() {
    let env = build_script_env(false, 12, "/b", &vec![]);
    assert_eq!(get(&env, "MAKEFLAGS"), Some("-j12"));
    assert_eq!(get(&env, "PATH"), Some("/usr/sbin:/usr/bin:/sbin:/bin"));
    assert_eq!(get(&env, "OUT_DIR"), Some("/2nex/out"));
    assert_eq!(get(&env, "SOURCE_DATE_EPOCH"), Some("1704067200"));
    assert_eq!(env.len(), 20);
    assert_eq!(absolute_build_dir("build", "/home/u"), "/home/u/build");
    assert_eq!(absolute_build_dir("/abs", "/home/u"), "/abs");
}

#[test]
fn waves_follow_dependencies() {
    // 0 <- 1 <- 2, 0 <- 3; node 4 is a marker of a built package
    let incoming = vec![vec![], vec![0], vec![1, 4], vec![0], vec![]];
    let wanted = vec![true, true, true, true, false];
    let (waves, stuck) = plan_waves(&vec![0, 1, 3, 2], &incoming, &wanted);
    assert!(!stuck);
    assert_eq!(waves, vec![vec![0], vec![1, 3], vec![2]]);
    let cyclic = vec![vec![1], vec![0]];
    let (w2, stuck2) = plan_waves(&vec![0, 1], &cyclic, &vec![true, true]);
    assert!(w2.is_empty());
    assert!(stuck2);
}

#[test]
fn scheduler_builds_bootstrap_packages_alone() {
    let incoming = vec![vec![], vec![], vec![0, 1]];
    let mut s = WaveScheduler::new(vec![0, 1, 2], incoming, vec![true; 3], vec![false, true, false]);
    let w = s.next_wave().ok().unwrap();
    assert_eq!(w, vec![1]);
    s.finish_wave(&w);
    let w = s.next_wave().ok().unwrap();
    assert_eq!(w, vec![0]);
    s.finish_wave(&w);
    assert_eq!(s.next_wave().ok().unwrap(), vec![2]);
    s.finish_wave(&vec![2]);
    assert!(s.is_finished());
    let stuck = WaveScheduler::new(vec![0], vec![vec![0]], vec![true], vec![false]);
    assert_eq!(
        stuck.next_wave().err().unwrap(),
        "Cannot make progress: all remaining packages have unmet dependencies"
    );
}

#[test]
fn build_dirs_and_wave_names() {
    assert_eq!(package_build_dir(true, "a/b", "c"), "./build_rootfs");
    assert_eq!(package_build_dir(false, "a/b", "x/y"), "./build_rootfs_a_b_x_y");
    assert_eq!(system_build_dir("s/t"), "./build_rootfs_s_t_system");
    assert_eq!(wave_name("pkg/core/zlib.yaml"), "zlib");
    assert_eq!(wave_name("x.yaml.yaml"), "x");
    assert_eq!(wave_name(""), "unknown");
}

#[test]
fn read_layout_covers_the_request() {
    let l = read_layout(512, 100, 16384, 4096, 5000, 100);
    assert_eq!(l.physical_start, 21384);
    assert_eq!(l.aligned_start, 20480);
    assert_eq!(l.sector_read_size, 4096);
    assert_eq!(l.disk_start_block, 140);
    assert_eq!(l.disk_read_size, 4096);
    assert_eq!(l.sector_offset_in_disk, 0);
    let l2 = read_layout(4096, 0, 0, 512, 1000, 3500);
    assert_eq!(l2.aligned_start, 512);
    assert_eq!(l2.sector_read_size, 4096);
    assert_eq!(l2.disk_start_block, 0);
    assert_eq!(l2.sector_offset_in_disk, 512);
    assert_eq!(l2.disk_read_size, 8192);
    assert!(matches!(DecryptingReader::new(512, 0, &[0u8; 32], 0, 512, 0), Err(Luks2Error::InvalidKeySize)));
}

#[test]
fn metadata_reads_are_planned_in_blocks() {
    let p = metadata_read_plan(512, 4096, 12288);
    assert_eq!(p.header_read_len, 4096);
    assert_eq!(p.json_read_size, 12288);
    assert_eq!(p.json_start_block, 8);
    assert_eq!(p.json_read_len, 12288);
    let big = metadata_read_plan(4096, 4096, 1 << 20);
    assert_eq!(big.json_read_size, 65536);
    assert_eq!(metadata_text(b"{\"a\":1}\0\0garbage").ok().unwrap(), "{\"a\":1}");
    assert!(matches!(metadata_text(&[0xff, 0xfe]), Err(JsonError::InvalidUtf8)));
}

fn dep(commit: &str, name: Option<&str>) -> Dependency {
    Dependency { commit: commit.to_string(), name: name.map(|n| n.to_string()), manifest_ref: None }
}

#[test]
fn dependency_names_must_be_present_and_unique() {
    let ok = dependency_names(&vec![
        dep("x86_64/pkg/core/zlib/1/outputs/lib", Some("zlib")),
        dep("x86_64/pkg/core/zlib/1/outputs/dev", Some("zlib")),
    ])
    .ok()
    .unwrap();
    assert_eq!(ok, vec![("core/zlib/1".to_string(), "zlib".to_string())]);
    let missing = dependency_names(&vec![dep("a", Some("a")), dep("x86_64/pkg/b/1/outputs/lib", None)]);
    assert_eq!(
        missing.err().unwrap(),
        "Dependency x86_64/pkg/b/1/outputs/lib has no name field. All dependencies must have unique names."
    );
    let clash = dependency_names(&vec![
        dep("x86_64/pkg/a/1/outputs/lib", Some("n")),
        dep("x86_64/pkg/b/2/outputs/lib", Some("n")),
    ]);
    assert_eq!(
        clash.err().unwrap(),
        "Dependency name conflicts (same name used for different packages):\n  'n' maps to:\n    - a/1\n    - b/2\n"
    );
}

#[test]
fn lookup_prefers_last_dependency_and_own_outputs() {
    let deps = vec!["x86_64/pkg/a/1/outputs/lib".to_string(), "x86_64/pkg/b/1/outputs/lib".to_string()];
    let listings = vec![
        Some(vec!["usr/lib/libx.so.1".to_string(), "usr/lib/".to_string(), "usr/bin/tool".to_string()]),
        Some(vec!["/usr/lib/libx.so.1".to_string(), "/usr/lib/liby.so".to_string()]),
    ];
    let fcs = vec![("a/1".to_string(), "ha/files".to_string())];
    let own = vec![Some(vec!["/usr/lib/liby.so".to_string()]), None];
    let lookup = build_provider_lookup(&deps, &listings, &fcs, &own, "self/1", "hs/files");
    let x = lookup.get("libx.so.1").unwrap();
    assert_eq!(x.provider_key, "b/1");
    assert_eq!(x.files_commit, "x86_64/pkg/b/1/outputs/lib");
    let y = lookup.get("liby.so").unwrap();
    assert_eq!(y.provider_key, "self/1");
    assert_eq!(y.files_commit, "hs/files");
    assert!(lookup.get("tool").is_none());
    let names = vec![("b/1".to_string(), "bee".to_string())];
    let mut resolution: Vec<(String, String)> = Vec::new();
    let needs = resolve_needs(
        &vec!["libx.so.1".to_string(), "libnone.so".to_string(), "liby.so".to_string()],
        &lookup,
        "self/1",
        &names,
        &mut resolution,
    );
    assert_eq!(needs, vec!["/usr/lib/libx.so.1".to_string(), "/usr/lib/liby.so".to_string()]);
    assert_eq!(
        resolution,
        vec![
            ("/usr/lib/libx.so.1".to_string(), "bee".to_string()),
            ("/usr/lib/liby.so".to_string(), "@self".to_string()),
        ]
    );
}

#[test]
fn compute_deps_helpers() {
    assert_eq!(output_name("x86_64/pkg/a/1/outputs/bin"), "bin");
    assert_eq!(stable_address(&Some("h".to_string()), None), Some("h".to_string()));
    assert_eq!(stable_address(&Some("h".to_string()), Some(false)), None);
    assert_eq!(stable_address(&None, Some(true)), None);
    assert_eq!(files_ref("abc"), "abc/files");
    let meta = files_commit_metadata("abc", "core", "zlib", "1.3", 3);
    assert_eq!(meta[1], ("nex.package".to_string(), "core/zlib/1.3".to_string()));
    assert_eq!(meta[2], ("nex.output_count".to_string(), "3".to_string()));
    assert_eq!(
        provider_locations("libs/system/glibc/2.39"),
        Some((
            "pkg/libs/system/glibc.yaml".to_string(),
            "x86_64/pkg/libs/system/glibc/2.39/outputs/".to_string()
        ))
    );
    assert_eq!(provider_locations("single"), None);
    assert!(scan_elf_for_deps(b"#!/bin/sh\n").is_empty());
}
