//! The environment that a package's build script runs in.
//!
//! Builds are made reproducible by a fixed environment: a deterministic
//! home, locale, time zone and epoch, and compiler flags that depend only
//! on whether the package belongs to the bootstrap.
use vstd::prelude::*;
use crate::builder::system::env_map;
use crate::builder::system::distinct_keys;
use crate::builder::system::env_insert;
use crate::builder::ostree::path_join;
use crate::builder::ostree::join_path;
use crate::builder::progress::decimal;
use crate::builder::progress::push_decimal;
use crate::text::to_owned_string;
use crate::text::push_str;

verus! {

/// What a run of the build script recorded.
pub struct BuildScriptResult {
    /// The new progress profile, if one was recorded; each element is
    /// `bytes:time_ms`.
    pub new_profile: Option<Vec<String>>,
}

/// The build directory as an absolute path: as it is when it is absolute,
/// else below the current directory.
pub open spec fn absolute_dir(build_dir: Seq<char>, current_dir: Seq<char>) -> Seq<char> {
    if build_dir.len() > 0 && build_dir[0] == '/' {
        build_dir
    } else {
        path_join(current_dir, build_dir)
    }
}

/// The build directory made absolute against the current directory.
pub fn absolute_build_dir(build_dir: &str, current_dir: &str) -> (r: String)
    ensures
        r@ == absolute_dir(build_dir@, current_dir@),
{
    if build_dir.unicode_len() > 0 && build_dir.get_char(0) == '/' {
        to_owned_string(build_dir)
    } else {
        join_path(current_dir, build_dir)
    }
}

/// The variables that every build gets; `cpus` sets the parallelism of
/// `make`.
pub open spec fn base_env(cpus: nat) -> Map<Seq<char>, Seq<char>> {
    Map::empty().insert("HOME"@, "/homeless/deterministic"@).insert("LC_ALL"@, "C"@).insert(
        "TZ"@,
        "UTC"@,
    ).insert("LANG"@, "en_US.UTF-8"@).insert("SOURCE_DATE_EPOCH"@, "1704067200"@).insert(
        "GLIBC_TUNABLES"@,
        "glibc.cpu.hwcaps=-RNDRAND"@,
    ).insert("MAKEFLAGS"@, "-j"@ + decimal(cpus))
}

/// The sysroot of a bootstrap build in the build directory `dir`.
pub open spec fn sysroot_of(dir: Seq<char>) -> Seq<char> {
    path_join(dir, "bootstrap"@)
}

/// The tools directory of a bootstrap build.
pub open spec fn tools_of(dir: Seq<char>) -> Seq<char> {
    path_join(sysroot_of(dir), "tools"@)
}

/// The variables of a bootstrap build in `dir`, over `m`.
pub open spec fn bootstrap_env(m: Map<Seq<char>, Seq<char>>, dir: Seq<char>) -> Map<Seq<char>, Seq<char>> {
    m.insert("PATH"@, tools_of(dir) + "/bin:/usr/bin"@).insert("TARGET"@, "x86_64-2nex-linux-gnu"@).insert(
        "WORK_DIR"@,
        path_join(path_join(dir, "2nex"@), "work"@),
    ).insert("OUT_DIR"@, path_join(path_join(dir, "2nex"@), "out"@)).insert(
        "BOOTSTRAP_TOOLS"@,
        tools_of(dir),
    ).insert("BOOTSTRAP_SYSROOT"@, sysroot_of(dir)).insert(
        "CFLAGS"@,
        "-march=x86-64 -mtune=generic -O2 -frandom-seed=424242"@,
    ).insert("CXXFLAGS"@, "-march=x86-64 -mtune=generic -O2 -frandom-seed=424242"@).insert(
        "LDFLAGS"@,
        "-L/bootstrap/usr/lib -Wl,-O1,--sort-common,--as-needed,-z,now"@,
    )
}

/// The variables of a build inside the package's root, over `m`.
pub open spec fn system_env(m: Map<Seq<char>, Seq<char>>) -> Map<Seq<char>, Seq<char>> {
    m.insert("PATH"@, "/usr/sbin:/usr/bin:/sbin:/bin"@).insert("RUSTC_BOOTSTRAP"@, "1"@).insert(
        "CFLAGS"@,
        "-march=x86-64 -mtune=generic -O2 -pipe -fno-plt -fexceptions -Wp,-D_FORTIFY_SOURCE=2 -Wformat -Werror=format-security -fstack-clash-protection -fcf-protection -fPIC -fno-common -fno-omit-frame-pointer -frandom-seed=424242"@,
    ).insert(
        "CXXFLAGS"@,
        "-march=x86-64 -mtune=generic -O2 -pipe -fno-plt -fexceptions -Wp,-D_FORTIFY_SOURCE=2 -Wformat -Werror=format-security -fstack-clash-protection -fcf-protection -Wp,-D_GLIBCXX_ASSERTIONS -fPIC -fno-common -fno-omit-frame-pointer -frandom-seed=424242"@,
    ).insert("LDFLAGS"@, "-Wl,-O1,--sort-common,--as-needed,-z,relro,-z,now"@).insert(
        "LTOFLAGS"@,
        "-flto=auto"@,
    ).insert(
        "RUSTFLAGS"@,
        "-C codegen-units=1 -C embed-bitcode=yes -C debuginfo=0 -C link-args=-fuse-ld=lld -C target-feature=+crt-static -C link-args=-frandom-seed=424242"@,
    ).insert("DEBUG_CFLAGS"@, "-g"@).insert("DEBUG_CXXFLAGS"@, "-g"@).insert(
        "DEBUG_RUSTFLAGS"@,
        "-C debuginfo=2"@,
    ).insert("TARGET"@, "x86_64-pc-linux-gnu"@).insert("WORK_DIR"@, "/2nex/work"@).insert(
        "OUT_DIR"@,
        "/2nex/out"@,
    )
}

/// `m` with each of `vars` set in turn.
pub open spec fn overlay(m: Map<Seq<char>, Seq<char>>, vars: Seq<(String, String)>) -> Map<Seq<char>, Seq<char>>
    decreases vars.len(),
{
    if vars.len() == 0 {
        m
    } else {
        overlay(m, vars.drop_last()).insert(vars.last().0@, vars.last().1@)
    }
}

/// The environment of a build script: the fixed variables of its kind of
/// build, then the caller's variables, which win.
pub open spec fn build_env(
    bootstrap: bool,
    cpus: nat,
    dir: Seq<char>,
    vars: Seq<(String, String)>,
) -> Map<Seq<char>, Seq<char>> {
    let fixed = if bootstrap {
        bootstrap_env(base_env(cpus), dir)
    } else {
        system_env(base_env(cpus))
    };
    overlay(fixed, vars)
}

/// Sets a variable whose value is a path below the build directory.
fn set_path(env: &mut Vec<(String, String)>, key: &str, value: &String)
    requires
        distinct_keys(old(env)@),
    ensures
        distinct_keys(final(env)@),
        env_map(final(env)@) == env_map(old(env)@).insert(key@, value@),
{
    env_insert(env, key, value.as_str());
}

/// The environment that the build script of a package runs with.
/// `build_dir_abs` is the absolute build directory, `cpus` the number of
/// processors, `env_vars` the variables of the package (its inputs).
pub fn build_script_env(
    bootstrap: bool,
    cpus: u64,
    build_dir_abs: &str,
    env_vars: &Vec<(String, String)>,
) -> (r: Vec<(String, String)>)
    ensures
        distinct_keys(r@),
        env_map(r@) == build_env(bootstrap, cpus as nat, build_dir_abs@, env_vars@),
{
    let mut env: Vec<(String, String)> = Vec::new();
    proof {
        assert(env_map(env@) =~= Map::<Seq<char>, Seq<char>>::empty());
    }
    env_insert(&mut env, "HOME", "/homeless/deterministic");
    env_insert(&mut env, "LC_ALL", "C");
    env_insert(&mut env, "TZ", "UTC");
    env_insert(&mut env, "LANG", "en_US.UTF-8");
    env_insert(&mut env, "SOURCE_DATE_EPOCH", "1704067200");
    env_insert(&mut env, "GLIBC_TUNABLES", "glibc.cpu.hwcaps=-RNDRAND");
    let mut jobs = to_owned_string("-j");
    push_decimal(&mut jobs, cpus);
    set_path(&mut env, "MAKEFLAGS", &jobs);
    proof {
        assert(env_map(env@) == base_env(cpus as nat));
    }
    if bootstrap {
        let sysroot = join_path(build_dir_abs, "bootstrap");
        let tools = join_path(sysroot.as_str(), "tools");
        let nex_dir = join_path(build_dir_abs, "2nex");
        let work_dir = join_path(nex_dir.as_str(), "work");
        let out_dir = join_path(nex_dir.as_str(), "out");
        let mut path = to_owned_string(tools.as_str());
        push_str(&mut path, "/bin:/usr/bin");
        set_path(&mut env, "PATH", &path);
        env_insert(&mut env, "TARGET", "x86_64-2nex-linux-gnu");
        set_path(&mut env, "WORK_DIR", &work_dir);
        set_path(&mut env, "OUT_DIR", &out_dir);
        set_path(&mut env, "BOOTSTRAP_TOOLS", &tools);
        set_path(&mut env, "BOOTSTRAP_SYSROOT", &sysroot);
        env_insert(&mut env, "CFLAGS", "-march=x86-64 -mtune=generic -O2 -frandom-seed=424242");
        env_insert(&mut env, "CXXFLAGS", "-march=x86-64 -mtune=generic -O2 -frandom-seed=424242");
        env_insert(&mut env, "LDFLAGS", "-L/bootstrap/usr/lib -Wl,-O1,--sort-common,--as-needed,-z,now");
    } else {
        env_insert(&mut env, "PATH", "/usr/sbin:/usr/bin:/sbin:/bin");
        env_insert(&mut env, "RUSTC_BOOTSTRAP", "1");
        env_insert(
            &mut env,
            "CFLAGS",
            "-march=x86-64 -mtune=generic -O2 -pipe -fno-plt -fexceptions -Wp,-D_FORTIFY_SOURCE=2 -Wformat -Werror=format-security -fstack-clash-protection -fcf-protection -fPIC -fno-common -fno-omit-frame-pointer -frandom-seed=424242",
        );
        env_insert(
            &mut env,
            "CXXFLAGS",
            "-march=x86-64 -mtune=generic -O2 -pipe -fno-plt -fexceptions -Wp,-D_FORTIFY_SOURCE=2 -Wformat -Werror=format-security -fstack-clash-protection -fcf-protection -Wp,-D_GLIBCXX_ASSERTIONS -fPIC -fno-common -fno-omit-frame-pointer -frandom-seed=424242",
        );
        env_insert(&mut env, "LDFLAGS", "-Wl,-O1,--sort-common,--as-needed,-z,relro,-z,now");
        env_insert(&mut env, "LTOFLAGS", "-flto=auto");
        env_insert(
            &mut env,
            "RUSTFLAGS",
            "-C codegen-units=1 -C embed-bitcode=yes -C debuginfo=0 -C link-args=-fuse-ld=lld -C target-feature=+crt-static -C link-args=-frandom-seed=424242",
        );
        env_insert(&mut env, "DEBUG_CFLAGS", "-g");
        env_insert(&mut env, "DEBUG_CXXFLAGS", "-g");
        env_insert(&mut env, "DEBUG_RUSTFLAGS", "-C debuginfo=2");
        env_insert(&mut env, "TARGET", "x86_64-pc-linux-gnu");
        env_insert(&mut env, "WORK_DIR", "/2nex/work");
        env_insert(&mut env, "OUT_DIR", "/2nex/out");
    }
    let ghost fixed = env_map(env@);
    let mut i: usize = 0;
    while i < env_vars.len()
        invariant
            i <= env_vars@.len(),
            distinct_keys(env@),
            env_map(env@) == overlay(fixed, env_vars@.subrange(0, i as int)),
        decreases env_vars@.len() - i,
    {
        proof {
            assert(env_vars@.subrange(0, i + 1).drop_last() =~= env_vars@.subrange(0, i as int));
        }
        env_insert(&mut env, env_vars[i].0.as_str(), env_vars[i].1.as_str());
        i += 1;
    }
    proof {
        assert(env_vars@.subrange(0, env_vars@.len() as int) =~= env_vars@);
    }
    env
}

} // verus!
