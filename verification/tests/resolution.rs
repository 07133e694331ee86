//! End-to-end behaviour of the path resolver on explicit environment
//! snapshots.

use rustc_llvm_proxy::environment::Environment;
use rustc_llvm_proxy::path::{
    candidate_files, collect_possible_paths, find_arch, find_lib_path, find_rustc, ResolveError,
};

fn candidates(env: &Environment) -> Vec<String> {
    match collect_possible_paths(env) {
        Ok(v) => v,
        Err(_) => panic!("expected a candidate list"),
    }
}

fn full_environment() -> Environment {
    let mut env = Environment::empty();
    env.path = Some("/usr/local/bin:/opt/tools/bin".to_owned());
    env.rustup_home = Some("/rh".to_owned());
    env.rustup_toolchain = Some("stable-x86_64-unknown-linux-gnu".to_owned());
    env.ld_library_path = Some("/tc/nightly-2020-01-01-x86_64-apple-darwin/lib:/plain".to_owned());
    env.cargo = Some("/rh/toolchains/beta-x86_64-pc-windows-msvc/bin/cargo".to_owned());
    env.rustc = Some("/custom/rustc".to_owned());
    env.rustc_sysroot = Some("/sys/nightly-x86_64-unknown-linux-gnu\n".to_owned());
    env.rustup_which_rustc =
        Some("/rh/toolchains/tc2-x86_64-unknown-linux-gnu/bin/rustc\n".to_owned());
    env
}

fn full_environment_candidates() -> Vec<String> {
    vec![
        "/usr/local/codegen-backends".to_owned(),
        "/opt/tools/codegen-backends".to_owned(),
        "/rh/toolchains/stable-x86_64-unknown-linux-gnu/lib/rustlib/x86_64-unknown-linux-gnu/codegen-backends".to_owned(),
        "/tc/nightly-2020-01-01-x86_64-apple-darwin/lib/rustlib/x86_64-apple-darwin/codegen-backends".to_owned(),
        "/rh/toolchains/beta-x86_64-pc-windows-msvc/lib/rustlib/x86_64-pc-windows-msvc/codegen-backends".to_owned(),
        "/sys/nightly-x86_64-unknown-linux-gnu/lib/rustlib/x86_64-unknown-linux-gnu/codegen-backends".to_owned(),
        "/rh/toolchains/tc2-x86_64-unknown-linux-gnu/lib/rustlib/x86_64-unknown-linux-gnu/codegen-backends".to_owned(),
    ]
}

#[test]
fn all_strategies_in_priority_order() {
    let env = full_environment();
    assert_eq!(candidates(&env), full_environment_candidates());
}

#[test]
fn candidate_generation_is_deterministic() {
    let env = full_environment();
    assert_eq!(candidates(&env), candidates(&env));
}

#[test]
fn empty_environment_yields_no_candidates() {
    let env = Environment::empty();
    assert_eq!(candidates(&env), Vec::<String>::new());
}

#[test]
fn not_found_lists_every_probed_directory() {
    let env = full_environment();
    match find_lib_path(&env, &Vec::new()) {
        Err(ResolveError::NotFound(dirs)) => assert_eq!(dirs, full_environment_candidates()),
        _ => panic!("expected NotFound with the probed directories"),
    }
}

#[test]
fn not_found_keeps_duplicates() {
    let mut env = Environment::empty();
    env.path = Some("/x/bin:/x/bin".to_owned());
    match find_lib_path(&env, &Vec::new()) {
        Err(ResolveError::NotFound(dirs)) => assert_eq!(
            dirs,
            vec!["/x/codegen-backends".to_owned(), "/x/codegen-backends".to_owned()]
        ),
        _ => panic!("expected NotFound with both duplicates"),
    }
}

#[test]
fn rustup_home_without_toolchain_is_inconsistent() {
    let mut env = Environment::empty();
    env.path = Some("/usr/bin".to_owned());
    env.rustup_home = Some("/rh".to_owned());
    match collect_possible_paths(&env) {
        Err(ResolveError::InconsistentEnvironment) => {},
        _ => panic!("expected an inconsistent environment"),
    }
}

#[test]
fn inconsistency_aborts_resolution_even_with_a_hit() {
    let mut env = Environment::empty();
    env.path = Some("/usr/bin".to_owned());
    env.rustup_home = Some("/rh".to_owned());
    let present = vec!["/usr/codegen-backends/librustc_codegen_llvm-llvm.so".to_owned()];
    match find_lib_path(&env, &present) {
        Err(ResolveError::InconsistentEnvironment) => {},
        _ => panic!("expected the inconsistency to abort resolution"),
    }
}

#[test]
fn probe_order_within_a_directory() {
    let mut env = Environment::empty();
    env.path = Some("/d/bin".to_owned());
    let dir = "/d/codegen-backends";
    let so = format!("{}/librustc_codegen_llvm-llvm.so", dir);
    let dylib = format!("{}/librustc_codegen_llvm-llvm.dylib", dir);
    let dll = format!("{}/rustc_codegen_llvm-llvm.dll", dir);
    assert_eq!(candidate_files(dir), vec![so.clone(), dylib.clone(), dll.clone()]);

    // Even with every name present, the `.so` form wins.
    let all = vec![dll.clone(), dylib.clone(), so.clone()];
    assert_eq!(find_lib_path(&env, &all).ok(), Some(so));
    let two = vec![dll.clone(), dylib.clone()];
    assert_eq!(find_lib_path(&env, &two).ok(), Some(dylib));
    let one = vec![dll.clone()];
    assert_eq!(find_lib_path(&env, &one).ok(), Some(dll));
}

#[test]
fn earlier_strategy_wins_across_directories() {
    let mut env = Environment::empty();
    env.path = Some("/first/bin:/second/bin".to_owned());
    let hit_first = "/first/codegen-backends/librustc_codegen_llvm-llvm.so".to_owned();
    let hit_second = "/second/codegen-backends/librustc_codegen_llvm-llvm.so".to_owned();
    let present = vec![hit_second.clone(), hit_first.clone()];
    assert_eq!(find_lib_path(&env, &present).ok(), Some(hit_first));

    let only_second = vec![hit_second.clone()];
    assert_eq!(find_lib_path(&env, &only_second).ok(), Some(hit_second));
}

#[test]
fn host_override_beats_toolchain_parsing_for_cargo() {
    let mut env = Environment::empty();
    env.cargo = Some("/rh/toolchains/beta-x86_64-pc-windows-msvc/bin/cargo".to_owned());
    env.host = Some("riscv64gc-unknown-linux-gnu".to_owned());
    assert_eq!(
        candidates(&env),
        vec![
            "/rh/toolchains/beta-x86_64-pc-windows-msvc/lib/rustlib/riscv64gc-unknown-linux-gnu/codegen-backends".to_owned(),
        ]
    );
}

#[test]
fn find_rustc_prefers_the_override() {
    let mut env = Environment::empty();
    env.rustc = Some("/custom/rustc".to_owned());
    env.rustup_which_rustc = Some("/other/rustc\n".to_owned());
    assert_eq!(find_rustc(&env), Some("/custom/rustc".to_owned()));

    env.rustc = None;
    assert_eq!(find_rustc(&env), Some("/other/rustc".to_owned()));

    env.rustup_which_rustc = None;
    assert_eq!(find_rustc(&env), None);
}

#[test]
fn find_arch_preference_order() {
    let mut env = Environment::empty();
    env.host = Some("wins".to_owned());
    env.rustc_verbose_version =
        Some("rustc 1.31.0\nhost: aarch64-apple-darwin\nrelease: 1.31.0".to_owned());
    assert_eq!(find_arch(&env, "/sys/stable-x86_64-apple-darwin"), Some("wins".to_owned()));

    env.host = None;
    assert_eq!(
        find_arch(&env, "/sys/stable-x86_64-apple-darwin"),
        Some("aarch64-apple-darwin".to_owned())
    );

    // A verbose report without a host line falls back to the installation
    // root's final segment.
    env.rustc_verbose_version = Some("rustc 1.31.0\nrelease: 1.31.0".to_owned());
    assert_eq!(
        find_arch(&env, "/sys/stable-x86_64-apple-darwin"),
        Some("x86_64-apple-darwin".to_owned())
    );

    env.rustc_verbose_version = None;
    assert_eq!(
        find_arch(&env, "/sys/stable-x86_64-apple-darwin"),
        Some("x86_64-apple-darwin".to_owned())
    );
    assert_eq!(find_arch(&env, ""), None);
}

#[test]
fn empty_version_manager_report_yields_no_candidate() {
    let mut env = Environment::empty();
    env.rustup_which_rustc = Some("\n".to_owned());
    assert_eq!(candidates(&env), Vec::<String>::new());
}

#[test]
fn dated_nightly_toolchain_under_the_version_manager() {
    let mut env = Environment::empty();
    env.rustup_home = Some("/rh".to_owned());
    env.rustup_toolchain = Some("nightly-2018-11-30-x86_64-unknown-linux-gnu".to_owned());
    assert_eq!(
        candidates(&env),
        vec![
            "/rh/toolchains/nightly-2018-11-30-x86_64-unknown-linux-gnu/lib/rustlib/x86_64-unknown-linux-gnu/codegen-backends".to_owned(),
        ]
    );
}

#[test]
fn rustc_strategy_needs_a_resolved_compiler() {
    let mut env = Environment::empty();
    env.rustc_sysroot = Some("/sys/stable-x86_64-unknown-linux-gnu".to_owned());
    assert_eq!(candidates(&env), Vec::<String>::new());

    env.rustc = Some("/custom/rustc".to_owned());
    assert_eq!(
        candidates(&env),
        vec![
            "/sys/stable-x86_64-unknown-linux-gnu/lib/rustlib/x86_64-unknown-linux-gnu/codegen-backends".to_owned(),
        ]
    );
}
