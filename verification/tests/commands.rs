use hbuild::{
    archive_argv, build_kind_of, compile_argv, install_plan, kill_argv, link_argv, need_relink,
    object_name, plan_compilations, target_file, u64_to_string, BuildKind,
};

fn strs(v: &[&str]) -> Vec<String> {
    v.iter().map(|s| s.to_string()).collect()
}

#[test]
fn build_kind_parsing() {
    assert_eq!(build_kind_of("executable"), BuildKind::Executable);
    assert_eq!(build_kind_of("shared"), BuildKind::Shared);
    assert_eq!(build_kind_of("static"), BuildKind::Static);
    assert_eq!(build_kind_of("whatever"), BuildKind::Executable);
}

#[test]
fn target_file_names() {
    assert_eq!(target_file("my_app", BuildKind::Executable), "my_app");
    assert_eq!(target_file("my_app", BuildKind::Shared), "my_app.so");
    assert_eq!(target_file("my_app", BuildKind::Static), "my_app.a");
    // An existing extension is replaced, as a path extension change would.
    assert_eq!(target_file("my.app", BuildKind::Shared), "my.so");
    assert_eq!(target_file("dir.x/my_app", BuildKind::Static), "dir.x/my_app.a");
}

#[test]
fn object_names_derive_from_the_basename() {
    assert_eq!(object_name("src/foo.cpp"), "foo.o");
    assert_eq!(object_name("foo.c"), "foo.o");
    assert_eq!(object_name("a/b/c.tar.c"), "c.tar.o");
    assert_eq!(object_name("src/noext"), "noext.o");
    assert_eq!(object_name("src/.hidden"), ".hidden.o");
}

#[test]
fn compile_command_is_exact() {
    let argv = compile_argv(
        "g++",
        "c++20",
        "O3",
        &strs(&["-Wall"]),
        &strs(&["-Iinclude"]),
        BuildKind::Executable,
        "src/a.cpp",
        "build/a.o",
    );
    assert_eq!(
        argv,
        strs(&["g++", "-std=c++20", "-O3", "-Wall", "-Iinclude", "-c", "src/a.cpp", "-o", "build/a.o"])
    );
}

#[test]
fn shared_build_compiles_position_independent() {
    let argv = compile_argv(
        "cc",
        "c11",
        "O2",
        &strs(&[]),
        &strs(&[]),
        BuildKind::Shared,
        "a.c",
        "build/a.o",
    );
    assert_eq!(argv.last().unwrap(), "-fPIC");
}

#[test]
fn link_command_is_exact() {
    let argv = link_argv(
        "g++",
        "O3",
        &strs(&["-flto"]),
        &strs(&["-Llib"]),
        &strs(&["-lm"]),
        "my_app",
        &strs(&["build/a.o", "build/b.o"]),
        BuildKind::Executable,
    );
    assert_eq!(
        argv,
        strs(&["g++", "-O3", "-flto", "-Llib", "-lm", "-o", "my_app", "build/a.o", "build/b.o"])
    );
}

#[test]
fn shared_link_carries_the_shared_flag() {
    let argv = link_argv(
        "cc",
        "O2",
        &strs(&[]),
        &strs(&[]),
        &strs(&[]),
        "libx.so",
        &strs(&["build/a.o"]),
        BuildKind::Shared,
    );
    assert_eq!(argv.last().unwrap(), "-shared");
}

#[test]
fn static_build_archives_and_never_passes_shared() {
    // Two sources, build_type static: the archiver runs over the objects
    // and no element of the command is the shared-object flag.
    let target = target_file("libdemo", BuildKind::Static);
    assert_eq!(target, "libdemo.a");
    let objs = strs(&["build/a.o", "build/b.o"]);
    let argv = archive_argv(&target, &objs);
    assert_eq!(argv, strs(&["ar", "rcs", "libdemo.a", "build/a.o", "build/b.o"]));
    assert!(argv.iter().all(|a| a != "-shared"));
}

#[test]
fn relink_decision() {
    // Missing target.
    assert!(need_relink(None, false, &vec![]));
    // Something recompiled.
    assert!(need_relink(Some(30), true, &vec![]));
    // An existing object newer than the target.
    assert!(need_relink(Some(30), false, &vec![Some(10u64), Some(40u64)]));
    // A missing object alone does not force a relink.
    assert!(!need_relink(Some(30), false, &vec![None, Some(10u64)]));
}

#[test]
fn kill_command_renders_the_pid() {
    assert_eq!(kill_argv(42), vec!["kill", "-9", "42"]);
    assert_eq!(kill_argv(0), vec!["kill", "-9", "0"]);
}

#[test]
fn decimal_rendering() {
    assert_eq!(u64_to_string(0), "0");
    assert_eq!(u64_to_string(7), "7");
    assert_eq!(u64_to_string(1234567890), "1234567890");
    assert_eq!(u64_to_string(u64::MAX), "18446744073709551615");
}

#[test]
fn install_destinations() {
    assert_eq!(
        install_plan("executable", "demo", "my_app"),
        Some(("bin".to_string(), "my_app".to_string(), "demo".to_string()))
    );
    assert_eq!(
        install_plan("shared", "demo", "my_app"),
        Some(("lib".to_string(), "my_app.so".to_string(), "my_app.so".to_string()))
    );
    assert_eq!(
        install_plan("static", "demo", "out/my_app"),
        Some(("lib".to_string(), "out/my_app.a".to_string(), "my_app.a".to_string()))
    );
    assert_eq!(install_plan("plugin", "demo", "my_app"), None);
}

#[test]
fn compile_plan_covers_each_stale_source() {
    let sources = strs(&["src/a.c", "src/b.c", "src/c.c"]);
    let stale = vec![0usize, 2usize];
    let jobs = plan_compilations(
        "gcc",
        "c11",
        "O2",
        &strs(&[]),
        &strs(&["-Iinclude"]),
        BuildKind::Executable,
        "proj/build",
        &sources,
        &stale,
    );
    assert_eq!(jobs.len(), 2);
    assert_eq!(jobs[0].source_index, 0);
    assert_eq!(
        jobs[0].argv,
        strs(&["gcc", "-std=c11", "-O2", "-Iinclude", "-c", "src/a.c", "-o", "proj/build/a.o"])
    );
    assert_eq!(jobs[1].source_index, 2);
    assert_eq!(
        jobs[1].argv,
        strs(&["gcc", "-std=c11", "-O2", "-Iinclude", "-c", "src/c.c", "-o", "proj/build/c.o"])
    );
}
