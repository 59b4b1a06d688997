use hbuild::{
    cpu_count, lang_action, lang_outcome, locate_sources, overall_success, resolve_pkg_flags,
    subcommand_of, ActionKind, FileTable, GraphBuilder, LangStatus, ProcessRegistry, Scheduler,
    Subcommand,
};

fn s(v: &str) -> String {
    v.to_string()
}

#[test]
fn file_table_interns_each_path_once() {
    let mut t = FileTable::new();
    let a = t.intern("src/a.c");
    let b = t.intern("src/b.c");
    let a2 = t.intern("src/a.c");
    assert_eq!(a, a2);
    assert_ne!(a, b);
    assert_eq!(t.len(), 2);
    assert_eq!(t.name(a), "src/a.c");
    assert_eq!(t.name(b), "src/b.c");
}

#[test]
fn graph_builder_scans_each_file_once_and_schedules_headers() {
    let sources = vec![s("src/a.c"), s("src/b.c")];
    let (mut b, ids) = GraphBuilder::new_for_sources(&sources);
    assert_eq!(ids.len(), 2);

    let mut scanned = Vec::new();
    while let Some(id) = b.next_query() {
        let name = b.files.names[id].clone();
        scanned.push(name.clone());
        // Simulate what the toolchain reports for each file.
        let deps: Vec<String> = match name.as_str() {
            "src/a.c" => vec![s("src/a.c")],
            "src/b.c" => vec![s("src/b.c"), s("inc/common.h"), s("notes.txt")],
            "inc/common.h" => vec![s("inc/common.h")],
            other => panic!("unexpected scan of {}", other),
        };
        b.record(id, &deps);
    }

    // Every source was scanned, the header was discovered and scanned,
    // and the non-header dependency stayed a leaf.
    assert_eq!(scanned.len(), 3);
    assert!(scanned.contains(&s("inc/common.h")));
    assert!(!scanned.contains(&s("notes.txt")));

    // b.c's edges name itself, the header, and the leaf.
    let b_id = ids[1];
    assert_eq!(b.edges[b_id].len(), 3);
    let named: Vec<&str> = b.edges[b_id].iter().map(|&i| b.files.names[i].as_str()).collect();
    assert_eq!(named, vec!["src/b.c", "inc/common.h", "notes.txt"]);
}

#[test]
fn scheduler_stops_dispatch_after_a_failure() {
    let mut sc = Scheduler::new(3, 2);
    assert!(sc.can_dispatch());
    let t0 = sc.dispatch();
    let t1 = sc.dispatch();
    assert_eq!((t0, t1), (0, 1));
    // Both workers busy.
    assert!(!sc.can_dispatch());
    sc.task_finished(false);
    // A slot is free but a failure was observed: nothing more starts.
    assert!(!sc.can_dispatch());
    assert!(!sc.done());
    sc.task_finished(true);
    assert!(sc.done());
    assert!(!sc.succeeded());
}

#[test]
fn scheduler_succeeds_when_all_tasks_pass() {
    let mut sc = Scheduler::new(2, 4);
    let _ = sc.dispatch();
    let _ = sc.dispatch();
    sc.task_finished(true);
    sc.task_finished(true);
    assert!(sc.done());
    assert!(sc.succeeded());
}

#[test]
fn registry_tracks_live_children() {
    let mut r = ProcessRegistry::new();
    r.register(100);
    r.register(200);
    r.register(300);
    assert_eq!(r.snapshot(), vec![100, 200, 300]);
    r.unregister(200);
    assert_eq!(r.snapshot(), vec![100, 300]);
    assert_eq!(r.len(), 2);
}

#[test]
fn registry_unregister_removes_every_occurrence() {
    let mut r = ProcessRegistry::new();
    r.register(7);
    r.register(7);
    r.unregister(7);
    assert_eq!(r.len(), 0);
}

#[test]
fn known_languages_get_their_build_commands() {
    let (kind, argv) = lang_action("rust", false);
    assert_eq!(kind, ActionKind::External);
    assert_eq!(argv, vec!["cargo", "build"]);
    let (kind, _) = lang_action("c", false);
    assert_eq!(kind, ActionKind::Native);
    let (kind, _) = lang_action("c++", false);
    assert_eq!(kind, ActionKind::Native);
    let (kind, argv) = lang_action("python", true);
    assert_eq!(kind, ActionKind::External);
    assert_eq!(argv, vec!["pip", "install", "-r", "requirements.txt"]);
    let (kind, _) = lang_action("python", false);
    assert_eq!(kind, ActionKind::NoOp);
    let (kind, argv) = lang_action("vala", false);
    assert_eq!(kind, ActionKind::External);
    assert_eq!(argv, vec!["valac", "--pkg", "gio-2.0", "main.vala"]);
}

#[test]
fn unknown_language_is_skipped_and_the_build_still_succeeds() {
    // Declared languages: c and bogus-lang. The native one builds; the
    // unknown one is skipped, never failed, and the command reports
    // success overall.
    let mut outcomes = Vec::new();
    for lang in ["c", "bogus-lang"] {
        let (kind, _) = lang_action(lang, false);
        let ran_ok = true; // the native path built fine
        outcomes.push(lang_outcome(kind, lang, ran_ok));
    }
    assert!(matches!(outcomes[0], LangStatus::Succeeded));
    assert!(matches!(outcomes[1], LangStatus::Skipped));
    assert!(overall_success(&outcomes));
}

#[test]
fn failed_language_does_not_fail_the_run() {
    let (kind, _) = lang_action("go", false);
    let st = lang_outcome(kind, "go", false);
    match &st {
        LangStatus::Failed(msg) => assert_eq!(msg, "build failed for go"),
        other => panic!("expected a failure, got {:?}", other),
    }
    assert!(overall_success(&vec![st]));
}

#[test]
fn at_least_one_worker_is_available() {
    assert!(cpu_count() >= 1);
}

#[test]
fn locating_with_no_matches_is_empty_not_an_error() {
    let r = locate_sources("surely_missing_dir_zq", &vec![s("*.c")]).unwrap();
    assert!(r.is_empty());
}

#[test]
fn unknown_package_is_reported_not_fatal() {
    let (inc, defs, ld, failed) =
        resolve_pkg_flags(&vec![s("surely-no-such-package-zq")]);
    assert!(inc.is_empty() && defs.is_empty() && ld.is_empty());
    assert_eq!(failed, vec![s("surely-no-such-package-zq")]);
}

#[test]
fn package_flags_fold_exactly() {
    let lib = hbuild::PkgLib {
        include_paths: vec![s("/usr/include/glib-2.0")],
        defines: vec![(s("NDEBUG"), None), (s("VER"), Some(s("2")))],
        link_paths: vec![s("/usr/lib")],
        libs: vec![s("glib-2.0"), s("m")],
    };
    let (inc, defs, ld) = hbuild::pkg_lib_args(&lib);
    assert_eq!(inc, vec![s("-I/usr/include/glib-2.0")]);
    assert_eq!(defs, vec![s("-DNDEBUG"), s("-DVER=2")]);
    assert_eq!(ld, vec![s("-L/usr/lib"), s("-lglib-2.0"), s("-lm")]);
}

#[test]
fn subcommands_parse() {
    assert_eq!(subcommand_of("setup"), Some(Subcommand::Setup));
    assert_eq!(subcommand_of("make"), Some(Subcommand::Make));
    assert_eq!(subcommand_of("clean"), Some(Subcommand::Clean));
    assert_eq!(subcommand_of("remake"), Some(Subcommand::Remake));
    assert_eq!(subcommand_of("install"), Some(Subcommand::Install));
    assert_eq!(subcommand_of("build"), None);
}

#[test]
fn merge_keeps_first_occurrences_only() {
    let mut out = vec![s("a.c"), s("b.c")];
    hbuild::merge_new(&mut out, &vec![s("b.c"), s("c.c"), s("a.c"), s("c.c")]);
    assert_eq!(out, vec![s("a.c"), s("b.c"), s("c.c")]);
    let mut empty: Vec<String> = Vec::new();
    hbuild::merge_new(&mut empty, &vec![s("x"), s("x")]);
    assert_eq!(empty, vec![s("x")]);
}
