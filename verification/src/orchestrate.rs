//! Per-language orchestration: each declared language goes from `Pending`
//! through `Running` to `Succeeded`, `Failed` or `Skipped`. The native
//! languages drive the compile/link engine; the known foreign ones shell
//! out to their own build command; an unrecognized language is skipped with
//! a warning and never counts as failed. One language's failure does not
//! stop the others, and the build command as a whole still reports success.

use vstd::prelude::*;
use crate::command::push_one;
use crate::text::{prefixed, str_eq};

verus! {

/// What a declared language asks of the engine.
#[derive(Clone, Copy, PartialEq, Eq, Structural, Debug)]
pub enum ActionKind {
    /// Drive the native compile/link pipeline.
    Native,
    /// Run the language's own build command.
    External,
    /// Nothing to do (a language whose build step is conditionally absent).
    NoOp,
    /// Not a language this engine knows; skip it.
    Unsupported,
}

/// Lifecycle of one declared language within a build.
#[derive(Clone, Debug)]
pub enum LangStatus {
    Pending,
    Running,
    Succeeded,
    Failed(String),
    Skipped,
}

/// How a declared language is dispatched. `has_requirements` says whether a
/// Python requirements file is present, the one dispatch that is
/// conditional.
pub open spec fn spec_action_kind(lang: Seq<char>, has_requirements: bool) -> ActionKind {
    if lang == "c"@ || lang == "c++"@ {
        ActionKind::Native
    } else if lang == "rust"@ || lang == "odin"@ || lang == "crystal"@ || lang == "go"@ || lang
        == "vala"@ {
        ActionKind::External
    } else if lang == "python"@ {
        if has_requirements {
            ActionKind::External
        } else {
            ActionKind::NoOp
        }
    } else {
        ActionKind::Unsupported
    }
}

/// The commands the build tool understands.
#[derive(Clone, Copy, PartialEq, Eq, Structural, Debug)]
pub enum Subcommand {
    Setup,
    Make,
    Clean,
    Remake,
    Install,
}

/// Which subcommand a word names, if any.
pub open spec fn spec_subcommand(s: Seq<char>) -> Option<Subcommand> {
    if s == "setup"@ {
        Option::Some(Subcommand::Setup)
    } else if s == "make"@ {
        Option::Some(Subcommand::Make)
    } else if s == "clean"@ {
        Option::Some(Subcommand::Clean)
    } else if s == "remake"@ {
        Option::Some(Subcommand::Remake)
    } else if s == "install"@ {
        Option::Some(Subcommand::Install)
    } else {
        Option::None
    }
}

/// Parses a subcommand word.
pub fn subcommand_of(s: &str) -> (r: Option<Subcommand>)
    ensures
        r == spec_subcommand(s@),
{
    if str_eq(s, "setup") {
        Option::Some(Subcommand::Setup)
    } else if str_eq(s, "make") {
        Option::Some(Subcommand::Make)
    } else if str_eq(s, "clean") {
        Option::Some(Subcommand::Clean)
    } else if str_eq(s, "remake") {
        Option::Some(Subcommand::Remake)
    } else if str_eq(s, "install") {
        Option::Some(Subcommand::Install)
    } else {
        Option::None
    }
}

/// Classifies one declared language.
pub fn action_kind_of(lang: &str, has_requirements: bool) -> (k: ActionKind)
    ensures
        k == spec_action_kind(lang@, has_requirements),
{
    if str_eq(lang, "c") || str_eq(lang, "c++") {
        ActionKind::Native
    } else if str_eq(lang, "rust") || str_eq(lang, "odin") || str_eq(lang, "crystal") || str_eq(
        lang,
        "go",
    ) || str_eq(lang, "vala") {
        ActionKind::External
    } else if str_eq(lang, "python") {
        if has_requirements {
            ActionKind::External
        } else {
            ActionKind::NoOp
        }
    } else {
        ActionKind::Unsupported
    }
}

/// Decides how to build one declared language, and with which command when
/// it is a foreign one.
#[verifier::rlimit(100)]
pub fn lang_action(lang: &str, has_requirements: bool) -> (r: (ActionKind, Vec<String>))
    ensures
        r.0 == spec_action_kind(lang@, has_requirements),
        lang@ == "rust"@ ==> r.1.deep_view() == seq!["cargo"@, "build"@],
        lang@ == "odin"@ ==> r.1.deep_view() == seq!["odin"@, "build"@, "."@],
        lang@ == "python"@ && has_requirements ==> r.1.deep_view() == seq![
            "pip"@,
            "install"@,
            "-r"@,
            "requirements.txt"@,
        ],
        lang@ == "crystal"@ ==> r.1.deep_view() == seq!["crystal"@, "build"@, "main.cr"@],
        lang@ == "go"@ ==> r.1.deep_view() == seq!["go"@, "build"@],
        lang@ == "vala"@ ==> r.1.deep_view() == seq![
            "valac"@,
            "--pkg"@,
            "gio-2.0"@,
            "main.vala"@,
        ],
{
    proof {
        reveal_strlit("rust");
        reveal_strlit("odin");
        reveal_strlit("python");
        reveal_strlit("crystal");
        reveal_strlit("go");
        reveal_strlit("vala");
        assert("rust"@.len() == 4 && "rust"@[0] == 'r');
        assert("odin"@.len() == 4 && "odin"@[0] == 'o');
        assert("python"@.len() == 6 && "python"@[0] == 'p');
        assert("crystal"@.len() == 7 && "crystal"@[0] == 'c');
        assert("go"@.len() == 2 && "go"@[0] == 'g');
        assert("vala"@.len() == 4 && "vala"@[0] == 'v');
    }
    let kind = action_kind_of(lang, has_requirements);
    let mut argv: Vec<String> = Vec::new();
    if str_eq(lang, "rust") {
        push_one(&mut argv, String::from_str("cargo"));
        push_one(&mut argv, String::from_str("build"));
        proof {
            assert(argv.deep_view() =~= seq!["cargo"@, "build"@]);
        }
        return (kind, argv);
    } else if str_eq(lang, "odin") {
        push_one(&mut argv, String::from_str("odin"));
        push_one(&mut argv, String::from_str("build"));
        push_one(&mut argv, String::from_str("."));
        proof {
            assert(argv.deep_view() =~= seq!["odin"@, "build"@, "."@]);
        }
        return (kind, argv);
    } else if str_eq(lang, "python") {
        if has_requirements {
            push_one(&mut argv, String::from_str("pip"));
            push_one(&mut argv, String::from_str("install"));
            push_one(&mut argv, String::from_str("-r"));
            push_one(&mut argv, String::from_str("requirements.txt"));
            proof {
                assert(argv.deep_view() =~= seq!["pip"@, "install"@, "-r"@, "requirements.txt"@]);
            }
            return (kind, argv);
        }
    } else if str_eq(lang, "crystal") {
        push_one(&mut argv, String::from_str("crystal"));
        push_one(&mut argv, String::from_str("build"));
        push_one(&mut argv, String::from_str("main.cr"));
        proof {
            assert(argv.deep_view() =~= seq!["crystal"@, "build"@, "main.cr"@]);
        }
        return (kind, argv);
    } else if str_eq(lang, "go") {
        push_one(&mut argv, String::from_str("go"));
        push_one(&mut argv, String::from_str("build"));
        proof {
            assert(argv.deep_view() =~= seq!["go"@, "build"@]);
        }
        return (kind, argv);
    } else if str_eq(lang, "vala") {
        push_one(&mut argv, String::from_str("valac"));
        push_one(&mut argv, String::from_str("--pkg"));
        push_one(&mut argv, String::from_str("gio-2.0"));
        push_one(&mut argv, String::from_str("main.vala"));
        proof {
            assert(argv.deep_view() =~= seq!["valac"@, "--pkg"@, "gio-2.0"@, "main.vala"@]);
        }
        return (kind, argv);
    }
    (kind, argv)
}

/// The status a language ends in, given how its action went. An
/// unsupported language is skipped, never failed; a language with nothing
/// to do succeeds; otherwise the action's own success decides, and a
/// failure carries its reason.
pub fn lang_outcome(kind: ActionKind, lang: &str, ran_ok: bool) -> (r: LangStatus)
    ensures
        kind is Unsupported ==> r is Skipped,
        kind is NoOp ==> r is Succeeded,
        (kind is Native || kind is External) && ran_ok ==> r is Succeeded,
        (kind is Native || kind is External) && !ran_ok ==> (r matches LangStatus::Failed(m)
            && m@ == "build failed for "@ + lang@),
{
    match kind {
        ActionKind::Unsupported => LangStatus::Skipped,
        ActionKind::NoOp => LangStatus::Succeeded,
        _ => {
            if ran_ok {
                LangStatus::Succeeded
            } else {
                LangStatus::Failed(prefixed("build failed for ", lang))
            }
        },
    }
}

/// A language the engine does not recognize is always skipped: its action
/// kind is `Unsupported`, so `lang_outcome` yields `Skipped` whatever the
/// rest of the build did — it can never end `Failed`.
pub proof fn lemma_unknown_language_skipped(lang: Seq<char>, has_requirements: bool)
    requires
        lang != "c"@,
        lang != "c++"@,
        lang != "rust"@,
        lang != "odin"@,
        lang != "python"@,
        lang != "crystal"@,
        lang != "go"@,
        lang != "vala"@,
    ensures
        spec_action_kind(lang, has_requirements) == ActionKind::Unsupported,
{
}

/// Policy: the build command exits successfully even when individual
/// languages failed; there is no aggregate failure code distinguishing
/// "some failed" from "all succeeded".
pub fn overall_success(outcomes: &Vec<LangStatus>) -> (r: bool)
    ensures
        r,
{
    let _ = outcomes.len();
    true
}

} // verus!
