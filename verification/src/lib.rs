//! Incremental native build engine: source location, include-dependency
//! graphs, staleness analysis, compiler/linker command construction, and the
//! bookkeeping (process registry, worker scheduling, per-language outcomes)
//! that a build driver needs around an external toolchain.

mod command;
mod config;
mod graph;
mod locate;
mod orchestrate;
mod registry;
mod sched;
mod stale;
mod text;

pub use command::{
    BuildKind, spec_build_kind, build_kind_of, spec_target_file, target_file, push_all,
    prefixed_args, define_args, spec_compile_argv, compile_argv, spec_link_argv, link_argv,
    spec_archive_argv, archive_argv, lemma_archive_argv_never_shared, spec_need_relink, need_relink,
    install_plan, plan_compilations, CompileJob, lemma_static_build_never_passes_shared,
};

pub use stale::{
    graph_wf, is_path, reaches, file_outdated, spec_stale, reachable_from, is_stale, select_stale,
    lemma_missing_object_is_stale, lemma_fresh_object_not_stale,
    lemma_stale_depends_only_on_reachable, lemma_touched_header_makes_stale,
};
pub use config::{
    CfgValue, Metadata, Description, Specs, RuntimeSpec, BuildSpec, BuildConfig, table_get,
    str_of, bool_of, spec_get_string, spec_get_bool, spec_get_str_list, spec_get_str_list_lossy,
    spec_get_table, get_entry, value_as_string, get_string, get_bool, get_str_list,
    get_str_list_lossy, get_table, spec_languages, spec_dep_pairs, spec_dependencies, split_specs,
    spec_meta_ok, spec_desc_ok, spec_build_ok, spec_config_ok, config_from_tree, config_candidates,
};
pub use locate::{
    PkgLib, cpu_count, contains_str, distinct_strs, spec_merge_new, merge_new, locate_sources,
    pkg_lib_args, resolve_pkg_flags, spec_has_prefix, spec_include_flag, spec_define_flag,
    spec_link_flag,
};
pub use orchestrate::{
    ActionKind, LangStatus, Subcommand, spec_subcommand, subcommand_of, action_kind_of,
    spec_action_kind, lang_action, lang_outcome,
    lemma_unknown_language_skipped, overall_success,
};
pub use registry::{ProcessRegistry, kill_argv};
pub use sched::Scheduler;
pub use graph::{
    spec_mm_payload, spec_mm_deps, parse_mm_deps, FileTable, GraphBuilder,
    lemma_drained_builder_scanned_all,
};
pub use text::{
    str_eq, is_ws, spec_split_ws, split_ws, last_pos, rfind_char, spec_basename, basename,
    spec_with_ext, replace_extension, spec_object_name, object_name, spec_ext, spec_is_header,
    is_header_path, join_path, prefixed, spec_dec, digit_char, u64_to_string, lemma_with_ext_suffix,
    starts_with_str,
    ends_with_str, spec_is_git_source, is_git_source,
};
