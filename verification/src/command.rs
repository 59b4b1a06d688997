//! Construction of the toolchain command lines: compile, link and archive
//! argument vectors, flag lists, and the relink decision.
//!
//! An argument vector includes the program name at index 0; whoever runs it
//! spawns `argv[0]` with the remaining elements as arguments.

use vstd::prelude::*;
use crate::text::{basename, lemma_with_ext_suffix, prefixed, replace_extension, spec_basename,
    spec_object_name, spec_with_ext, str_eq};

verus! {

/// The three kinds of final artifact.
#[derive(Clone, Copy, PartialEq, Eq, Structural, Debug)]
pub enum BuildKind {
    Executable,
    Shared,
    Static,
}

/// How a declared `build_type` string is read; anything unrecognized builds
/// an executable.
pub open spec fn spec_build_kind(s: Seq<char>) -> BuildKind {
    if s == "shared"@ {
        BuildKind::Shared
    } else if s == "static"@ {
        BuildKind::Static
    } else {
        BuildKind::Executable
    }
}

/// Parses a `build_type` string.
pub fn build_kind_of(bt: &str) -> (k: BuildKind)
    ensures
        k == spec_build_kind(bt@),
{
    if str_eq(bt, "shared") {
        BuildKind::Shared
    } else if str_eq(bt, "static") {
        BuildKind::Static
    } else {
        BuildKind::Executable
    }
}

/// File name of the final artifact: the target name with the extension the
/// build kind implies (none for an executable).
pub open spec fn spec_target_file(target: Seq<char>, kind: BuildKind) -> Seq<char> {
    match kind {
        BuildKind::Executable => target,
        BuildKind::Shared => spec_with_ext(target, ".so"@),
        BuildKind::Static => spec_with_ext(target, ".a"@),
    }
}

/// Computes the artifact file name for a target and build kind.
pub fn target_file(target: &str, kind: BuildKind) -> (r: String)
    ensures
        r@ == spec_target_file(target@, kind),
{
    match kind {
        BuildKind::Executable => target.to_owned(),
        BuildKind::Shared => replace_extension(target, ".so"),
        BuildKind::Static => replace_extension(target, ".a"),
    }
}

/// Where a built artifact is installed, relative to the installation
/// prefix: the subdirectory, the artifact file to copy (the target name
/// with the extension its declared build type implies), and the name it is
/// installed under. A declared build type outside the three known ones
/// installs nothing.
pub fn install_plan(build_type: &str, project_name: &str, target: &str) -> (r: Option<
    (String, String, String),
>)
    ensures
        build_type@ == "executable"@ ==> (r matches Option::Some(p) && p.0@ == "bin"@ && p.1@
            == target@ && p.2@ == project_name@),
        build_type@ == "shared"@ ==> (r matches Option::Some(p) && p.0@ == "lib"@ && p.1@
            == spec_with_ext(target@, ".so"@) && p.2@ == spec_basename(
            spec_with_ext(target@, ".so"@),
        )),
        build_type@ == "static"@ ==> (r matches Option::Some(p) && p.0@ == "lib"@ && p.1@
            == spec_with_ext(target@, ".a"@) && p.2@ == spec_basename(
            spec_with_ext(target@, ".a"@),
        )),
        build_type@ != "executable"@ && build_type@ != "shared"@ && build_type@ != "static"@
            ==> r is None,
{
    proof {
        reveal_strlit("executable");
        reveal_strlit("shared");
        reveal_strlit("static");
        assert("executable"@.len() == 10 && "executable"@[0] == 'e');
        assert("shared"@.len() == 6 && "shared"@[1] == 'h');
        assert("static"@.len() == 6 && "static"@[1] == 't');
    }
    if str_eq(build_type, "executable") {
        Option::Some((String::from_str("bin"), target.to_owned(), project_name.to_owned()))
    } else if str_eq(build_type, "shared") {
        let artifact = replace_extension(target, ".so");
        let installed = basename(artifact.as_str());
        Option::Some((String::from_str("lib"), artifact, installed))
    } else if str_eq(build_type, "static") {
        let artifact = replace_extension(target, ".a");
        let installed = basename(artifact.as_str());
        Option::Some((String::from_str("lib"), artifact, installed))
    } else {
        Option::None
    }
}

/// Appends one string to an argument vector.
pub fn push_one(dst: &mut Vec<String>, s: String)
    ensures
        final(dst).deep_view() == old(dst).deep_view().push(s@),
{
    let ghost d0 = dst.deep_view();
    let ghost sv = s@;
    dst.push(s);
    proof {
        assert(dst.deep_view() =~= d0.push(sv));
    }
}

/// Appends clones of all of `src` to `dst`.
pub fn push_all(dst: &mut Vec<String>, src: &Vec<String>)
    ensures
        final(dst).deep_view() == old(dst).deep_view() + src.deep_view(),
{
    let ghost d0 = dst.deep_view();
    let mut i: usize = 0;
    while i < src.len()
        invariant
            i <= src.len(),
            dst.deep_view() == d0 + src.deep_view().subrange(0, i as int),
        decreases src.len() - i,
    {
        let ghost dprev = dst.deep_view();
        dst.push(src[i].clone());
        proof {
            assert(dst.deep_view() =~= dprev.push(src@[i as int]@));
            assert(d0 + src.deep_view().subrange(0, i + 1) =~= (d0 + src.deep_view().subrange(
                0,
                i as int,
            )).push(src.deep_view()[i as int]));
        }
        i = i + 1;
    }
    proof {
        assert(src.deep_view().subrange(0, src.len() as int) =~= src.deep_view());
    }
}

/// Each element of `items`, prefixed: `-I` include directories, `-L` library
/// directories, `-l` library names.
pub fn prefixed_args(prefix: &str, items: &Vec<String>) -> (r: Vec<String>)
    ensures
        r.deep_view().len() == items.len(),
        forall|i: int|
            0 <= i < items.len() ==> r.deep_view()[i] == prefix@ + items.deep_view()[i],
{
    let mut r: Vec<String> = Vec::new();
    let mut i: usize = 0;
    while i < items.len()
        invariant
            i <= items.len(),
            r.deep_view().len() == i,
            forall|k: int| 0 <= k < i ==> r.deep_view()[k] == prefix@ + items.deep_view()[k],
        decreases items.len() - i,
    {
        let ghost rprev = r.deep_view();
        r.push(prefixed(prefix, items[i].as_str()));
        proof {
            assert(r.deep_view() =~= rprev.push(prefix@ + items.deep_view()[i as int]));
        }
        i = i + 1;
    }
    r
}

/// One `-D` flag per preprocessor definition, `-Dkey=value` when the
/// definition carries a value and `-Dkey` when it does not.
pub fn define_args(defs: &Vec<(String, Option<String>)>) -> (r: Vec<String>)
    ensures
        r.deep_view().len() == defs.len(),
        forall|i: int|
            0 <= i < defs.len() ==> r.deep_view()[i] == (match defs@[i].1 {
                Option::Some(v) => "-D"@ + defs@[i].0@ + "="@ + v@,
                Option::None => "-D"@ + defs@[i].0@,
            }),
{
    let mut r: Vec<String> = Vec::new();
    let mut i: usize = 0;
    while i < defs.len()
        invariant
            i <= defs.len(),
            r.deep_view().len() == i,
            forall|k: int|
                0 <= k < i ==> r.deep_view()[k] == (match defs@[k].1 {
                    Option::Some(v) => "-D"@ + defs@[k].0@ + "="@ + v@,
                    Option::None => "-D"@ + defs@[k].0@,
                }),
        decreases defs.len() - i,
    {
        let ghost rprev = r.deep_view();
        let (key, val) = &defs[i];
        let flag = match val {
            Option::Some(v) => {
                let f = prefixed("-D", key.as_str());
                let f = f.concat("=");
                f.concat(v.as_str())
            },
            Option::None => prefixed("-D", key.as_str()),
        };
        r.push(flag);
        i = i + 1;
        proof {
            assert(r.deep_view() =~= rprev.push(r.deep_view().last()));
        }
    }
    r
}

/// The compiler invocation for one translation unit.
pub open spec fn spec_compile_argv(
    compiler: Seq<char>,
    standard: Seq<char>,
    optimize: Seq<char>,
    cflags: Seq<Seq<char>>,
    includes: Seq<Seq<char>>,
    pic: bool,
    src: Seq<char>,
    obj: Seq<char>,
) -> Seq<Seq<char>> {
    seq![compiler, "-std="@ + standard, "-"@ + optimize] + cflags + includes + seq![
        "-c"@,
        src,
        "-o"@,
        obj,
    ] + if pic {
        seq!["-fPIC"@]
    } else {
        Seq::<Seq<char>>::empty()
    }
}

/// Builds the compile command for one source: standard and optimization
/// flags, extra compiler flags, include flags, then the source and its
/// object path, with `-fPIC` appended for a shared build.
pub fn compile_argv(
    compiler: &str,
    standard: &str,
    optimize: &str,
    cflags: &Vec<String>,
    includes: &Vec<String>,
    kind: BuildKind,
    src: &str,
    obj: &str,
) -> (r: Vec<String>)
    ensures
        r.deep_view() == spec_compile_argv(
            compiler@,
            standard@,
            optimize@,
            cflags.deep_view(),
            includes.deep_view(),
            kind is Shared,
            src@,
            obj@,
        ),
{
    let mut r: Vec<String> = Vec::new();
    push_one(&mut r, compiler.to_owned());
    push_one(&mut r, prefixed("-std=", standard));
    push_one(&mut r, prefixed("-", optimize));
    push_all(&mut r, cflags);
    push_all(&mut r, includes);
    push_one(&mut r, String::from_str("-c"));
    push_one(&mut r, src.to_owned());
    push_one(&mut r, String::from_str("-o"));
    push_one(&mut r, obj.to_owned());
    let pic = match kind {
        BuildKind::Shared => true,
        _ => false,
    };
    if pic {
        push_one(&mut r, String::from_str("-fPIC"));
    }
    proof {
        assert(r.deep_view() =~= spec_compile_argv(
            compiler@,
            standard@,
            optimize@,
            cflags.deep_view(),
            includes.deep_view(),
            pic,
            src@,
            obj@,
        ));
    }
    r
}

/// The linker invocation (the compiler driving the link).
pub open spec fn spec_link_argv(
    compiler: Seq<char>,
    optimize: Seq<char>,
    ldflags: Seq<Seq<char>>,
    lib_dirs: Seq<Seq<char>>,
    libs: Seq<Seq<char>>,
    target: Seq<char>,
    objs: Seq<Seq<char>>,
    shared: bool,
) -> Seq<Seq<char>> {
    seq![compiler, "-"@ + optimize] + ldflags + lib_dirs + libs + seq!["-o"@, target] + objs
        + if shared {
        seq!["-shared"@]
    } else {
        Seq::<Seq<char>>::empty()
    }
}

/// Builds the link command: optimization flag, linker flags, library search
/// paths and names, the target, every object file, and `-shared` for a
/// shared-library build.
pub fn link_argv(
    compiler: &str,
    optimize: &str,
    ldflags: &Vec<String>,
    lib_dirs: &Vec<String>,
    libs: &Vec<String>,
    target: &str,
    objs: &Vec<String>,
    kind: BuildKind,
) -> (r: Vec<String>)
    ensures
        r.deep_view() == spec_link_argv(
            compiler@,
            optimize@,
            ldflags.deep_view(),
            lib_dirs.deep_view(),
            libs.deep_view(),
            target@,
            objs.deep_view(),
            kind is Shared,
        ),
{
    let mut r: Vec<String> = Vec::new();
    push_one(&mut r, compiler.to_owned());
    push_one(&mut r, prefixed("-", optimize));
    push_all(&mut r, ldflags);
    push_all(&mut r, lib_dirs);
    push_all(&mut r, libs);
    push_one(&mut r, String::from_str("-o"));
    push_one(&mut r, target.to_owned());
    push_all(&mut r, objs);
    let shared = match kind {
        BuildKind::Shared => true,
        _ => false,
    };
    if shared {
        push_one(&mut r, String::from_str("-shared"));
    }
    proof {
        assert(r.deep_view() =~= spec_link_argv(
            compiler@,
            optimize@,
            ldflags.deep_view(),
            lib_dirs.deep_view(),
            libs.deep_view(),
            target@,
            objs.deep_view(),
            shared,
        ));
    }
    r
}

/// The archiver invocation for a static library.
pub open spec fn spec_archive_argv(target: Seq<char>, objs: Seq<Seq<char>>) -> Seq<Seq<char>> {
    seq!["ar"@, "rcs"@, target] + objs
}

/// Builds the archive command over all object files.
pub fn archive_argv(target: &str, objs: &Vec<String>) -> (r: Vec<String>)
    ensures
        r.deep_view() == spec_archive_argv(target@, objs.deep_view()),
{
    let mut r: Vec<String> = Vec::new();
    push_one(&mut r, String::from_str("ar"));
    push_one(&mut r, String::from_str("rcs"));
    push_one(&mut r, target.to_owned());
    push_all(&mut r, objs);
    proof {
        assert(r.deep_view() =~= spec_archive_argv(target@, objs.deep_view()));
    }
    r
}

/// The archiver path never smuggles the shared-object flag in: as long as
/// the archive target ends in `.a` and every input ends in `.o`, no element
/// of the archive command is `-shared`.
pub proof fn lemma_archive_argv_never_shared(target: Seq<char>, objs: Seq<Seq<char>>)
    requires
        target.len() >= 2,
        target.subrange(target.len() - 2, target.len() as int) == ".a"@,
        forall|k: int|
            0 <= k < objs.len() ==> objs[k].len() >= 2 && #[trigger] objs[k].subrange(
                objs[k].len() - 2,
                objs[k].len() as int,
            ) == ".o"@,
    ensures
        forall|k: int|
            0 <= k < spec_archive_argv(target, objs).len() ==> spec_archive_argv(target, objs)[k]
                != "-shared"@,
{
    reveal_strlit("ar");
    reveal_strlit("rcs");
    reveal_strlit("-shared");
    reveal_strlit(".a");
    reveal_strlit(".o");
    let a = spec_archive_argv(target, objs);
    assert("-shared"@.len() == 7);
    assert forall|k: int| 0 <= k < a.len() implies a[k] != "-shared"@ by {
        if k == 0 {
            assert(a[k] == "ar"@);
            assert("ar"@.len() == 2);
        } else if k == 1 {
            assert(a[k] == "rcs"@);
            assert("rcs"@.len() == 3);
        } else if k == 2 {
            assert(a[k] == target);
            if target == "-shared"@ {
                assert(target.subrange(target.len() - 2, target.len() as int)[0] == target[5]);
                assert(target[5] == 'e');
                assert(".a"@[0] == '.');
                assert(false);
            }
        } else {
            let o = objs[k - 3];
            assert(a[k] == o);
            assert(o.subrange(o.len() - 2, o.len() as int) == ".o"@);
            if o == "-shared"@ {
                assert(o.subrange(o.len() - 2, o.len() as int)[0] == o[5]);
                assert(o[5] == 'e');
                assert(".o"@[0] == '.');
                assert(false);
            }
        }
    }
}

/// One compilation task: which source (by its position in the source
/// list) and the full compiler command that rebuilds its object.
pub struct CompileJob {
    pub source_index: usize,
    pub argv: Vec<String>,
}

/// The compile command for the source at `idx`, its object placed under
/// `build_dir`.
pub open spec fn spec_compile_job(
    compiler: Seq<char>,
    standard: Seq<char>,
    optimize: Seq<char>,
    cflags: Seq<Seq<char>>,
    includes: Seq<Seq<char>>,
    pic: bool,
    build_dir: Seq<char>,
    src: Seq<char>,
) -> Seq<Seq<char>> {
    spec_compile_argv(
        compiler,
        standard,
        optimize,
        cflags,
        includes,
        pic,
        src,
        build_dir + "/"@ + crate::text::spec_object_name(src),
    )
}

/// One compilation task per stale source: the position of the source and
/// the full compiler command that rebuilds its object under `build_dir`.
pub fn plan_compilations(
    compiler: &str,
    standard: &str,
    optimize: &str,
    cflags: &Vec<String>,
    includes: &Vec<String>,
    kind: BuildKind,
    build_dir: &str,
    sources: &Vec<String>,
    stale: &Vec<usize>,
) -> (r: Vec<CompileJob>)
    requires
        forall|k: int| 0 <= k < stale@.len() ==> (stale@[k] as int) < sources@.len(),
    ensures
        r@.len() == stale@.len(),
        forall|k: int|
            0 <= k < r@.len() ==> (#[trigger] r@[k]).source_index == stale@[k] && r@[k].argv.deep_view()
                == spec_compile_job(
                compiler@,
                standard@,
                optimize@,
                cflags.deep_view(),
                includes.deep_view(),
                kind is Shared,
                build_dir@,
                sources.deep_view()[stale@[k] as int],
            ),
{
    let mut r: Vec<CompileJob> = Vec::new();
    let mut k: usize = 0;
    while k < stale.len()
        invariant
            k <= stale@.len(),
            forall|i: int| 0 <= i < stale@.len() ==> (stale@[i] as int) < sources@.len(),
            r@.len() == k,
            forall|i: int|
                0 <= i < k ==> (#[trigger] r@[i]).source_index == stale@[i] && r@[i].argv.deep_view()
                    == spec_compile_job(
                    compiler@,
                    standard@,
                    optimize@,
                    cflags.deep_view(),
                    includes.deep_view(),
                    kind is Shared,
                    build_dir@,
                    sources.deep_view()[stale@[i] as int],
                ),
        decreases stale@.len() - k,
    {
        proof {
            crate::text::lemma_dv_strings(sources);
        }
        let idx = stale[k];
        let src = sources[idx].as_str();
        let obj = crate::text::join_path(build_dir, crate::text::object_name(src).as_str());
        let argv = compile_argv(
            compiler,
            standard,
            optimize,
            cflags,
            includes,
            kind,
            src,
            obj.as_str(),
        );
        let ghost r0 = r@;
        let ghost av = argv.deep_view();
        r.push(CompileJob { source_index: idx, argv });
        proof {
            assert forall|i: int|
                0 <= i < k + 1 implies (#[trigger] r@[i]).source_index == stale@[i] && r@[i].argv.deep_view()
                == spec_compile_job(
                compiler@,
                standard@,
                optimize@,
                cflags.deep_view(),
                includes.deep_view(),
                kind is Shared,
                build_dir@,
                sources.deep_view()[stale@[i] as int],
            ) by {
                if i < k {
                    assert(r0[i].argv.deep_view() == spec_compile_job(
                        compiler@,
                        standard@,
                        optimize@,
                        cflags.deep_view(),
                        includes.deep_view(),
                        kind is Shared,
                        build_dir@,
                        sources.deep_view()[stale@[i] as int],
                    ));
                    assert(r@[i] == r0[i]);
                } else {
                    assert(r@[i].source_index == idx);
                    assert(idx == stale@[i]);
                    assert(r@[i].argv.deep_view() == av);
                    assert(src@ == sources.deep_view()[stale@[i] as int]);
                    assert(obj@ == build_dir@ + "/"@ + crate::text::spec_object_name(src@));
                    assert(av == spec_compile_argv(
                        compiler@,
                        standard@,
                        optimize@,
                        cflags.deep_view(),
                        includes.deep_view(),
                        kind is Shared,
                        src@,
                        obj@,
                    ));
                }
            }
        }
        k = k + 1;
    }
    r
}

/// A static build, named by the library's own rules, never passes the
/// shared-object flag: with the target file derived by `spec_target_file`
/// for the static kind and every object named by `spec_object_name`, no
/// element of the archive command is `-shared`.
pub proof fn lemma_static_build_never_passes_shared(
    target: Seq<char>,
    srcs: Seq<Seq<char>>,
    objs: Seq<Seq<char>>,
)
    requires
        objs.len() == srcs.len(),
        forall|k: int| 0 <= k < objs.len() ==> #[trigger] objs[k] == spec_object_name(srcs[k]),
    ensures
        forall|k: int|
            0 <= k < spec_archive_argv(spec_target_file(target, BuildKind::Static), objs).len()
                ==> spec_archive_argv(spec_target_file(target, BuildKind::Static), objs)[k]
                != "-shared"@,
{
    reveal_strlit(".a");
    reveal_strlit(".o");
    lemma_with_ext_suffix(target, ".a"@);
    let t = spec_target_file(target, BuildKind::Static);
    assert(t.len() >= 2 && t.subrange(t.len() - 2, t.len() as int) == ".a"@);
    assert forall|k: int| 0 <= k < objs.len() implies objs[k].len() >= 2 && #[trigger] objs[k].subrange(
        objs[k].len() - 2,
        objs[k].len() as int,
    ) == ".o"@ by {
        lemma_with_ext_suffix(spec_basename(srcs[k]), ".o"@);
    }
    lemma_archive_argv_never_shared(t, objs);
}

/// Relinking is needed exactly when the target artifact is missing, when at
/// least one source was recompiled this run, or when some existing object
/// file is newer than the target.
pub open spec fn spec_need_relink(
    target_mtime: Option<u64>,
    recompiled: bool,
    objs: Seq<Option<u64>>,
) -> bool {
    target_mtime is None || recompiled || exists|k: int|
        0 <= k < objs.len() && objs[k] is Some && objs[k].unwrap() > target_mtime.unwrap()
}

/// Decides whether the final artifact must be rebuilt.
pub fn need_relink(target_mtime: Option<u64>, recompiled: bool, objs: &Vec<Option<u64>>) -> (r:
    bool)
    ensures
        r == spec_need_relink(target_mtime, recompiled, objs@),
{
    let tm = match target_mtime {
        Option::None => {
            return true;
        },
        Option::Some(t) => t,
    };
    if recompiled {
        return true;
    }
    let mut k: usize = 0;
    while k < objs.len()
        invariant
            k <= objs.len(),
            target_mtime == Option::Some(tm),
            !recompiled,
            forall|i: int| 0 <= i < k ==> !(objs@[i] is Some && objs@[i].unwrap() > tm),
        decreases objs.len() - k,
    {
        match objs[k] {
            Option::Some(m) => {
                if m > tm {
                    return true;
                }
            },
            Option::None => {},
        }
        k = k + 1;
    }
    false
}

} // verus!
