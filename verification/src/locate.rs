//! Locating sources and system packages.
//!
//! Glob expansion and the pkg-config query read the machine they run on,
//! so the calls stand behind trusted wrappers that promise only the shape
//! of their answers; everything the engine decides from those answers is
//! verified here.

use vstd::prelude::*;
use crate::command::{define_args, prefixed_args, push_all};
use crate::text::{join_path, lemma_dv_strings, str_eq};

verus! {

broadcast use vstd::seq_lib::lemma_seq_contains_after_push;

/// No path appears twice.
pub open spec fn distinct_strs(s: Seq<Seq<char>>) -> bool {
    forall|i: int, j: int| 0 <= i < j < s.len() ==> s[i] != s[j]
}

/// `acc` extended with the elements of `found` it does not yet hold, in
/// order of first appearance.
pub open spec fn spec_merge_new(acc: Seq<Seq<char>>, found: Seq<Seq<char>>) -> Seq<Seq<char>>
    decreases found.len(),
{
    if found.len() == 0 {
        acc
    } else if acc.contains(found[0]) {
        spec_merge_new(acc, found.drop_first())
    } else {
        spec_merge_new(acc.push(found[0]), found.drop_first())
    }
}

/// The flag begins with the given option prefix.
pub open spec fn spec_has_prefix(s: Seq<char>, p: Seq<char>) -> bool {
    s.len() >= p.len() && s.subrange(0, p.len() as int) == p
}

/// An include-path flag: `-I` and a directory.
pub open spec fn spec_include_flag(s: Seq<char>) -> bool {
    spec_has_prefix(s, "-I"@)
}

/// A preprocessor definition flag: `-D` and a definition.
pub open spec fn spec_define_flag(s: Seq<char>) -> bool {
    spec_has_prefix(s, "-D"@)
}

/// A linker flag: a `-L` search path or a `-l` library name.
pub open spec fn spec_link_flag(s: Seq<char>) -> bool {
    spec_has_prefix(s, "-L"@) || spec_has_prefix(s, "-l"@)
}

/// What one system package provides, as plain values.
pub struct PkgLib {
    pub include_paths: Vec<String>,
    pub defines: Vec<(String, Option<String>)>,
    pub link_paths: Vec<String>,
    pub libs: Vec<String>,
}

/// Relies on glob::glob: expands one pattern against the filesystem. What
/// matches depends on the disk, so nothing is promised of the paths that
/// come back; a bad pattern or an unreadable directory is an error.
#[verifier::external_body]
fn expand_glob(pattern: &str) -> (r: Result<Vec<String>, String>) {
    let mut out: Vec<String> = Vec::new();
    for entry in glob::glob(pattern).map_err(|e| e.msg.to_string())? {
        out.push(entry.map_err(|e| e.to_string())?.to_string_lossy().into_owned());
    }
    Result::Ok(out)
}

/// Relies on pkg_config::probe_library: asks the system's pkg-config for
/// one package. The answer depends on the machine; its defines come in no
/// fixed order, so nothing is promised of the contents.
#[verifier::external_body]
fn probe_pkg(name: &str) -> (r: Option<PkgLib>) {
    match pkg_config::probe_library(name) {
        Result::Ok(lib) => Option::Some(
            PkgLib {
                include_paths: lib.include_paths.iter().map(
                    |p| p.to_string_lossy().into_owned(),
                ).collect(),
                defines: lib.defines.iter().map(|(k, v)| (k.clone(), v.clone())).collect(),
                link_paths: lib.link_paths.iter().map(
                    |p| p.to_string_lossy().into_owned(),
                ).collect(),
                libs: lib.libs.clone(),
            },
        ),
        Result::Err(_) => Option::None,
    }
}

/// Relies on num_cpus::get: the number of logical CPUs available to this
/// process; its documentation promises at least 1.
#[verifier::external_body]
pub fn cpu_count() -> (r: usize)
    ensures
        r >= 1,
{
    num_cpus::get()
}

/// Whether some element of `v` equals `s`.
pub fn contains_str(v: &Vec<String>, s: &str) -> (r: bool)
    ensures
        r == v.deep_view().contains(s@),
{
    let mut i: usize = 0;
    while i < v.len()
        invariant
            i <= v@.len(),
            forall|k: int| 0 <= k < i ==> v.deep_view()[k] != s@,
        decreases v@.len() - i,
    {
        if str_eq(v[i].as_str(), s) {
            proof {
                assert(v.deep_view()[i as int] =~= v@[i as int]@);
                assert(v.deep_view()[i as int] == s@);
            }
            return true;
        }
        proof {
            assert(v.deep_view()[i as int] =~= v@[i as int]@);
        }
        i = i + 1;
    }
    false
}

/// Appends the paths of `found` that `out` does not yet hold, keeping
/// first-occurrence order; a deduplicated accumulator stays deduplicated.
pub fn merge_new(out: &mut Vec<String>, found: &Vec<String>)
    ensures
        final(out).deep_view() == spec_merge_new(old(out).deep_view(), found.deep_view()),
        distinct_strs(old(out).deep_view()) ==> distinct_strs(final(out).deep_view()),
{
    let ghost o0 = out.deep_view();
    let mut k: usize = 0;
    proof {
        assert(found.deep_view().skip(0) =~= found.deep_view());
    }
    while k < found.len()
        invariant
            k <= found@.len(),
            spec_merge_new(o0, found.deep_view()) == spec_merge_new(
                out.deep_view(),
                found.deep_view().skip(k as int),
            ),
            distinct_strs(o0) ==> distinct_strs(out.deep_view()),
        decreases found@.len() - k,
    {
        proof {
            lemma_dv_strings(found);
            assert(found.deep_view().skip(k as int)[0] == found.deep_view()[k as int]);
            assert(found.deep_view().skip(k as int).drop_first() =~= found.deep_view().skip(
                k as int + 1,
            ));
        }
        if !contains_str(out, found[k].as_str()) {
            let ghost d0 = out.deep_view();
            let ghost fv = found@[k as int]@;
            out.push(found[k].clone());
            proof {
                assert(out.deep_view() =~= d0.push(fv));
                if distinct_strs(o0) {
                    assert forall|i: int, j: int|
                        0 <= i < j < out.deep_view().len() implies out.deep_view()[i]
                        != out.deep_view()[j] by {
                        if j == out.deep_view().len() - 1 {
                            assert(!d0.contains(fv));
                        }
                    }
                }
            }
        }
        k = k + 1;
    }
    proof {
        assert(found.deep_view().skip(found@.len() as int) =~= Seq::<Seq<char>>::empty());
    }
}

/// Expands every source pattern against the project root and merges the
/// matches into one deduplicated list: no path appears twice, whatever the
/// patterns have in common, and no patterns locate no sources. The first
/// pattern that fails to expand fails the whole location step.
pub fn locate_sources(root: &str, patterns: &Vec<String>) -> (r: Result<Vec<String>, String>)
    ensures
        patterns@.len() == 0 ==> (r matches Ok(v) && v@.len() == 0),
        r matches Ok(v) ==> distinct_strs(v.deep_view()),
{
    let mut out: Vec<String> = Vec::new();
    let mut p: usize = 0;
    proof {
        assert(distinct_strs(out.deep_view()));
    }
    while p < patterns.len()
        invariant
            p <= patterns@.len(),
            p == 0 ==> out@.len() == 0,
            distinct_strs(out.deep_view()),
        decreases patterns@.len() - p,
    {
        let joined = join_path(root, patterns[p].as_str());
        let found = match expand_glob(joined.as_str()) {
            Result::Ok(f) => f,
            Result::Err(e) => {
                return Result::Err(e);
            },
        };
        merge_new(&mut out, &found);
        p = p + 1;
    }
    Result::Ok(out)
}

/// Folds what one package provides into compiler and linker arguments:
/// `-I` per include path, `-D` per definition, then `-L` per search path
/// followed by `-l` per library name.
pub fn pkg_lib_args(lib: &PkgLib) -> (r: (Vec<String>, Vec<String>, Vec<String>))
    ensures
        r.0.deep_view().len() == lib.include_paths@.len(),
        forall|i: int|
            0 <= i < lib.include_paths@.len() ==> r.0.deep_view()[i] == "-I"@
                + lib.include_paths.deep_view()[i],
        r.1.deep_view().len() == lib.defines@.len(),
        forall|i: int|
            0 <= i < lib.defines@.len() ==> r.1.deep_view()[i] == (match lib.defines@[i].1 {
                Option::Some(v) => "-D"@ + lib.defines@[i].0@ + "="@ + v@,
                Option::None => "-D"@ + lib.defines@[i].0@,
            }),
        r.2.deep_view().len() == lib.link_paths@.len() + lib.libs@.len(),
        forall|i: int|
            0 <= i < lib.link_paths@.len() ==> r.2.deep_view()[i] == "-L"@
                + lib.link_paths.deep_view()[i],
        forall|i: int|
            lib.link_paths@.len() <= i < lib.link_paths@.len() + lib.libs@.len()
                ==> r.2.deep_view()[i] == "-l"@ + lib.libs.deep_view()[i
                - lib.link_paths@.len()],
        forall|i: int|
            0 <= i < r.0.deep_view().len() ==> spec_include_flag(#[trigger] r.0.deep_view()[i]),
        forall|i: int|
            0 <= i < r.1.deep_view().len() ==> spec_define_flag(#[trigger] r.1.deep_view()[i]),
        forall|i: int|
            0 <= i < r.2.deep_view().len() ==> spec_link_flag(#[trigger] r.2.deep_view()[i]),
{
    let inc = prefixed_args("-I", &lib.include_paths);
    let defs = define_args(&lib.defines);
    let mut ld = prefixed_args("-L", &lib.link_paths);
    let libflags = prefixed_args("-l", &lib.libs);
    push_all(&mut ld, &libflags);
    proof {
        reveal_strlit("-I");
        reveal_strlit("-D");
        reveal_strlit("-L");
        reveal_strlit("-l");
        assert forall|i: int|
            0 <= i < inc.deep_view().len() implies spec_include_flag(
            #[trigger] inc.deep_view()[i],
        ) by {
            assert(inc.deep_view()[i].subrange(0, "-I"@.len() as int) =~= "-I"@);
        }
        assert forall|i: int|
            0 <= i < defs.deep_view().len() implies spec_define_flag(
            #[trigger] defs.deep_view()[i],
        ) by {
            assert(defs.deep_view()[i].subrange(0, "-D"@.len() as int) =~= "-D"@);
        }
        assert forall|i: int|
            0 <= i < ld.deep_view().len() implies spec_link_flag(#[trigger] ld.deep_view()[i]) by {
            if i < lib.link_paths@.len() {
                assert(ld.deep_view()[i].subrange(0, "-L"@.len() as int) =~= "-L"@);
            } else {
                assert(ld.deep_view()[i].subrange(0, "-l"@.len() as int) =~= "-l"@);
            }
        }
    }
    (inc, defs, ld)
}

/// Probes every declared package and accumulates its flags; a package that
/// pkg-config cannot find contributes nothing and is reported back by
/// name, the build going on without it. Whatever the machine answered,
/// every accumulated flag has the shape its list promises, no packages
/// yield no flags, and only asked-for packages are reported failed.
pub fn resolve_pkg_flags(pkg_deps: &Vec<String>) -> (r: (Vec<String>, Vec<String>, Vec<String>, Vec<
    String,
>))
    ensures
        pkg_deps@.len() == 0 ==> r.0@.len() == 0 && r.1@.len() == 0 && r.2@.len() == 0
            && r.3@.len() == 0,
        forall|k: int|
            0 <= k < r.0.deep_view().len() ==> spec_include_flag(#[trigger] r.0.deep_view()[k]),
        forall|k: int|
            0 <= k < r.1.deep_view().len() ==> spec_define_flag(#[trigger] r.1.deep_view()[k]),
        forall|k: int|
            0 <= k < r.2.deep_view().len() ==> spec_link_flag(#[trigger] r.2.deep_view()[k]),
        forall|k: int|
            0 <= k < r.3.deep_view().len() ==> pkg_deps.deep_view().contains(
                #[trigger] r.3.deep_view()[k],
            ),
{
    let mut inc: Vec<String> = Vec::new();
    let mut defs: Vec<String> = Vec::new();
    let mut ld: Vec<String> = Vec::new();
    let mut failed: Vec<String> = Vec::new();
    let mut i: usize = 0;
    while i < pkg_deps.len()
        invariant
            i <= pkg_deps@.len(),
            i == 0 ==> inc@.len() == 0 && defs@.len() == 0 && ld@.len() == 0 && failed@.len() == 0,
            forall|k: int|
                0 <= k < inc.deep_view().len() ==> spec_include_flag(
                    #[trigger] inc.deep_view()[k],
                ),
            forall|k: int|
                0 <= k < defs.deep_view().len() ==> spec_define_flag(
                    #[trigger] defs.deep_view()[k],
                ),
            forall|k: int|
                0 <= k < ld.deep_view().len() ==> spec_link_flag(#[trigger] ld.deep_view()[k]),
            forall|k: int|
                0 <= k < failed.deep_view().len() ==> pkg_deps.deep_view().contains(
                    #[trigger] failed.deep_view()[k],
                ),
        decreases pkg_deps@.len() - i,
    {
        match probe_pkg(pkg_deps[i].as_str()) {
            Option::Some(lib) => {
                let (li, ldf, lld) = pkg_lib_args(&lib);
                push_all(&mut inc, &li);
                push_all(&mut defs, &ldf);
                push_all(&mut ld, &lld);
            },
            Option::None => {
                let ghost f0 = failed.deep_view();
                let ghost nv = pkg_deps@[i as int]@;
                failed.push(pkg_deps[i].clone());
                proof {
                    assert(failed.deep_view() =~= f0.push(nv));
                    assert(pkg_deps.deep_view()[i as int] =~= nv);
                }
            },
        }
        i = i + 1;
    }
    (inc, defs, ld, failed)
}

} // verus!
