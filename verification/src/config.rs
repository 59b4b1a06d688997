//! The normalized build configuration and its extraction from a parsed
//! key-value tree.
//!
//! The concrete configuration syntaxes are parsed elsewhere; this module
//! consumes a generic tree of sections, keys and values and decides which
//! keys are required, which are optional, and how languages and
//! dependencies are split out of the specification section.

use vstd::prelude::*;
use crate::text::str_eq;

verus! {

broadcast use vstd::seq_lib::lemma_seq_contains_after_push;

/// A parsed configuration value: a string, a number (kept in its textual
/// form), a boolean, a list, or a table of key-value entries in file order.
pub enum CfgValue {
    Str(String),
    Num(String),
    Bool(bool),
    List(Vec<CfgValue>),
    Table(Vec<(String, CfgValue)>),
}

/// Project metadata.
pub struct Metadata {
    pub name: String,
    pub version: String,
    pub authors: Option<String>,
    pub license: Option<String>,
}

/// Human-readable description.
pub struct Description {
    pub summary: String,
    pub long: String,
}

/// Declared languages and dependencies.
pub struct Specs {
    pub languages: Vec<String>,
    pub dependencies: Vec<(String, String)>,
}

/// Optional runtime hints.
pub struct RuntimeSpec {
    pub priority: Option<String>,
    pub auto_restart: Option<bool>,
}

/// The native build specification.
pub struct BuildSpec {
    pub target: String,
    pub sources: Vec<String>,
    pub include_dirs: Vec<String>,
    pub compiler: String,
    pub standard: String,
    pub optimize: String,
    pub cflags: Option<String>,
    pub ldflags: Option<String>,
    pub lib_dirs: Option<Vec<String>>,
    pub libs: Option<Vec<String>>,
    pub pkg_dependencies: Option<Vec<String>>,
    pub build_type: String,
    pub native: Option<bool>,
}

/// A whole parsed project configuration.
pub struct BuildConfig {
    pub metadata: Metadata,
    pub description: Description,
    pub specs: Specs,
    pub runtime: Option<RuntimeSpec>,
    pub build: Option<BuildSpec>,
}

/// First value stored under `key`, if any.
pub open spec fn table_get(t: Seq<(String, CfgValue)>, key: Seq<char>) -> Option<CfgValue>
    decreases t.len(),
{
    if t.len() == 0 {
        Option::None
    } else if t[0].0@ == key {
        Option::Some(t[0].1)
    } else {
        table_get(t.drop_first(), key)
    }
}

/// The string reading of a value: strings and numbers read as themselves,
/// booleans as their names, lists and tables not at all.
pub open spec fn str_of(v: CfgValue) -> Option<Seq<char>> {
    match v {
        CfgValue::Str(s) => Option::Some(s@),
        CfgValue::Num(s) => Option::Some(s@),
        CfgValue::Bool(b) => Option::Some(
            if b {
                "true"@
            } else {
                "false"@
            },
        ),
        _ => Option::None,
    }
}

/// The boolean reading of a value: only a boolean has one.
pub open spec fn bool_of(v: CfgValue) -> Option<bool> {
    match v {
        CfgValue::Bool(b) => Option::Some(b),
        _ => Option::None,
    }
}

/// String reading of the value stored under `key`.
pub open spec fn spec_get_string(t: Seq<(String, CfgValue)>, key: Seq<char>) -> Option<Seq<char>> {
    match table_get(t, key) {
        Option::Some(v) => str_of(v),
        Option::None => Option::None,
    }
}

/// Boolean reading of the value stored under `key`.
pub open spec fn spec_get_bool(t: Seq<(String, CfgValue)>, key: Seq<char>) -> Option<bool> {
    match table_get(t, key) {
        Option::Some(v) => bool_of(v),
        Option::None => Option::None,
    }
}

/// The strings of a list, provided every element reads as one.
pub open spec fn strs_of_items(items: Seq<CfgValue>) -> Option<Seq<Seq<char>>>
    decreases items.len(),
{
    if items.len() == 0 {
        Option::Some(Seq::empty())
    } else {
        match (str_of(items[0]), strs_of_items(items.drop_first())) {
            (Option::Some(s), Option::Some(rest)) => Option::Some(seq![s] + rest),
            _ => Option::None,
        }
    }
}

/// The strings of a list, skipping elements that do not read as strings.
pub open spec fn strs_of_items_lossy(items: Seq<CfgValue>) -> Seq<Seq<char>>
    decreases items.len(),
{
    if items.len() == 0 {
        Seq::empty()
    } else {
        match str_of(items[0]) {
            Option::Some(s) => seq![s] + strs_of_items_lossy(items.drop_first()),
            Option::None => strs_of_items_lossy(items.drop_first()),
        }
    }
}

/// Strict string-list reading of the value under `key`: the value must be a
/// list and every element must read as a string.
pub open spec fn spec_get_str_list(t: Seq<(String, CfgValue)>, key: Seq<char>) -> Option<
    Seq<Seq<char>>,
> {
    match table_get(t, key) {
        Option::Some(CfgValue::List(items)) => strs_of_items(items@),
        _ => Option::None,
    }
}

/// Lossy string-list reading: the value must be a list; non-string elements
/// are dropped.
pub open spec fn spec_get_str_list_lossy(t: Seq<(String, CfgValue)>, key: Seq<char>) -> Option<
    Seq<Seq<char>>,
> {
    match table_get(t, key) {
        Option::Some(CfgValue::List(items)) => Option::Some(
            strs_of_items_lossy(items@),
        ),
        _ => Option::None,
    }
}

/// The sub-table stored under `key`, if the value there is a table.
pub open spec fn spec_get_table(t: Seq<(String, CfgValue)>, key: Seq<char>) -> Option<
    Seq<(String, CfgValue)>,
> {
    match table_get(t, key) {
        Option::Some(CfgValue::Table(m)) => Option::Some(m@),
        _ => Option::None,
    }
}

/// The configuration file names this engine recognizes, in the order they
/// are probed, each with the syntax it is parsed as.
pub fn config_candidates() -> (r: Vec<(String, String)>)
    ensures
        r.deep_view() == seq![
            ("hbuild.config"@, "hk"@),
            ("hbuilt.config"@, "toml"@),
            ("hbuily.config"@, "yaml"@),
            ("hbuilj.config"@, "json"@),
            ("hbuilh.config"@, "hcl"@),
        ],
{
    let mut r: Vec<(String, String)> = Vec::new();
    r.push((String::from_str("hbuild.config"), String::from_str("hk")));
    r.push((String::from_str("hbuilt.config"), String::from_str("toml")));
    r.push((String::from_str("hbuily.config"), String::from_str("yaml")));
    r.push((String::from_str("hbuilj.config"), String::from_str("json")));
    r.push((String::from_str("hbuilh.config"), String::from_str("hcl")));
    proof {
        assert(r.deep_view() =~= seq![
            ("hbuild.config"@, "hk"@),
            ("hbuilt.config"@, "toml"@),
            ("hbuily.config"@, "yaml"@),
            ("hbuilj.config"@, "json"@),
            ("hbuilh.config"@, "hcl"@),
        ]);
    }
    r
}

/// Looks up `key` in a table, first match.
pub fn get_entry<'a>(t: &'a Vec<(String, CfgValue)>, key: &str) -> (r: Option<&'a CfgValue>)
    ensures
        match r {
            Option::Some(v) => table_get(t@, key@) == Option::Some(*v),
            Option::None => table_get(t@, key@) is None,
        },
{
    let mut i: usize = 0;
    proof {
        assert(t@.skip(0) =~= t@);
    }
    while i < t.len()
        invariant
            i <= t@.len(),
            table_get(t@, key@) == table_get(t@.skip(i as int), key@),
        decreases t@.len() - i,
    {
        proof {
            assert(t@.skip(i as int)[0] == t@[i as int]);
            assert(t@.skip(i as int).drop_first() =~= t@.skip(i as int + 1));
        }
        if str_eq(t[i].0.as_str(), key) {
            return Option::Some(&t[i].1);
        }
        i = i + 1;
    }
    Option::None
}

/// Reads a value as a string, as the configuration syntax does: strings and
/// numbers as themselves, booleans as `true`/`false`.
pub fn value_as_string(v: &CfgValue) -> (r: Option<String>)
    ensures
        match r {
            Option::Some(s) => str_of(*v) == Option::Some(s@),
            Option::None => str_of(*v) is None,
        },
{
    match v {
        CfgValue::Str(s) => Option::Some(s.clone()),
        CfgValue::Num(s) => Option::Some(s.clone()),
        CfgValue::Bool(b) => {
            if *b {
                Option::Some(String::from_str("true"))
            } else {
                Option::Some(String::from_str("false"))
            }
        },
        _ => Option::None,
    }
}

/// String stored under `key`, if present and readable as one.
pub fn get_string(t: &Vec<(String, CfgValue)>, key: &str) -> (r: Option<String>)
    ensures
        match r {
            Option::Some(s) => spec_get_string(t@, key@) == Option::Some(s@),
            Option::None => spec_get_string(t@, key@) is None,
        },
{
    match get_entry(t, key) {
        Option::Some(v) => value_as_string(v),
        Option::None => Option::None,
    }
}

/// Boolean stored under `key`, if present and a boolean.
pub fn get_bool(t: &Vec<(String, CfgValue)>, key: &str) -> (r: Option<bool>)
    ensures
        r == spec_get_bool(t@, key@),
{
    match get_entry(t, key) {
        Option::Some(v) => match v {
            CfgValue::Bool(b) => Option::Some(*b),
            _ => Option::None,
        },
        Option::None => Option::None,
    }
}

/// Reads every element of a list as a string; `None` when one is not.
fn items_as_strings(items: &Vec<CfgValue>) -> (r: Option<Vec<String>>)
    ensures
        match r {
            Option::Some(v) => strs_of_items(items@) == Option::Some(v.deep_view()),
            Option::None => strs_of_items(items@) is None,
        },
{
    let mut out: Vec<String> = Vec::new();
    let mut i: usize = 0;
    proof {
        assert(items@.skip(0) =~= items@);
        match strs_of_items(items@) {
            Option::Some(rest) => {
                assert(out.deep_view() + rest =~= rest);
            },
            Option::None => {},
        }
    }
    while i < items.len()
        invariant
            i <= items@.len(),
            strs_of_items(items@.skip(i as int)) matches Option::Some(rest) ==>
                strs_of_items(items@) == Option::Some(out.deep_view() + rest),
            strs_of_items(items@.skip(i as int)) is None ==> strs_of_items(
                items@,
            ) is None,
        decreases items@.len() - i,
    {
        proof {
            assert(items@.skip(i as int)[0] == items@[i as int]);
            assert(items@.skip(i as int).drop_first() =~= items@.skip(
                i as int + 1,
            ));
        }
        match value_as_string(&items[i]) {
            Option::Some(s) => {
                let ghost o0 = out.deep_view();
                let ghost sv = s@;
                out.push(s);
                proof {
                    assert(out.deep_view() =~= o0.push(sv));
                    assert forall|rest: Seq<Seq<char>>|
                        o0 + (seq![sv] + rest) =~= o0.push(sv) + rest by {}
                }
            },
            Option::None => {
                return Option::None;
            },
        }
        i = i + 1;
    }
    proof {
        assert(items@.skip(items@.len() as int) =~= Seq::<CfgValue>::empty());
        assert(out.deep_view() + Seq::<Seq<char>>::empty() =~= out.deep_view());
    }
    Option::Some(out)
}

/// Reads the elements of a list that are strings, dropping the rest.
fn items_as_strings_lossy(items: &Vec<CfgValue>) -> (r: Vec<String>)
    ensures
        r.deep_view() == strs_of_items_lossy(items@),
{
    let mut out: Vec<String> = Vec::new();
    let mut i: usize = 0;
    proof {
        assert(items@.skip(0) =~= items@);
        assert(out.deep_view() + strs_of_items_lossy(items@) =~= strs_of_items_lossy(
            items@,
        ));
    }
    while i < items.len()
        invariant
            i <= items@.len(),
            out.deep_view() + strs_of_items_lossy(items@.skip(i as int))
                == strs_of_items_lossy(items@),
        decreases items@.len() - i,
    {
        proof {
            assert(items@.skip(i as int)[0] == items@[i as int]);
            assert(items@.skip(i as int).drop_first() =~= items@.skip(
                i as int + 1,
            ));
        }
        match value_as_string(&items[i]) {
            Option::Some(s) => {
                let ghost o0 = out.deep_view();
                let ghost sv = s@;
                out.push(s);
                proof {
                    assert(out.deep_view() =~= o0.push(sv));
                    assert(o0 + (seq![sv] + strs_of_items_lossy(
                        items@.skip(i as int + 1),
                    )) =~= o0.push(sv) + strs_of_items_lossy(items@.skip(i as int + 1)));
                }
            },
            Option::None => {},
        }
        i = i + 1;
    }
    proof {
        assert(items@.skip(items@.len() as int) =~= Seq::<CfgValue>::empty());
        assert(out.deep_view() + Seq::<Seq<char>>::empty() =~= out.deep_view());
    }
    out
}

/// Strict string list stored under `key`.
pub fn get_str_list(t: &Vec<(String, CfgValue)>, key: &str) -> (r: Option<Vec<String>>)
    ensures
        match r {
            Option::Some(v) => spec_get_str_list(t@, key@) == Option::Some(v.deep_view()),
            Option::None => spec_get_str_list(t@, key@) is None,
        },
{
    match get_entry(t, key) {
        Option::Some(v) => match v {
            CfgValue::List(items) => items_as_strings(items),
            _ => Option::None,
        },
        Option::None => Option::None,
    }
}

/// Lossy string list stored under `key`.
pub fn get_str_list_lossy(t: &Vec<(String, CfgValue)>, key: &str) -> (r: Option<Vec<String>>)
    ensures
        match r {
            Option::Some(v) => spec_get_str_list_lossy(t@, key@) == Option::Some(v.deep_view()),
            Option::None => spec_get_str_list_lossy(t@, key@) is None,
        },
{
    match get_entry(t, key) {
        Option::Some(v) => match v {
            CfgValue::List(items) => Option::Some(items_as_strings_lossy(items)),
            _ => Option::None,
        },
        Option::None => Option::None,
    }
}


/// Sub-table under `key`, if present and a table.
pub fn get_table<'a>(t: &'a Vec<(String, CfgValue)>, key: &str) -> (r: Option<&'a Vec<(String, CfgValue)>>)
    ensures
        match r {
            Option::Some(m) => spec_get_table(t@, key@) == Option::Some(m@),
            Option::None => spec_get_table(t@, key@) is None,
        },
{
    match get_entry(t, key) {
        Option::Some(v) => match v {
            CfgValue::Table(m) => Option::Some(m),
            _ => Option::None,
        },
        Option::None => Option::None,
    }
}

/// The declared languages of a specification section: its keys, in order,
/// whose value is a plain string — the `dependencies` key never among them.
pub open spec fn spec_languages(m: Seq<(String, CfgValue)>) -> Seq<Seq<char>>
    decreases m.len(),
{
    if m.len() == 0 {
        Seq::empty()
    } else {
        let rest = spec_languages(m.drop_first());
        if m[0].0@ != "dependencies"@ && m[0].1 is Str {
            seq![m[0].0@] + rest
        } else {
            rest
        }
    }
}

/// The name-version pairs of one `dependencies` table: entries whose value
/// reads as a string, in order.
pub open spec fn spec_dep_pairs(sub: Seq<(String, CfgValue)>) -> Seq<(Seq<char>, Seq<char>)>
    decreases sub.len(),
{
    if sub.len() == 0 {
        Seq::empty()
    } else {
        let rest = spec_dep_pairs(sub.drop_first());
        match str_of(sub[0].1) {
            Option::Some(s) => seq![(sub[0].0@, s)] + rest,
            Option::None => rest,
        }
    }
}

/// All dependencies of a specification section: the readable pairs of
/// every entry named `dependencies` that is a table.
pub open spec fn spec_dependencies(m: Seq<(String, CfgValue)>) -> Seq<(Seq<char>, Seq<char>)>
    decreases m.len(),
{
    if m.len() == 0 {
        Seq::empty()
    } else {
        let rest = spec_dependencies(m.drop_first());
        (match m[0] {
            (k, CfgValue::Table(sub)) => if k@ == "dependencies"@ {
                spec_dep_pairs(sub@)
            } else {
                Seq::empty()
            },
            _ => Seq::empty(),
        }) + rest
    }
}

/// Splits a specification section into declared languages and declared
/// dependencies.
pub fn split_specs(m: &Vec<(String, CfgValue)>) -> (r: (Vec<String>, Vec<(String, String)>))
    ensures
        r.0.deep_view() == spec_languages(m@),
        r.1.deep_view() == spec_dependencies(m@),
{
    let mut langs: Vec<String> = Vec::new();
    let mut deps: Vec<(String, String)> = Vec::new();
    let mut i: usize = 0;
    proof {
        assert(m@.skip(0) =~= m@);
        assert(langs.deep_view() + spec_languages(m@) =~= spec_languages(m@));
        assert(deps.deep_view() + spec_dependencies(m@) =~= spec_dependencies(m@));
    }
    while i < m.len()
        invariant
            i <= m@.len(),
            langs.deep_view() + spec_languages(m@.skip(i as int)) == spec_languages(m@),
            deps.deep_view() + spec_dependencies(m@.skip(i as int)) == spec_dependencies(m@),
        decreases m@.len() - i,
    {
        proof {
            assert(m@.skip(i as int)[0] == m@[i as int]);
            assert(m@.skip(i as int).drop_first() =~= m@.skip(i as int + 1));
        }
        let key = m[i].0.as_str();
        if str_eq(key, "dependencies") {
            match &m[i].1 {
                CfgValue::Table(sub) => {
                    let ghost dbase = deps.deep_view();
                    let mut j: usize = 0;
                    proof {
                        assert(sub@.skip(0) =~= sub@);
                        assert(deps.deep_view() + Seq::<(Seq<char>, Seq<char>)>::empty()
                            =~= deps.deep_view());
                    }
                    while j < sub.len()
                        invariant
                            j <= sub@.len(),
                            deps.deep_view() + spec_dep_pairs(sub@.skip(j as int)) == dbase
                                + spec_dep_pairs(sub@),
                        decreases sub@.len() - j,
                    {
                        proof {
                            assert(sub@.skip(j as int)[0] == sub@[j as int]);
                            assert(sub@.skip(j as int).drop_first() =~= sub@.skip(j as int + 1));
                        }
                        match value_as_string(&sub[j].1) {
                            Option::Some(s) => {
                                let ghost d0 = deps.deep_view();
                                let ghost kv = sub@[j as int].0@;
                                let ghost sv = s@;
                                deps.push((sub[j].0.clone(), s));
                                proof {
                                    assert(deps.deep_view() =~= d0.push((kv, sv)));
                                    assert(d0 + (seq![(kv, sv)] + spec_dep_pairs(
                                        sub@.skip(j as int + 1),
                                    )) =~= d0.push((kv, sv)) + spec_dep_pairs(
                                        sub@.skip(j as int + 1),
                                    ));
                                }
                            },
                            Option::None => {},
                        }
                        j = j + 1;
                    }
                    proof {
                        assert(sub@.skip(sub@.len() as int) =~= Seq::<(String, CfgValue)>::empty());
                        assert(deps.deep_view() + Seq::<(Seq<char>, Seq<char>)>::empty()
                            =~= deps.deep_view());
                    }
                },
                _ => {},
            }
        } else {
            match &m[i].1 {
                CfgValue::Str(_) => {
                    let ghost l0 = langs.deep_view();
                    let ghost kv = m@[i as int].0@;
                    langs.push(m[i].0.clone());
                    proof {
                        assert(langs.deep_view() =~= l0.push(kv));
                        assert(l0 + (seq![kv] + spec_languages(m@.skip(i as int + 1))) =~= l0.push(
                            kv,
                        ) + spec_languages(m@.skip(i as int + 1)));
                    }
                },
                _ => {},
            }
        }
        i = i + 1;
    }
    proof {
        assert(m@.skip(m@.len() as int) =~= Seq::<(String, CfgValue)>::empty());
        assert(langs.deep_view() + Seq::<Seq<char>>::empty() =~= langs.deep_view());
        assert(deps.deep_view() + Seq::<(Seq<char>, Seq<char>)>::empty() =~= deps.deep_view());
    }
    (langs, deps)
}

/// The metadata section parses: it exists, with a name and a version.
pub open spec fn spec_meta_ok(top: Seq<(String, CfgValue)>) -> bool {
    &&& spec_get_table(top, "metadata"@) is Some
    &&& spec_get_string(spec_get_table(top, "metadata"@).unwrap(), "name"@) is Some
    &&& spec_get_string(spec_get_table(top, "metadata"@).unwrap(), "version"@) is Some
}

/// The description section parses: it exists, with a summary and a long text.
pub open spec fn spec_desc_ok(top: Seq<(String, CfgValue)>) -> bool {
    &&& spec_get_table(top, "description"@) is Some
    &&& spec_get_string(spec_get_table(top, "description"@).unwrap(), "summary"@) is Some
    &&& spec_get_string(spec_get_table(top, "description"@).unwrap(), "long"@) is Some
}

/// The build section, when present, has every required key.
pub open spec fn spec_build_ok(top: Seq<(String, CfgValue)>) -> bool {
    match spec_get_table(top, "build"@) {
        Option::None => true,
        Option::Some(b) => {
            &&& spec_get_string(b, "target"@) is Some
            &&& spec_get_str_list(b, "sources"@) is Some
            &&& spec_get_str_list(b, "include_dirs"@) is Some
            &&& spec_get_string(b, "compiler"@) is Some
            &&& spec_get_string(b, "standard"@) is Some
            &&& spec_get_string(b, "optimize"@) is Some
            &&& spec_get_string(b, "build_type"@) is Some
        },
    }
}

/// A configuration tree normalizes exactly when its required sections and
/// keys are present and well-typed.
pub open spec fn spec_config_ok(top: Seq<(String, CfgValue)>) -> bool {
    &&& spec_meta_ok(top)
    &&& spec_desc_ok(top)
    &&& spec_get_table(top, "specs"@) is Some
    &&& spec_build_ok(top)
}

/// Normalizes a parsed configuration tree into a `BuildConfig`: metadata,
/// description and specification sections are required (name, version,
/// summary and long text within them); the runtime section and the build
/// section are optional, but a present build section must carry its
/// target, sources, include directories, compiler, standard, optimization
/// level and build type.
pub fn config_from_tree(top: &Vec<(String, CfgValue)>) -> (r: Result<BuildConfig, String>)
    ensures
        r is Ok <==> spec_config_ok(top@),
        r matches Ok(c) ==> {
            let meta = spec_get_table(top@, "metadata"@).unwrap();
            let desc = spec_get_table(top@, "description"@).unwrap();
            let sp = spec_get_table(top@, "specs"@).unwrap();
            &&& Option::Some(c.metadata.name@) == spec_get_string(meta, "name"@)
            &&& Option::Some(c.metadata.version@) == spec_get_string(meta, "version"@)
            &&& c.metadata.authors.deep_view() == spec_get_string(meta, "authors"@)
            &&& c.metadata.license.deep_view() == spec_get_string(meta, "license"@)
            &&& Option::Some(c.description.summary@) == spec_get_string(desc, "summary"@)
            &&& Option::Some(c.description.long@) == spec_get_string(desc, "long"@)
            &&& c.specs.languages.deep_view() == spec_languages(sp)
            &&& c.specs.dependencies.deep_view() == spec_dependencies(sp)
            &&& (match spec_get_table(top@, "runtime"@) {
                Option::Some(rt) => c.runtime matches Option::Some(r2)
                    && r2.priority.deep_view() == spec_get_string(rt, "priority"@)
                    && r2.auto_restart == spec_get_bool(rt, "auto-restart"@),
                Option::None => c.runtime is None,
            })
            &&& (match spec_get_table(top@, "build"@) {
                Option::Some(b) => c.build matches Option::Some(bs) && Option::Some(bs.target@)
                    == spec_get_string(b, "target"@) && Option::Some(bs.sources.deep_view())
                    == spec_get_str_list(b, "sources"@) && Option::Some(
                    bs.include_dirs.deep_view(),
                ) == spec_get_str_list(b, "include_dirs"@) && Option::Some(bs.compiler@)
                    == spec_get_string(b, "compiler"@) && Option::Some(bs.standard@)
                    == spec_get_string(b, "standard"@) && Option::Some(bs.optimize@)
                    == spec_get_string(b, "optimize"@) && bs.cflags.deep_view()
                    == spec_get_string(b, "cflags"@) && bs.ldflags.deep_view()
                    == spec_get_string(b, "ldflags"@) && bs.lib_dirs.deep_view()
                    == spec_get_str_list_lossy(b, "lib_dirs"@) && bs.libs.deep_view()
                    == spec_get_str_list_lossy(b, "libs"@) && bs.pkg_dependencies.deep_view()
                    == spec_get_str_list_lossy(b, "pkg_dependencies"@) && Option::Some(
                    bs.build_type@,
                ) == spec_get_string(b, "build_type"@) && bs.native == spec_get_bool(b, "native"@),
                Option::None => c.build is None,
            })
        },
{
    let meta_t = match get_table(top, "metadata") {
        Option::Some(m) => m,
        Option::None => {
            return Result::Err(String::from_str("Missing or invalid section metadata"));
        },
    };
    let name = match get_string(meta_t, "name") {
        Option::Some(s) => s,
        Option::None => {
            return Result::Err(String::from_str("Missing or invalid key name"));
        },
    };
    let version = match get_string(meta_t, "version") {
        Option::Some(s) => s,
        Option::None => {
            return Result::Err(String::from_str("Missing or invalid key version"));
        },
    };
    let metadata = Metadata {
        name,
        version,
        authors: get_string(meta_t, "authors"),
        license: get_string(meta_t, "license"),
    };
    let desc_t = match get_table(top, "description") {
        Option::Some(m) => m,
        Option::None => {
            return Result::Err(String::from_str("Missing or invalid section description"));
        },
    };
    let summary = match get_string(desc_t, "summary") {
        Option::Some(s) => s,
        Option::None => {
            return Result::Err(String::from_str("Missing or invalid key summary"));
        },
    };
    let long = match get_string(desc_t, "long") {
        Option::Some(s) => s,
        Option::None => {
            return Result::Err(String::from_str("Missing or invalid key long"));
        },
    };
    let description = Description { summary, long };
    let specs_t = match get_table(top, "specs") {
        Option::Some(m) => m,
        Option::None => {
            return Result::Err(String::from_str("Missing or invalid section specs"));
        },
    };
    let (languages, dependencies) = split_specs(specs_t);
    let specs = Specs { languages, dependencies };
    let runtime = match get_table(top, "runtime") {
        Option::Some(rt) => Option::Some(
            RuntimeSpec {
                priority: get_string(rt, "priority"),
                auto_restart: get_bool(rt, "auto-restart"),
            },
        ),
        Option::None => Option::None,
    };
    let build = match get_table(top, "build") {
        Option::Some(b) => {
            let target = match get_string(b, "target") {
                Option::Some(s) => s,
                Option::None => {
                    return Result::Err(String::from_str("Missing or invalid key target"));
                },
            };
            let sources = match get_str_list(b, "sources") {
                Option::Some(v) => v,
                Option::None => {
                    return Result::Err(String::from_str("Missing or invalid array key sources"));
                },
            };
            let include_dirs = match get_str_list(b, "include_dirs") {
                Option::Some(v) => v,
                Option::None => {
                    return Result::Err(
                        String::from_str("Missing or invalid array key include_dirs"),
                    );
                },
            };
            let compiler = match get_string(b, "compiler") {
                Option::Some(s) => s,
                Option::None => {
                    return Result::Err(String::from_str("Missing or invalid key compiler"));
                },
            };
            let standard = match get_string(b, "standard") {
                Option::Some(s) => s,
                Option::None => {
                    return Result::Err(String::from_str("Missing or invalid key standard"));
                },
            };
            let optimize = match get_string(b, "optimize") {
                Option::Some(s) => s,
                Option::None => {
                    return Result::Err(String::from_str("Missing or invalid key optimize"));
                },
            };
            let build_type = match get_string(b, "build_type") {
                Option::Some(s) => s,
                Option::None => {
                    return Result::Err(String::from_str("Missing or invalid key build_type"));
                },
            };
            Option::Some(
                BuildSpec {
                    target,
                    sources,
                    include_dirs,
                    compiler,
                    standard,
                    optimize,
                    cflags: get_string(b, "cflags"),
                    ldflags: get_string(b, "ldflags"),
                    lib_dirs: get_str_list_lossy(b, "lib_dirs"),
                    libs: get_str_list_lossy(b, "libs"),
                    pkg_dependencies: get_str_list_lossy(b, "pkg_dependencies"),
                    build_type,
                    native: get_bool(b, "native"),
                },
            )
        },
        Option::None => Option::None,
    };
    Result::Ok(BuildConfig { metadata, description, specs, runtime, build })
}

} // verus!
