use hbuild::{config_from_tree, get_string, split_specs, value_as_string, CfgValue};

fn s(v: &str) -> String {
    v.to_string()
}

fn demo_tree() -> Vec<(String, CfgValue)> {
    vec![
        (
            s("metadata"),
            CfgValue::Table(vec![
                (s("name"), CfgValue::Str(s("demo"))),
                (s("version"), CfgValue::Str(s("0.1"))),
                (s("authors"), CfgValue::Num(s("42"))),
            ]),
        ),
        (
            s("description"),
            CfgValue::Table(vec![
                (s("summary"), CfgValue::Str(s("a demo"))),
                (s("long"), CfgValue::Str(s("a longer demo"))),
            ]),
        ),
        (
            s("specs"),
            CfgValue::Table(vec![
                (s("c"), CfgValue::Str(s("on"))),
                (s("flagged"), CfgValue::Bool(true)),
                (
                    s("dependencies"),
                    CfgValue::Table(vec![
                        (s("dep1"), CfgValue::Str(s("1.0"))),
                        (s("depx"), CfgValue::List(vec![])),
                        (s("dep2"), CfgValue::Num(s("2"))),
                    ]),
                ),
                (s("go"), CfgValue::Str(s("on"))),
            ]),
        ),
        (
            s("build"),
            CfgValue::Table(vec![
                (s("target"), CfgValue::Str(s("my_app"))),
                (s("sources"), CfgValue::List(vec![CfgValue::Str(s("src/*.c"))])),
                (s("include_dirs"), CfgValue::List(vec![CfgValue::Str(s("include"))])),
                (s("compiler"), CfgValue::Str(s("gcc"))),
                (s("standard"), CfgValue::Str(s("c11"))),
                (s("optimize"), CfgValue::Str(s("O2"))),
                (s("build_type"), CfgValue::Str(s("executable"))),
                (s("native"), CfgValue::Bool(true)),
                (
                    s("libs"),
                    CfgValue::List(vec![CfgValue::Str(s("m")), CfgValue::Bool(false)]),
                ),
            ]),
        ),
    ]
}

#[test]
fn full_tree_normalizes() {
    let c = config_from_tree(&demo_tree()).unwrap();
    assert_eq!(c.metadata.name, "demo");
    assert_eq!(c.metadata.version, "0.1");
    // A number reads as its textual form.
    assert_eq!(c.metadata.authors.as_deref(), Some("42"));
    assert!(c.metadata.license.is_none());
    assert_eq!(c.description.summary, "a demo");
    assert!(c.runtime.is_none());
    let b = c.build.unwrap();
    assert_eq!(b.target, "my_app");
    assert_eq!(b.sources, vec!["src/*.c"]);
    assert_eq!(b.include_dirs, vec!["include"]);
    assert_eq!(b.compiler, "gcc");
    assert_eq!(b.build_type, "executable");
    assert_eq!(b.native, Some(true));
    // Lossy list: the boolean still reads as a string.
    assert_eq!(b.libs, Some(vec![s("m"), s("false")]));
    assert!(b.cflags.is_none());
    assert!(b.lib_dirs.is_none());
}

#[test]
fn languages_and_dependencies_split() {
    let c = config_from_tree(&demo_tree()).unwrap();
    // Only string-valued keys are languages; `dependencies` never is.
    assert_eq!(c.specs.languages, vec!["c", "go"]);
    // Only entries readable as strings become dependencies.
    assert_eq!(
        c.specs.dependencies,
        vec![(s("dep1"), s("1.0")), (s("dep2"), s("2"))]
    );
}

#[test]
fn missing_required_key_is_an_error() {
    let mut tree = demo_tree();
    // Drop metadata.version.
    if let CfgValue::Table(meta) = &mut tree[0].1 {
        meta.retain(|(k, _)| k != "version");
    }
    assert!(config_from_tree(&tree).is_err());
}

#[test]
fn missing_section_is_an_error() {
    let mut tree = demo_tree();
    tree.remove(1); // description
    assert!(config_from_tree(&tree).is_err());
}

#[test]
fn missing_build_section_is_fine() {
    let mut tree = demo_tree();
    tree.remove(3); // build
    let c = config_from_tree(&tree).unwrap();
    assert!(c.build.is_none());
}

#[test]
fn build_missing_required_key_is_an_error() {
    let mut tree = demo_tree();
    if let CfgValue::Table(b) = &mut tree[3].1 {
        b.retain(|(k, _)| k != "compiler");
    }
    assert!(config_from_tree(&tree).is_err());
}

#[test]
fn strict_list_rejects_non_strings() {
    let mut tree = demo_tree();
    if let CfgValue::Table(b) = &mut tree[3].1 {
        for (k, v) in b.iter_mut() {
            if k == "sources" {
                *v = CfgValue::List(vec![CfgValue::Str(s("ok.c")), CfgValue::Table(vec![])]);
            }
        }
    }
    assert!(config_from_tree(&tree).is_err());
}

#[test]
fn value_readings() {
    assert_eq!(value_as_string(&CfgValue::Str(s("x"))).as_deref(), Some("x"));
    assert_eq!(value_as_string(&CfgValue::Num(s("3"))).as_deref(), Some("3"));
    assert_eq!(value_as_string(&CfgValue::Bool(true)).as_deref(), Some("true"));
    assert_eq!(value_as_string(&CfgValue::Bool(false)).as_deref(), Some("false"));
    assert!(value_as_string(&CfgValue::List(vec![])).is_none());
}

#[test]
fn table_lookup_first_match() {
    let t = vec![
        (s("k"), CfgValue::Str(s("first"))),
        (s("k"), CfgValue::Str(s("second"))),
    ];
    assert_eq!(get_string(&t, "k").as_deref(), Some("first"));
    assert!(get_string(&t, "missing").is_none());
}

#[test]
fn split_specs_on_empty_table() {
    let (langs, deps) = split_specs(&vec![]);
    assert!(langs.is_empty());
    assert!(deps.is_empty());
}

#[test]
fn candidate_config_files_in_probe_order() {
    let c = hbuild::config_candidates();
    let got: Vec<(&str, &str)> = c.iter().map(|(f, s)| (f.as_str(), s.as_str())).collect();
    assert_eq!(
        got,
        vec![
            ("hbuild.config", "hk"),
            ("hbuilt.config", "toml"),
            ("hbuily.config", "yaml"),
            ("hbuilj.config", "json"),
            ("hbuilh.config", "hcl"),
        ]
    );
}
