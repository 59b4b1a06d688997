use hbuild::{config_from_tree, CfgValue};
use hk_parser::{parse_hk, resolve_interpolations, HkValue};

fn cfg_of(v: &HkValue) -> CfgValue {
    match v {
        HkValue::String(s) => CfgValue::Str(s.clone()),
        HkValue::Number(n) => CfgValue::Num(n.to_string()),
        HkValue::Bool(b) => CfgValue::Bool(*b),
        HkValue::Array(items) => CfgValue::List(items.iter().map(cfg_of).collect()),
        HkValue::Map(m) => CfgValue::Table(m.iter().map(|(k, v)| (k.clone(), cfg_of(v))).collect()),
    }
}

#[test]
fn hk_document_normalizes_end_to_end() {
    let text = r#"
[metadata]
-> name => "demo"
-> version => "0.1"

[description]
-> summary => "a demo"
-> long => "a longer demo"

[specs]
-> c => "on"
-> bogus-lang => "on"
-> dependencies
--> dep1 => "1.0"

[build]
-> target => "my_app"
-> sources => ["src/*.c"]
-> include_dirs => ["include"]
-> compiler => "gcc"
-> standard => "c11"
-> optimize => "O2"
-> build_type => "static"
-> native => true
"#;
    let mut hk = parse_hk(text).unwrap();
    resolve_interpolations(&mut hk).unwrap();
    let top: Vec<(String, CfgValue)> = hk.iter().map(|(k, v)| (k.clone(), cfg_of(v))).collect();
    let c = config_from_tree(&top).unwrap();
    assert_eq!(c.metadata.name, "demo");
    assert_eq!(c.specs.languages, vec!["c", "bogus-lang"]);
    assert_eq!(
        c.specs.dependencies,
        vec![("dep1".to_string(), "1.0".to_string())]
    );
    let b = c.build.unwrap();
    assert_eq!(b.target, "my_app");
    assert_eq!(b.build_type, "static");
    assert_eq!(b.native, Some(true));
}

#[test]
fn hk_document_with_a_bad_section_is_rejected() {
    let text = r#"
[metadata]
-> name => "demo"
"#;
    let mut hk = parse_hk(text).unwrap();
    resolve_interpolations(&mut hk).unwrap();
    let top: Vec<(String, CfgValue)> = hk.iter().map(|(k, v)| (k.clone(), cfg_of(v))).collect();
    // version, description and specs are missing.
    assert!(config_from_tree(&top).is_err());
}
