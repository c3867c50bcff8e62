use topiary::{ConfigError, Configuration, Language, Serialisation};

fn lang(name: &str, exts: &[&str], indent: Option<&str>) -> Language {
    Language {
        name: name.to_string(),
        extensions: exts.iter().map(|e| e.to_string()).collect(),
        indent: indent.map(|i| i.to_string()),
    }
}

fn sample() -> Serialisation {
    let mut s = Serialisation::new();
    s.language.push(lang("ocaml", &["ml"], None));
    s.language.push(lang("ocaml_interface", &["mli"], Some("    ")));
    s.language.push(lang("json", &["json", "ml"], Some("\t")));
    s
}

#[test]
fn indent_defaults_to_two_spaces() {
    let s = sample();
    assert_eq!(s.language[0].indent(), "  ");
    assert_eq!(s.language[1].indent(), "    ");
    assert_eq!(s.language[2].indent(), "\t");
}

#[test]
fn known_extensions_are_the_union() {
    let mut exts = sample().known_extensions();
    exts.sort();
    assert_eq!(exts, vec!["json", "ml", "mli"]);
    assert!(Serialisation::new().known_extensions().is_empty());
}

#[test]
fn languages_are_found_by_name() {
    let s = sample();
    assert_eq!(s.get_language("json").unwrap().name, "json");
    let e = s.get_language("rust").unwrap_err();
    assert!(matches!(e, ConfigError::UnsupportedLanguage(ref n) if n == "rust"));
}

#[test]
fn fetch_fails_on_a_missing_explicit_file() {
    let e = Configuration::fetch(Some("/nowhere.toml"), false, String::new(), Serialisation::new())
        .unwrap_err();
    assert!(matches!(e, ConfigError::FileNotFound(ref p) if p == "/nowhere.toml"));
    let c = Configuration::fetch(None, false, "# notes".to_string(), sample()).unwrap();
    assert_eq!(c.annotations, "# notes");
    assert_eq!(c.get_language("ocaml").unwrap().extensions, vec!["ml"]);
    assert!(c.get_language("bash").is_err());
}

#[test]
fn query_names_follow_the_language() {
    assert_eq!(lang("ocaml_interface", &[], None).query_name().unwrap(), "ocaml");
    assert_eq!(lang("tree_sitter_query", &[], None).query_name().unwrap(), "tree-sitter-query");
    assert_eq!(lang("rust", &["rs"], None).query_name().unwrap(), "rust");
    let e = lang("cobol", &[], None).query_name().unwrap_err();
    assert!(matches!(e, ConfigError::UnsupportedLanguage(ref n) if n == "cobol"));
}
