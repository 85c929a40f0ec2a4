use jepsen_rs::clj::{parse_code_and_get_ns_name, CljCore, NsRegister};

#[test]
fn test_parse_code_and_get_ns_name() {
    assert_eq!(parse_code_and_get_ns_name("(ns a)"), Some("a".to_string()));
    assert_eq!(parse_code_and_get_ns_name("(ns a.b)"), Some("a.b".to_string()));
    assert_eq!(parse_code_and_get_ns_name("(ns abc)"), Some("abc".to_string()));
    assert_eq!(parse_code_and_get_ns_name("(ns a\n.d)"), Some("a".to_string()));
    assert_eq!(parse_code_and_get_ns_name("(ns a .b)"), Some("a".to_string()));
}

#[test]
fn parse_without_ns_form_finds_nothing() {
    assert_eq!(parse_code_and_get_ns_name("(println \"hello\")"), None);
    assert_eq!(parse_code_and_get_ns_name(""), None);
}

#[test]
fn test_ns_register() {
    let mut reg = NsRegister::new();
    reg.register("(ns a)").unwrap();
    assert!(reg.get("a").is_some());
}

#[test]
fn get_or_register_adds_missing_names() {
    let mut reg = NsRegister::new();
    assert!(reg.get("serde").is_none());
    let ns = reg.get_or_register("serde");
    assert_eq!(ns.name(), "serde");
    assert!(reg.get("serde").is_some());
}

#[test]
fn default_core_namespace_is_clojure_core() {
    let core = CljCore::default();
    assert_eq!(core.name(), "clojure.core");
}
