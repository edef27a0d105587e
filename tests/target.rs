use pdp10_proxy::target::{ParseError, Target, TargetRegistry, TargetType};

fn target(name: &str, address: &str) -> Target {
    Target {
        name: name.to_string(),
        target_type: TargetType::Raw,
        address: address.to_string(),
    }
}

#[test]
fn parse_telnet_target() {
    let t = Target::parse("x:telnet:localhost:23").unwrap();
    assert_eq!(t.name, "x");
    assert_eq!(t.target_type, TargetType::Telnet);
    assert_eq!(t.address, "localhost:23");
}

#[test]
fn parse_unknown_mode() {
    assert!(matches!(Target::parse("x:bogus:h:1"), Err(ParseError::UnknownMode)));
}

#[test]
fn parse_too_few_fields() {
    assert!(matches!(Target::parse("x:telnet:h"), Err(ParseError::Malformed)));
    assert!(matches!(Target::parse(""), Err(ParseError::Malformed)));
    assert!(matches!(Target::parse("x"), Err(ParseError::Malformed)));
}

#[test]
fn parse_mode_any_case() {
    let t = Target::parse("tv11:RAW:localhost:11100").unwrap();
    assert_eq!(t.target_type, TargetType::Raw);
    assert_eq!(t.name, "tv11");
    assert_eq!(t.address, "localhost:11100");
    let t = Target::parse("console:TeLnEt:10.0.0.1:1025").unwrap();
    assert_eq!(t.target_type, TargetType::Telnet);
}

#[test]
fn parse_port_keeps_extra_colons() {
    let t = Target::parse("v6:raw:fe80::1").unwrap();
    assert_eq!(t.name, "v6");
    assert_eq!(t.address, "fe80::1");
    let t = Target::parse("a:raw:h:1:2").unwrap();
    assert_eq!(t.address, "h:1:2");
}

#[test]
fn parse_empty_fields() {
    let t = Target::parse(":raw::").unwrap();
    assert_eq!(t.name, "");
    assert_eq!(t.address, ":");
}

#[test]
fn from_token_exact() {
    assert_eq!(TargetType::from_token(&"raw".to_string()), Some(TargetType::Raw));
    assert_eq!(TargetType::from_token(&"telnet".to_string()), Some(TargetType::Telnet));
    assert_eq!(TargetType::from_token(&"Telnet".to_string()), None);
    assert_eq!(TargetType::from_token(&"".to_string()), None);
}

#[test]
fn registry_get_missing_and_last_added() {
    let mut reg = TargetRegistry::new();
    assert!(reg.is_empty());
    assert!(reg.get("a").is_none());
    reg.add(target("a", "h:1"));
    reg.add(target("b", "h:2"));
    reg.add(target("a", "h:3"));
    assert!(!reg.is_empty());
    assert_eq!(reg.get("a").unwrap().address, "h:3");
    assert_eq!(reg.get("b").unwrap().address, "h:2");
    assert!(reg.get("c").is_none());
    assert!(reg.get("A").is_none());
    assert!(reg.get("a ").is_none());
}

#[test]
fn registry_list_each_once() {
    let mut reg = TargetRegistry::new();
    assert!(reg.list().is_empty());
    reg.add(target("a", "h:1"));
    reg.add(target("b", "h:2"));
    reg.add(target("a", "h:3"));
    let mut names: Vec<(String, String)> = reg
        .list()
        .iter()
        .map(|t| (t.name.clone(), t.address.clone()))
        .collect();
    names.sort();
    assert_eq!(
        names,
        vec![
            ("a".to_string(), "h:3".to_string()),
            ("b".to_string(), "h:2".to_string())
        ]
    );
}

#[test]
fn error_messages() {
    assert!(ParseError::Malformed.message().contains("malformed"));
    assert!(ParseError::UnknownMode.message().contains("unknown"));
}
