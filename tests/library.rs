use netplan_validate::schema::{build_schema, schema_document, CompileError};
use netplan_validate::tree::{merge_fields, set_field, Tree};
use netplan_validate::validate::{classify, validate, Violation, ViolationKind, PARSE_FAILURE};

const CATEGORIES: [&str; 7] = ["ethernets", "vlans", "bridges", "wifis", "bonds", "tunnels", "vrfs"];

fn text(s: &str) -> Tree {
    Tree::Text(s.to_string())
}

fn lookup<'a>(entries: &'a [(String, Tree)], key: &str) -> Option<&'a Tree> {
    entries.iter().rev().find(|(k, _)| k == key).map(|(_, v)| v)
}

fn at<'a>(tree: &'a Tree, path: &[&str]) -> Option<&'a Tree> {
    let mut cur = tree;
    for key in path {
        match cur {
            Tree::Mapping(entries) => cur = lookup(entries, key)?,
            _ => return None,
        }
    }
    Some(cur)
}

fn insertion_point<'a>(tree: &'a Tree, category: &str) -> &'a [(String, Tree)] {
    let path = ["properties", "network", "properties", category, "patternProperties", ".*$", "properties"];
    match at(tree, &path) {
        Some(Tree::Mapping(entries)) => entries,
        other => panic!("no insertion point for {category}: {other:?}"),
    }
}

fn interface(category: &str, body: &str) -> String {
    format!("network:\n  {category}:\n    if0:\n{body}")
}

#[test]
fn set_field_replaces_and_appends() {
    let mut entries = vec![("a".to_string(), text("1")), ("b".to_string(), text("2"))];
    set_field(&mut entries, "a".to_string(), text("3"));
    set_field(&mut entries, "c".to_string(), text("4"));
    assert_eq!(entries.len(), 3);
    assert_eq!(lookup(&entries, "a"), Some(&text("3")));
    assert_eq!(lookup(&entries, "b"), Some(&text("2")));
    assert_eq!(lookup(&entries, "c"), Some(&text("4")));
}

#[test]
fn merge_fields_lets_the_fragment_win() {
    let mut entries = vec![("link".to_string(), text("own")), ("mtu".to_string(), text("own"))];
    let extra = vec![("mtu".to_string(), text("shared")), ("dhcp4".to_string(), Tree::Bool(true))];
    merge_fields(&mut entries, extra);
    assert_eq!(entries.len(), 3);
    assert_eq!(lookup(&entries, "link"), Some(&text("own")));
    assert_eq!(lookup(&entries, "mtu"), Some(&text("shared")));
    assert_eq!(lookup(&entries, "dhcp4"), Some(&Tree::Bool(true)));
}

#[test]
fn schema_document_patches_every_insertion_point() {
    let doc = schema_document().expect("the literal documents read");
    for category in CATEGORIES {
        let props = insertion_point(&doc, category);
        for key in ["renderer", "dhcp4", "addresses", "macaddress", "mtu", "match"] {
            assert!(lookup(props, key).is_some(), "{category} lacks {key}");
        }
    }
    let ethernet = insertion_point(&doc, "ethernets");
    assert!(lookup(ethernet, "infiniband-mode").is_some());
    let wifi = insertion_point(&doc, "wifis");
    assert!(lookup(wifi, "access-points").is_some());
    for category in ["modems", "nm-devices"] {
        assert!(insertion_point(&doc, category).is_empty());
    }
}

#[test]
fn schema_builds_twice_alike() {
    let first = build_schema().unwrap();
    let second = build_schema().unwrap();
    let documents = [
        "network:\n  version: 2\n",
        "network:\n  version: 3\n",
        "other: 1\n",
        "network:\n  ethernets:\n    eth0:\n      dhcp4: yes\n",
        "network:\n  ethernets:\n    eth0:\n      dhcp4: 1\n",
        "network:\n  bonds:\n    bond0:\n      wrong: 1\n",
        "network: [\n",
    ];
    for document in documents {
        assert_eq!(validate(&first, document), validate(&second, document));
    }
}

#[test]
fn common_property_accepted_in_every_category() {
    let schema = build_schema().unwrap();
    for category in CATEGORIES {
        for body in ["      dhcp4: true\n", "      mtu: 1500\n", "      macaddress: \"00:11:22:33:aa:bb\"\n"] {
            let result = validate(&schema, &interface(category, body));
            assert_eq!(result, Ok(()), "{category}: {body}");
        }
    }
}

#[test]
fn unknown_key_rejected_in_every_category() {
    let schema = build_schema().unwrap();
    for category in CATEGORIES {
        let result = validate(&schema, &interface(category, "      not-a-key: 1\n"));
        assert_eq!(result, Err(format!("Unexpected keyword /network/{category}/if0/not-a-key")));
    }
}

#[test]
fn boolean_property_rejects_integer() {
    let schema = build_schema().unwrap();
    for category in CATEGORIES {
        let result = validate(&schema, &interface(category, "      dhcp4: 1\n"));
        assert_eq!(result, Err(format!("Unexpected value /network/{category}/if0/dhcp4: 1")));
    }
}

#[test]
fn enum_property_rejects_other_value() {
    let schema = build_schema().unwrap();
    for category in CATEGORIES {
        let result = validate(&schema, &interface(category, "      dhcp-identifier: serial\n"));
        assert_eq!(
            result,
            Err(format!("Unexpected value /network/{category}/if0/dhcp-identifier: \"serial\""))
        );
    }
}

#[test]
fn duplicate_address_reported() {
    let schema = build_schema().unwrap();
    let document = "network:\n  ethernets:\n    eth0:\n      addresses: [10.0.0.1/8, 10.0.0.1/8]\n";
    assert_eq!(
        validate(&schema, document),
        Err("Duplicate item /network/ethernets/eth0/addresses/[\"10.0.0.1/8\",\"10.0.0.1/8\"]".to_string())
    );
    let distinct = "network:\n  ethernets:\n    eth0:\n      addresses: [10.0.0.1/8, 10.0.0.2/8]\n";
    assert_eq!(validate(&schema, distinct), Ok(()));
}

#[test]
fn top_level_key_required_and_alone() {
    let schema = build_schema().unwrap();
    assert!(validate(&schema, "other:\n  version: 2\n").is_err());
    assert_eq!(
        validate(&schema, "network:\n  version: 2\nother: 1\n"),
        Err("Unexpected keyword /other".to_string())
    );
}

#[test]
fn version_must_be_two() {
    let schema = build_schema().unwrap();
    assert_eq!(validate(&schema, "network:\n  version: 2\n"), Ok(()));
    assert_eq!(
        validate(&schema, "network:\n  version: 1\n"),
        Err("Unexpected value /network/version: 1".to_string())
    );
    assert_eq!(
        validate(&schema, "network:\n  version: 3\n"),
        Err("Unexpected value /network/version: 3".to_string())
    );
}

#[test]
fn malformed_document_reports_parse_failure() {
    let schema = build_schema().unwrap();
    let result = validate(&schema, "network:\n  version: 2\n bad: [\n");
    assert_eq!(result, Err("parser failed to parse the file".to_string()));
    assert_eq!(PARSE_FAILURE, "parser failed to parse the file");
}

fn violation(kind: ViolationKind, path: &str, instance: &str) -> Violation {
    Violation { kind, instance_path: path.to_string(), instance: instance.to_string() }
}

#[test]
fn classify_without_violations_succeeds() {
    assert_eq!(classify(&Vec::new()), Ok(()));
}

#[test]
fn classify_reports_first_unexpected_key() {
    let keys = vec!["b".to_string(), "a".to_string()];
    let vs = vec![
        violation(ViolationKind::AdditionalProperties { unexpected: keys }, "/network", "{}"),
        violation(ViolationKind::Other, "/x", "1"),
    ];
    assert_eq!(classify(&vs), Err("Unexpected keyword /network/b".to_string()));
}

#[test]
fn classify_skips_report_without_keys() {
    let vs = vec![
        violation(ViolationKind::AdditionalProperties { unexpected: Vec::new() }, "/network", "{}"),
        violation(ViolationKind::UniqueItems, "/a", "[1,1]"),
    ];
    assert_eq!(classify(&vs), Err("Duplicate item /a/[1,1]".to_string()));
    let only = vec![violation(ViolationKind::AdditionalProperties { unexpected: Vec::new() }, "/n", "{}")];
    assert_eq!(classify(&only), Ok(()));
}

#[test]
fn classify_reports_other_value() {
    let vs = vec![violation(ViolationKind::Other, "/network/version", "3")];
    assert_eq!(classify(&vs), Err("Unexpected value /network/version: 3".to_string()));
}

#[test]
fn compile_error_message_joins_parts() {
    let e = CompileError {
        schema_path: "/properties".to_string(),
        kind: "Format".to_string(),
        instance_path: "/a".to_string(),
    };
    assert_eq!(e.message(), "/properties, Format, /a");
}
