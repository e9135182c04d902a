use rnix_lsp::builtins::{
    digit, documented_builtins, dump_supported, fallback_builtins, fallback_names, find_member,
    load_builtins, nix_version, read_dump, read_listed, read_number, read_texts, BuiltinDoc,
};
use rnix_lsp::json::Json;

fn doc(name: &str, text: &str, args: Option<&[&str]>) -> BuiltinDoc {
    BuiltinDoc {
        name: name.to_string(),
        doc: text.to_string(),
        args: args.map(|list| list.iter().map(|a| a.to_string()).collect()),
    }
}

#[test]
fn fallback_names_are_the_fixed_list() {
    let names = fallback_names();
    assert_eq!(names.len(), 80);
    assert_eq!(names[0], "abort");
    assert_eq!(names[25], "foldl'");
    assert_eq!(names[34], "head");
    assert_eq!(names[79], "typeOf");
    let mut sorted = names.clone();
    sorted.sort();
    sorted.dedup();
    assert_eq!(sorted.len(), 80);
}

#[test]
fn fallback_builtins_know_names_only() {
    let table = fallback_builtins(vec!["a".to_string(), "b".to_string(), "a".to_string()]);
    assert_eq!(table.len(), 2);
    let a = table.get("a").unwrap();
    assert_eq!(a.var, None);
    assert_eq!(a.documentation, None);
    assert_eq!(a.params, None);
    assert!(!a.deprecated);
    assert_eq!(a.render_detail(), "Lambda");
}

#[test]
fn nix_version_reads_two_numbers() {
    assert_eq!(nix_version("nix (Nix) 2.4\n"), Some((2, 4)));
    assert_eq!(nix_version("nix (Nix) 2.3.10"), Some((2, 3)));
    assert_eq!(nix_version("nix (Nix) 2.13.3"), Some((2, 13)));
    assert_eq!(nix_version("nix (Nix) 2.10.3\n"), Some((2, 10)));
    assert_eq!(nix_version("nix (Nix) 12.004"), Some((12, 4)));
    assert_eq!(nix_version("nix (Nix) 3.0pre"), Some((3, 0)));
    assert_eq!(nix_version("nix (Nix) 18446744073709551615.1"), Some((u64::MAX, 1)));
    assert_eq!(nix_version("nix (Nix) 18446744073709551616.99999999999999999999"), Some((u64::MAX, u64::MAX)));
    assert_eq!(nix_version("nix (Nix) .4"), None);
    assert_eq!(nix_version("nix (Nix) 2.4"), Some((2, 4)));
    assert_eq!(nix_version("nix (Nix) 2."), None);
    assert_eq!(nix_version("nix (Nix) 24"), None);
    assert_eq!(nix_version("nix (Nix) 2,4"), None);
    assert_eq!(nix_version("nix (Nix) x.4"), None);
    assert_eq!(nix_version("nix (Nix) 2.x"), None);
    assert_eq!(nix_version(" nix (Nix) 2.4"), None);
    assert_eq!(nix_version("nix (Lix) 2.4"), None);
    assert_eq!(nix_version("nix (Nix) ٢.٤"), None);
    assert_eq!(nix_version(""), None);
}

#[test]
fn digit_reads_decimal_digits() {
    assert_eq!(digit('0'), Some(0));
    assert_eq!(digit('9'), Some(9));
    assert_eq!(digit('a'), None);
    assert_eq!(digit('/'), None);
    assert_eq!(digit(':'), None);
}

#[test]
fn dump_is_supported_from_two_four_on() {
    assert!(dump_supported("nix (Nix) 2.4"));
    assert!(dump_supported("nix (Nix) 2.9.1"));
    assert!(dump_supported("nix (Nix) 3.0"));
    assert!(dump_supported("nix (Nix) 9.9"));
    assert!(!dump_supported("nix (Nix) 2.3.16"));
    assert!(!dump_supported("nix (Nix) 1.9"));
    assert!(!dump_supported("nix (Nix) 0.4"));
    assert!(dump_supported("nix (Nix) 2.13"));
    assert!(dump_supported("nix (Nix) 2.10.3\n"));
    assert!(dump_supported("nix (Nix) 10.0"));
    assert!(!dump_supported("nix (Nix) 2.03"));
    assert!(!dump_supported("nix (Nix) 02.3"));
    assert!(dump_supported("nix (Nix) 99999999999999999999999.0"));
    assert!(!dump_supported("command not found"));
}

#[test]
fn documented_builtins_carry_what_was_told() {
    let docs = vec![
        doc("add", "Return the sum.", Some(&["e1", "e2"])),
        doc("toPath", "**DEPRECATED.** Use paths.", Some(&["s"])),
        doc("nixVersion", "The version.", None),
        doc("currentTime", "deprecated? **DEPRECATED.**", Some(&[])),
        doc("add", "late", None),
    ];
    let table = documented_builtins(&docs);
    assert_eq!(table.len(), 4);
    let add = table.get("add").unwrap();
    assert_eq!(add.documentation, Some("Return the sum.".to_string()));
    assert_eq!(add.params, Some("e1 -> e2".to_string()));
    assert!(!add.deprecated);
    assert_eq!(add.var, None);
    assert_eq!(add.render_detail(), "Lambda: e1 -> e2 -> Result");
    let to_path = table.get("toPath").unwrap();
    assert!(to_path.deprecated);
    assert_eq!(to_path.params, Some("s".to_string()));
    assert_eq!(table.get("nixVersion").unwrap().params, None);
    assert_eq!(table.get("nixVersion").unwrap().render_detail(), "Lambda");
    let time = table.get("currentTime").unwrap();
    assert!(!time.deprecated);
    assert_eq!(time.params, Some(String::new()));
}

fn text(s: &str) -> Json {
    Json::Text(s.to_string())
}

fn object(members: Vec<(&str, Json)>) -> Json {
    let (names, values) = members.into_iter().map(|(name, value)| (name.to_string(), value)).unzip();
    Json::Object { names, values }
}

const LISTING: &str = r#"{
    "add": { "args": ["e1", "e2"], "arity": 2, "doc": "Return the sum." },
    "toPath": { "args": ["s"], "doc": "**DEPRECATED.** Use paths." },
    "nixVersion": { "doc": "The version." }
}"#;

#[test]
fn load_builtins_reads_the_listing_of_a_recent_interpreter() {
    let table = load_builtins(Some("nix (Nix) 2.4\n"), Some(LISTING));
    assert_eq!(table.len(), 3);
    let add = table.get("add").unwrap();
    assert_eq!(add.documentation, Some("Return the sum.".to_string()));
    assert_eq!(add.params, Some("e1 -> e2".to_string()));
    assert_eq!(add.render_detail(), "Lambda: e1 -> e2 -> Result");
    assert!(table.get("toPath").unwrap().deprecated);
    assert_eq!(table.get("nixVersion").unwrap().params, None);
    assert!(!table.contains("head"));
}

#[test]
fn load_builtins_reads_the_listing_of_version_two_ten() {
    let table = load_builtins(
        Some("nix (Nix) 2.10.3\n"),
        Some(r#"{"head": {"doc": "d", "args": ["list"]}}"#),
    );
    assert_eq!(table.len(), 1);
    let head = table.get("head").unwrap();
    assert_eq!(head.documentation, Some("d".to_string()));
    assert_eq!(head.params, Some("list".to_string()));
    assert!(!head.deprecated);
}

#[test]
fn read_number_reads_to_the_last_digit() {
    let chars: Vec<char> = "ab120.5".chars().collect();
    assert_eq!(read_number(&chars, 2), (5, 120));
    assert_eq!(read_number(&chars, 0), (0, 0));
    assert_eq!(read_number(&chars, 6), (7, 5));
    assert_eq!(read_number(&chars, 7), (7, 0));
}

#[test]
fn load_builtins_falls_back_unless_all_is_well() {
    for table in [
        load_builtins(None, None),
        load_builtins(None, Some(LISTING)),
        load_builtins(Some("nix (Nix) 2.4"), None),
        load_builtins(Some("nix (Nix) 2.3"), Some(LISTING)),
        load_builtins(Some("garbage"), Some(LISTING)),
        load_builtins(Some("nix (Nix) 2.4"), Some("not json")),
        load_builtins(Some("nix (Nix) 2.4"), Some("[1, 2]")),
        load_builtins(Some("nix (Nix) 2.4"), Some(r#"{ "add": { "args": ["e1"] } }"#)),
        load_builtins(Some("nix (Nix) 2.4"), Some(r#"{ "add": { "doc": 1 } }"#)),
        load_builtins(Some("nix (Nix) 2.4"), Some(r#"{ "add": { "doc": "d", "args": [1] } }"#)),
        load_builtins(Some("nix (Nix) 2.4"), Some(r#"{ "add": "doc" }"#)),
    ] {
        assert_eq!(table.len(), 80);
        assert!(table.contains("head"));
        assert_eq!(table.get("add").unwrap().documentation, None);
        assert!(!table.contains("nixVersion"));
    }
}

#[test]
fn listing_with_args_of_another_shape_has_no_parameters() {
    let table = load_builtins(
        Some("nix (Nix) 3.1"),
        Some(r#"{ "a": { "doc": "d", "args": null }, "b": { "doc": "d", "args": "x" } }"#),
    );
    assert_eq!(table.len(), 2);
    assert_eq!(table.get("a").unwrap().params, None);
    assert_eq!(table.get("b").unwrap().params, None);
}

#[test]
fn read_dump_takes_a_listing_apart() {
    let listing = object(vec![
        ("add", object(vec![("doc", text("sum")), ("args", Json::List(vec![text("a"), text("b")]))])),
        ("id", object(vec![("args", Json::Null), ("doc", text("same"))])),
    ]);
    let docs = read_dump(&listing).unwrap();
    assert_eq!(docs.len(), 2);
    assert_eq!(docs[0].name, "add");
    assert_eq!(docs[0].doc, "sum");
    assert_eq!(docs[0].args, Some(vec!["a".to_string(), "b".to_string()]));
    assert_eq!(docs[1].name, "id");
    assert_eq!(docs[1].args, None);
    assert!(read_dump(&Json::List(Vec::new())).is_none());
    assert!(read_dump(&object(vec![("x", Json::Bool(true))])).is_none());
    assert_eq!(read_dump(&object(Vec::new())).unwrap().len(), 0);
    let lopsided = Json::Object { names: vec!["a".to_string()], values: Vec::new() };
    assert!(read_dump(&lopsided).is_none());
}

#[test]
fn read_listed_wants_a_documented_object() {
    assert!(read_listed("x", &object(vec![("doc", Json::Number("1".to_string()))])).is_none());
    assert!(read_listed("x", &object(vec![("args", Json::List(Vec::new()))])).is_none());
    assert!(read_listed("x", &text("doc")).is_none());
    let doc = read_listed("x", &object(vec![("doc", text("d")), ("args", Json::List(Vec::new()))]));
    assert_eq!(doc.unwrap().args, Some(Vec::new()));
    let bad = object(vec![("doc", text("d")), ("args", Json::List(vec![text("a"), Json::Null]))]);
    assert!(read_listed("x", &bad).is_none());
}

#[test]
fn members_and_texts_are_read_in_order() {
    let names = vec!["a".to_string(), "b".to_string(), "b".to_string()];
    let values = vec![Json::Null, text("1"), text("2")];
    assert!(matches!(find_member(&names, &values, "a"), Some(Json::Null)));
    assert!(matches!(find_member(&names, &values, "b"), Some(Json::Text(t)) if t == "1"));
    assert!(find_member(&names, &values, "c").is_none());
    assert!(find_member(&names, &Vec::new(), "a").is_none());
    assert_eq!(read_texts(&vec![text("a"), text("b")]), Some(vec!["a".to_string(), "b".to_string()]));
    assert_eq!(read_texts(&Vec::new()), Some(Vec::new()));
    assert_eq!(read_texts(&vec![text("a"), Json::Bool(false)]), None);
}
