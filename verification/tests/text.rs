use rnix_lsp::text::{
    blank, join_first, join_names, join_parts, same_text, split_name, starts_with, strip_newlines,
};

fn strings(items: &[&str]) -> Vec<String> {
    items.iter().map(|s| s.to_string()).collect()
}

#[test]
fn split_name_cuts_at_every_dot() {
    assert_eq!(split_name("lib.strings.concat"), strings(&["lib", "strings", "concat"]));
    assert_eq!(split_name("lib"), strings(&["lib"]));
    assert_eq!(split_name(""), strings(&[""]));
    assert_eq!(split_name("a..b"), strings(&["a", "", "b"]));
    assert_eq!(split_name("a."), strings(&["a", ""]));
    assert_eq!(split_name(".a"), strings(&["", "a"]));
}

#[test]
fn split_name_agrees_with_std_split() {
    for name in ["", ".", "..", "a.b", "ü.é.", "pkgs.lib.attrsets.mapAttrs'"] {
        let expected: Vec<String> = name.split('.').map(String::from).collect();
        assert_eq!(split_name(name), expected);
    }
}

#[test]
fn join_names_puts_dots_between() {
    assert_eq!(join_names(&strings(&[])), "");
    assert_eq!(join_names(&strings(&["lib"])), "lib");
    assert_eq!(join_names(&strings(&["lib", "strings", "concat"])), "lib.strings.concat");
    assert_eq!(join_names(&strings(&["", ""])), ".");
}

#[test]
fn join_first_takes_a_prefix() {
    let segments = strings(&["lib", "strings", "concat"]);
    assert_eq!(join_first(&segments, 0), "");
    assert_eq!(join_first(&segments, 1), "lib");
    assert_eq!(join_first(&segments, 2), "lib.strings");
    assert_eq!(join_first(&segments, 3), "lib.strings.concat");
    assert_eq!(join_first(&segments, 7), "lib.strings.concat");
}

#[test]
fn join_parts_uses_the_separator() {
    assert_eq!(join_parts(&strings(&["e1", "e2"]), " -> "), "e1 -> e2");
    assert_eq!(join_parts(&strings(&["e1"]), " -> "), "e1");
    assert_eq!(join_parts(&strings(&[]), " -> "), "");
}

#[test]
fn same_text_compares_characters() {
    assert!(same_text("", ""));
    assert!(same_text("import", "import"));
    assert!(!same_text("import", "imports"));
    assert!(!same_text("import", "impor7"));
    assert!(same_text("ünïcödé", "ünïcödé"));
    assert!(!same_text("a", "b"));
}

#[test]
fn starts_with_tests_a_prefix() {
    assert!(starts_with("concatMap", "concat"));
    assert!(starts_with("concat", "concat"));
    assert!(starts_with("concat", ""));
    assert!(!starts_with("con", "concat"));
    assert!(!starts_with("xconcat", "concat"));
    assert!(starts_with("éa", "é"));
}

#[test]
fn blank_is_white_space_only() {
    assert!(blank(""));
    assert!(blank(" \t\n\r"));
    assert!(blank("\u{a0}\u{2003}\u{3000}"));
    assert!(!blank(" a "));
    assert!(!blank("\u{200b}"));
    for c in (0u32..0x3100).filter_map(char::from_u32) {
        assert_eq!(blank(&c.to_string()), c.is_whitespace(), "{:?}", c);
    }
}

#[test]
fn strip_newlines_drops_line_feeds_only() {
    assert_eq!(strip_newlines("a\nb\n"), "ab");
    assert_eq!(strip_newlines("\n\n"), "");
    assert_eq!(strip_newlines("a b\r"), "a b\r");
    assert_eq!(strip_newlines(""), "");
}
