use rnix_lsp::parse::{
    can_read, events_from_walk, node_kind, parse, token_kind, WalkStep, MAX_TEXT,
};
use rnix_lsp::tree::{Kind, SyntaxEvent, Tree};

fn kinds(tree: &Tree) -> Vec<Kind> {
    (0..tree.len()).map(|id| tree.kind(id)).collect()
}

fn source(tree: &Tree) -> String {
    (0..tree.len()).map(|id| tree.text(id).clone()).collect()
}

#[test]
fn parse_let_in_shapes_the_tree() {
    let tree = parse("let a = 1; in a");
    assert_eq!(tree.parent(0), None);
    assert_eq!(tree.kind(1), Kind::LetIn);
    assert_eq!(tree.parent(1), Some(0));
    assert_eq!((tree.start(1), tree.end(1)), (0, 15));
    let names: Vec<String> = (0..tree.len())
        .filter(|&id| tree.kind(id) == Kind::IdentToken)
        .map(|id| tree.text(id).clone())
        .collect();
    assert_eq!(names, vec!["a".to_string(), "a".to_string()]);
}

#[test]
fn parse_keeps_every_byte_of_the_text() {
    for text in ["let a = 1; in a", "{ a.b = x: x; } # c\n", "a.", "}}} (", "", "rec { é = ./p; }"] {
        assert_eq!(source(&parse(text)), text);
    }
}

#[test]
fn parse_knows_the_kinds_that_are_read() {
    let found = kinds(&parse(
        "let f = { a, b ? 1 } @ c: with { c = 1; }; import ./x.nix a.b; in rec { g = let { body = 1; }; h = f 1; }",
    ));
    for kind in [Kind::Apply, Kind::AttrSet, Kind::Ident, Kind::Key, Kind::KeyValue, Kind::Lambda,
        Kind::LetIn, Kind::LegacyLet, Kind::Literal, Kind::PatBind, Kind::PatEntry, Kind::Pattern,
        Kind::Select,
        Kind::With, Kind::Node, Kind::DotToken, Kind::IdentToken, Kind::RecToken, Kind::PathToken,
        Kind::Token] {
        assert!(found.contains(&kind), "{:?}", kind);
    }
}

#[test]
fn texts_of_ordinary_length_can_be_read() {
    assert!(can_read(""));
    assert!(can_read("let a = 1; in a"));
    assert_eq!(MAX_TEXT, u32::MAX as usize);
}

#[test]
fn parse_of_nothing_has_a_root_only() {
    let tree = parse("");
    assert_eq!(tree.len(), 1);
    assert_eq!(tree.kind(0), Kind::Node);
    assert_eq!(tree.children(0).len(), 0);
}

#[test]
fn node_kind_goes_by_the_printed_name() {
    assert_eq!(node_kind("NODE_APPLY"), Kind::Apply);
    assert_eq!(node_kind("NODE_ATTR_SET"), Kind::AttrSet);
    assert_eq!(node_kind("NODE_IDENT"), Kind::Ident);
    assert_eq!(node_kind("NODE_KEY"), Kind::Key);
    assert_eq!(node_kind("NODE_KEY_VALUE"), Kind::KeyValue);
    assert_eq!(node_kind("NODE_LAMBDA"), Kind::Lambda);
    assert_eq!(node_kind("NODE_LET_IN"), Kind::LetIn);
    assert_eq!(node_kind("NODE_LEGACY_LET"), Kind::LegacyLet);
    assert_eq!(node_kind("NODE_LITERAL"), Kind::Literal);
    assert_eq!(node_kind("NODE_PAT_BIND"), Kind::PatBind);
    assert_eq!(node_kind("NODE_PAT_ENTRY"), Kind::PatEntry);
    assert_eq!(node_kind("NODE_PATTERN"), Kind::Pattern);
    assert_eq!(node_kind("NODE_SELECT"), Kind::Select);
    assert_eq!(node_kind("NODE_WITH"), Kind::With);
    assert_eq!(node_kind("NODE_ROOT"), Kind::Node);
    assert_eq!(node_kind("TOKEN_DOT"), Kind::Node);
}

#[test]
fn token_kind_goes_by_the_printed_name() {
    assert_eq!(token_kind("TOKEN_DOT"), Kind::DotToken);
    assert_eq!(token_kind("TOKEN_IDENT"), Kind::IdentToken);
    assert_eq!(token_kind("TOKEN_REC"), Kind::RecToken);
    assert_eq!(token_kind("TOKEN_PATH"), Kind::PathToken);
    assert_eq!(token_kind("TOKEN_WHITESPACE"), Kind::Token);
    assert_eq!(token_kind("NODE_IDENT"), Kind::Token);
}

#[test]
fn events_from_walk_drops_the_leaving_of_tokens() {
    let step = |entering: bool, token: bool, kind: &str, text: &str| WalkStep {
        entering,
        token,
        kind: kind.to_string(),
        start: 0,
        end: 1,
        text: text.to_string(),
    };
    let events = events_from_walk(&vec![
        step(true, false, "NODE_IDENT", ""),
        step(true, true, "TOKEN_IDENT", "a"),
        step(false, true, "TOKEN_IDENT", "a"),
        step(false, false, "NODE_IDENT", ""),
    ]);
    assert_eq!(events.len(), 3);
    assert!(matches!(events[0], SyntaxEvent::Open { kind: Kind::Ident, start: 0, end: 1 }));
    assert!(matches!(&events[1], SyntaxEvent::Leaf { kind: Kind::IdentToken, text, .. } if text == "a"));
    assert!(matches!(events[2], SyntaxEvent::Close));
}
