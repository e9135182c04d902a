use rnix_lsp::tree::{Kind, SyntaxEvent, Tree};

fn open(kind: Kind, start: usize, end: usize) -> SyntaxEvent {
    SyntaxEvent::Open { kind, start, end }
}

fn leaf(kind: Kind, start: usize, end: usize, text: &str) -> SyntaxEvent {
    SyntaxEvent::Leaf { kind, start, end, text: text.to_string() }
}

#[test]
fn from_events_links_parents_and_children() {
    let events = vec![
        open(Kind::Select, 0, 3),
        open(Kind::Ident, 0, 1),
        leaf(Kind::IdentToken, 0, 1, "a"),
        SyntaxEvent::Close,
        leaf(Kind::DotToken, 1, 2, "."),
        open(Kind::Ident, 2, 3),
        leaf(Kind::IdentToken, 2, 3, "b"),
        SyntaxEvent::Close,
        SyntaxEvent::Close,
    ];
    let tree = Tree::from_events(&events);
    assert_eq!(tree.len(), 6);
    assert_eq!(tree.kind(0), Kind::Select);
    assert_eq!(tree.parent(0), None);
    assert_eq!(tree.children(0), &vec![1, 3, 4]);
    assert_eq!(tree.child_nodes(0), vec![1, 4]);
    assert_eq!(tree.parent(1), Some(0));
    assert_eq!(tree.children(1), &vec![2]);
    assert_eq!(tree.parent(2), Some(1));
    assert_eq!(tree.text(2), "a");
    assert_eq!(tree.parent(3), Some(0));
    assert_eq!(tree.kind(3), Kind::DotToken);
    assert_eq!(tree.parent(5), Some(4));
    assert_eq!(tree.name(4), "b");
    assert_eq!(tree.name(1), "a");
    assert_eq!((tree.start(4), tree.end(4)), (2, 3));
    assert_eq!(tree.text(0), "");
}

#[test]
fn from_events_passes_over_a_close_with_nothing_open() {
    let events = vec![
        SyntaxEvent::Close,
        open(Kind::Node, 0, 1),
        SyntaxEvent::Close,
        SyntaxEvent::Close,
        leaf(Kind::Token, 1, 2, "x"),
    ];
    let tree = Tree::from_events(&events);
    assert_eq!(tree.len(), 2);
    assert_eq!(tree.parent(0), None);
    assert_eq!(tree.parent(1), None);
    assert_eq!(tree.children(0), &Vec::<usize>::new());
}

#[test]
fn from_events_ends_what_is_still_open() {
    let events = vec![open(Kind::Node, 0, 1), open(Kind::Ident, 0, 1), leaf(Kind::IdentToken, 0, 1, "x")];
    let tree = Tree::from_events(&events);
    assert_eq!(tree.len(), 3);
    assert_eq!(tree.parent(2), Some(1));
    assert_eq!(tree.parent(1), Some(0));
    assert_eq!(tree.name(1), "x");
    assert_eq!(tree.name(2), "");
}

#[test]
fn from_events_of_nothing_is_empty() {
    let tree = Tree::from_events(&Vec::new());
    assert_eq!(tree.len(), 0);
}

#[test]
fn kind_token_tells_tokens_from_nodes() {
    for kind in [Kind::DotToken, Kind::IdentToken, Kind::RecToken, Kind::PathToken, Kind::Token] {
        assert!(kind.token());
    }
    for kind in [Kind::Apply, Kind::AttrSet, Kind::Ident, Kind::Key, Kind::KeyValue, Kind::Lambda,
        Kind::LetIn, Kind::LegacyLet, Kind::Literal, Kind::PatBind, Kind::PatEntry, Kind::Pattern, Kind::Select,
        Kind::With, Kind::Node] {
        assert!(!kind.token());
    }
}
