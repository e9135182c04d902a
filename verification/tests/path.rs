use rnix_lsp::parse::parse;
use rnix_lsp::tree::Kind;

fn strings(items: &[&str]) -> Vec<String> {
    items.iter().map(|s| s.to_string()).collect()
}

#[test]
fn dotted_path_of_a_key_reads_its_identifiers() {
    let text = "{ foo.bar = 1; }";
    let tree = parse(text);
    let node = tree.closest_node_to(text.find("bar").unwrap() + 1).unwrap();
    let (at, names) = tree.dotted_path(node).unwrap();
    assert_eq!(tree.kind(at), Kind::Key);
    assert_eq!(names, strings(&["foo", "bar"]));
    assert_eq!(tree.path_range(at), Some((2, 9)));
}

#[test]
fn dotted_path_of_a_key_stops_at_what_is_no_identifier() {
    let text = "{ foo.\"x\".bar = 1; }";
    let tree = parse(text);
    let node = tree.closest_node_to(3).unwrap();
    let (_, names) = tree.dotted_path(node).unwrap();
    assert_eq!(names, strings(&["foo"]));
}

#[test]
fn dotted_path_of_a_selection_reads_the_whole_chain() {
    let text = "f lib.strings.co";
    let tree = parse(text);
    for offset in [3, 8, 15] {
        let node = tree.closest_node_to(offset).unwrap();
        let (at, names) = tree.dotted_path(node).unwrap();
        assert_eq!(tree.kind(at), Kind::Select);
        assert_eq!((tree.start(at), tree.end(at)), (2, 16));
        assert_eq!(names, strings(&["lib", "strings", "co"]));
        assert_eq!(tree.path_range(at), Some((2, 16)));
    }
}

#[test]
fn dotted_path_takes_the_nearest_run_of_selections() {
    let text = "(a.b c.d).e";
    let tree = parse(text);
    let node = tree.closest_node_to(text.find("c").unwrap() + 1).unwrap();
    let (at, names) = tree.dotted_path(node).unwrap();
    assert_eq!((tree.start(at), tree.end(at)), (5, 8));
    assert_eq!(names, strings(&["c", "d"]));
}

#[test]
fn dotted_path_is_nothing_outside_keys_and_selections() {
    let text = "f 1";
    let tree = parse(text);
    let node = tree.closest_node_to(0).unwrap();
    assert_eq!(tree.dotted_path(node), None);
    assert_eq!(tree.dotted_path(tree.len()), None);
    assert_eq!(tree.dotted_path(usize::MAX), None);
}

#[test]
fn selection_scan_ends_at_the_first_other_token() {
    let text = "a.b .c";
    let tree = parse(text);
    let node = tree.closest_node_to(0).unwrap();
    let (at, names) = tree.dotted_path(node).unwrap();
    assert_eq!(names, strings(&["a", "b"]));
    assert_eq!(tree.path_range(at), Some((0, 3)));
}

#[test]
fn first_token_goes_down_by_first_elements() {
    let tree = parse("a.b");
    let first = tree.first_token(0).unwrap();
    assert_eq!(tree.kind(first), Kind::IdentToken);
    assert_eq!(tree.text(first), "a");
    assert_eq!(tree.first_token(first), Some(first));
    assert_eq!(tree.first_token(tree.len()), None);
}

#[test]
fn namespace_follows_the_keys_around_a_node() {
    let text = "{ a.b = { c = x; }; d = 1; }";
    let tree = parse(text);
    let node = tree.closest_node_to(text.find("x").unwrap()).unwrap();
    assert_eq!(tree.namespace(node), strings(&["a", "b", "c"]));
    let other = tree.closest_node_to(text.find("1").unwrap()).unwrap();
    assert_eq!(tree.namespace(other), strings(&["d"]));
    assert_eq!(tree.namespace(0), Vec::<String>::new());
}

#[test]
fn namespace_spells_computed_names_as_written() {
    let text = "{ \"a b\".${c} = x; }";
    let tree = parse(text);
    let node = tree.closest_node_to(text.find("x").unwrap()).unwrap();
    assert_eq!(tree.namespace(node), strings(&["\"a b\"", "${c}"]));
}

#[test]
fn tokens_at_finds_one_or_two() {
    let text = "a.b";
    let tree = parse(text);
    let (left, right) = tree.tokens_at(0);
    assert_eq!(tree.text(left.unwrap()), "a");
    assert_eq!(right, None);
    let (left, right) = tree.tokens_at(1);
    assert_eq!(tree.text(left.unwrap()), "a");
    assert_eq!(tree.text(right.unwrap()), ".");
    let (left, right) = tree.tokens_at(3);
    assert_eq!(tree.text(left.unwrap()), "b");
    assert_eq!(right, None);
    assert_eq!(tree.tokens_at(4), (None, None));
    assert_eq!(parse("").tokens_at(0), (None, None));
}

#[test]
fn ident_at_on_a_bare_identifier_has_no_path() {
    let text = "f abc";
    let tree = parse(text);
    let info = tree.ident_at(3).unwrap();
    assert_eq!(info.path, Vec::<String>::new());
    assert_eq!(info.name, "abc");
    assert_eq!((tree.start(info.ident), tree.end(info.ident)), (2, 5));
    assert_eq!(tree.kind(info.ident), Kind::Ident);
}

#[test]
fn ident_at_on_a_selected_name_has_the_chain_before_it() {
    let text = "a.b.c";
    let tree = parse(text);
    let info = tree.ident_at(4).unwrap();
    assert_eq!(info.path, strings(&["a", "b"]));
    assert_eq!(info.name, "c");
    let info = tree.ident_at(2).unwrap();
    assert_eq!(info.path, strings(&["a"]));
    assert_eq!(info.name, "b");
    let info = tree.ident_at(0).unwrap();
    assert_eq!(info.path, Vec::<String>::new());
    assert_eq!(info.name, "a");
}

#[test]
fn ident_at_after_a_dot_has_an_empty_name() {
    let text = "[ a.b. ]";
    let tree = parse(text);
    let info = tree.ident_at(6).unwrap();
    assert_eq!(info.path, strings(&["a", "b"]));
    assert_eq!(info.name, "");
    assert_eq!(tree.name(info.ident), "b");
}

#[test]
fn ident_at_is_nothing_where_the_chain_is_computed() {
    let text = "(f x).b";
    let tree = parse(text);
    assert!(tree.ident_at(6).is_none());
    assert!(tree.ident_at(0).is_none());
    assert!(tree.ident_at(100).is_none());
}
