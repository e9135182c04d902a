use rnix_lsp::context::App;
use rnix_lsp::parse::parse;
use rnix_lsp::rename::TextEdit;
use rnix_lsp::tree::Tree;

fn ranges(edits: &Option<Vec<TextEdit>>) -> Option<Vec<(usize, usize)>> {
    edits.as_ref().map(|list| list.iter().map(|e| (e.start, e.end)).collect())
}

#[test]
fn rename_of_a_let_binding_covers_definition_and_uses() {
    let text = "let x = 1; in x + x";
    let tree = parse(text);
    let edits = tree.rename(text.len() - 1, "y");
    assert_eq!(ranges(&edits), Some(vec![(4, 5), (14, 15), (18, 19)]));
    for edit in edits.unwrap() {
        assert_eq!(edit.new_text, "y");
    }
    assert_eq!(ranges(&tree.rename(4, "y")), Some(vec![(4, 5), (14, 15), (18, 19)]));
}

#[test]
fn rename_of_a_parameter_leaves_keys_of_nested_sets() {
    let text = "x: { x = 1; y = x; z = x.a; }";
    let tree = parse(text);
    let edits = tree.rename(0, "arg");
    assert_eq!(ranges(&edits), Some(vec![(0, 1), (16, 17), (23, 24)]));
}

#[test]
fn rename_of_a_pattern_parameter() {
    let text = "{ a, b ? a }: a + b";
    let tree = parse(text);
    assert_eq!(ranges(&tree.rename(2, "c")), Some(vec![(2, 3), (9, 10), (14, 15)]));
}

#[test]
fn rename_of_a_member_of_a_recursive_set() {
    let text = "rec { a = 1; b = a; c = { a = a; }; }";
    let tree = parse(text);
    assert_eq!(ranges(&tree.rename(17, "n")), Some(vec![(6, 7), (17, 18), (30, 31)]));
}

#[test]
fn rename_reaches_computed_names_in_keys() {
    let text = "x: { ${x} = 1; }";
    let tree = parse(text);
    assert_eq!(ranges(&tree.rename(0, "y")), Some(vec![(0, 1), (7, 8)]));
}

#[test]
fn rename_leaves_what_a_nearer_parameter_binds() {
    let text = "x: (x: x)";
    let tree = parse(text);
    assert_eq!(ranges(&tree.rename(0, "y")), Some(vec![(0, 1)]));
    assert_eq!(ranges(&tree.rename(7, "y")), Some(vec![(4, 5), (7, 8)]));
    assert_eq!(ranges(&tree.rename(4, "y")), Some(vec![(4, 5), (7, 8)]));
}

#[test]
fn rename_leaves_what_a_nearer_let_binds() {
    let text = "x: let x = 1; in x";
    let tree = parse(text);
    assert_eq!(ranges(&tree.rename(0, "y")), Some(vec![(0, 1)]));
    assert_eq!(ranges(&tree.rename(text.len() - 1, "y")), Some(vec![(7, 8), (17, 18)]));
}

#[test]
fn rename_leaves_what_a_nearer_set_or_with_binds() {
    let text = "x: [ x rec { x = 1; y = x; } (with { x = 2; }; x) x ]";
    let tree = parse(text);
    assert_eq!(ranges(&tree.rename(0, "z")), Some(vec![(0, 1), (5, 6), (50, 51)]));
    let text = "let x = 1; in { a = x; b = { x }: x; c = x; }";
    let tree = parse(text);
    assert_eq!(ranges(&tree.rename(4, "z")), Some(vec![(4, 5), (20, 21), (41, 42)]));
}

#[test]
fn rename_reaches_computed_names_that_are_selected() {
    let text = "o: a.${o}.b";
    let tree = parse(text);
    assert_eq!(ranges(&tree.rename(0, "p")), Some(vec![(0, 1), (7, 8)]));
    let text = "o: { a.${o} = o.o; }";
    let tree = parse(text);
    assert_eq!(ranges(&tree.rename(0, "p")), Some(vec![(0, 1), (9, 10), (14, 15)]));
}

#[test]
fn rename_of_a_name_that_with_brings() {
    let text = "with { a = a; b = 1; }; a + b";
    let tree = parse(text);
    assert_eq!(ranges(&tree.rename(text.len() - 5, "c")), Some(vec![(7, 8), (24, 25)]));
}

#[test]
fn occurrence_is_told_for_each_identifier() {
    let text = "x: x.x";
    let tree = parse(text);
    let info = tree.ident_at(0).unwrap();
    let scope = tree.scope_at(0, info.ident);
    let var = scope.get("x").unwrap().var.unwrap();
    let found = tree.occurrences(var.set, "x", var, None, Vec::new());
    assert_eq!(found.len(), 2);
    assert!(tree.is_occurrence(found[0], "x", var, None));
    assert!(!tree.is_occurrence(found[0], "y", var, None));
    let selected = tree.ident_at(5).unwrap().ident;
    assert!(!tree.is_occurrence(selected, "x", var, None));
    assert!(!tree.is_occurrence(0, "x", var, None));
    assert!(Tree::same_var(var, var));
    let mut other = var;
    other.value = Some(1);
    assert!(!Tree::same_var(var, other));
}

#[test]
fn rename_rejects_a_selected_name() {
    let text = "let a = { b = 1; }; in a.b";
    let tree = parse(text);
    assert_eq!(ranges(&tree.rename(text.len() - 1, "c")), None);
    let text = "let b = 1; a = { b = 2; }; in a.b.b";
    let tree = parse(text);
    assert_eq!(ranges(&tree.rename(text.len() - 1, "c")), None);
    assert_eq!(ranges(&tree.rename(text.len() - 3, "c")), None);
}

#[test]
fn rename_rejects_the_base_of_a_selection() {
    let text = "let a = { b = 1; }; in a.b";
    let tree = parse(text);
    assert_eq!(ranges(&tree.rename(text.len() - 3, "c")), None);
}

#[test]
fn rename_rejects_a_name_that_is_not_bound() {
    let tree = parse("f x");
    assert_eq!(ranges(&tree.rename(2, "y")), None);
    assert_eq!(ranges(&tree.rename(1, "y")), None);
    assert_eq!(ranges(&tree.rename(50, "y")), None);
}

#[test]
fn rename_through_the_state_names_the_file() {
    let mut app = App::new();
    let text = "a: a";
    let file = app.open_file("file:///a.nix".to_string(), text.to_string());
    assert_eq!(ranges(&app.rename(file, 3, "b")), Some(vec![(0, 1), (3, 4)]));
    assert_eq!(ranges(&app.rename(file + 1, 3, "b")), None);
}
