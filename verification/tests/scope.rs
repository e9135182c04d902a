use rnix_lsp::parse::parse;
use rnix_lsp::scope::{Datatype, LSPDetails, Scope, Var};
use rnix_lsp::tree::Tree;

fn names(scope: &Scope) -> Vec<String> {
    let mut names: Vec<String> = (0..scope.len()).map(|i| scope.entry(i).name.clone()).collect();
    names.sort();
    names
}

fn scope_of(tree: &Tree, offset: usize) -> Scope {
    let info = tree.ident_at(offset).unwrap();
    tree.scope_at(7, info.ident)
}

fn var(scope: &Scope, name: &str) -> Var {
    scope.get(name).unwrap().var.unwrap()
}

#[test]
fn let_members_are_variables_with_their_values() {
    let text = "let a = 1; b.c = 2; in a";
    let tree = parse(text);
    let scope = scope_of(&tree, text.len() - 1);
    assert_eq!(names(&scope), vec!["a", "b"]);
    let a = var(&scope, "a");
    assert_eq!(a.file, 7);
    assert_eq!(a.datatype, Datatype::Variable);
    assert_eq!((tree.start(a.key), tree.end(a.key)), (4, 5));
    assert_eq!((tree.start(a.set), tree.end(a.set)), (0, text.len()));
    let value = a.value.unwrap();
    assert_eq!((tree.start(value), tree.end(value)), (8, 9));
    assert_eq!(scope.get("a").unwrap().datatype, Datatype::Variable);
    assert!(scope.get("c").is_none());
}

#[test]
fn inner_binding_shadows_outer_one() {
    let text = "let a = 1; in let a = 2; in a";
    let tree = parse(text);
    let scope = scope_of(&tree, text.len() - 1);
    assert_eq!(names(&scope), vec!["a"]);
    let a = var(&scope, "a");
    assert_eq!(tree.start(a.key), text.rfind("a = 2").unwrap());
    assert_eq!(tree.start(a.set), text.find("let a = 2").unwrap());
}

#[test]
fn parameter_shadows_let_and_let_shadows_parameter() {
    let text = "let x = 1; in x: x";
    let tree = parse(text);
    let x = var(&scope_of(&tree, text.len() - 1), "x");
    assert_eq!(x.datatype, Datatype::Lambda);
    assert_eq!(x.value, None);
    assert_eq!(tree.start(x.key), text.find("x: x").unwrap());

    let text = "x: let x = 1; in x";
    let tree = parse(text);
    let x = var(&scope_of(&tree, text.len() - 1), "x");
    assert_eq!(x.datatype, Datatype::Variable);
    assert_eq!(tree.start(x.key), 7);
}

#[test]
fn first_member_of_a_name_wins_within_one_construct() {
    let text = "let a.x = 1; a.y = 2; in a";
    let tree = parse(text);
    let a = var(&scope_of(&tree, text.len() - 1), "a");
    assert_eq!(tree.start(a.key), 4);
}

#[test]
fn pattern_parameters_are_bound() {
    let text = "{ a, b ? a, ... }: b";
    let tree = parse(text);
    let scope = scope_of(&tree, text.len() - 1);
    assert_eq!(names(&scope), vec!["a", "b"]);
    let b = var(&scope, "b");
    assert_eq!(b.datatype, Datatype::Lambda);
    assert_eq!(b.value, None);
    assert_eq!(tree.start(b.key), 5);
    assert_eq!(tree.start(b.set), 0);
    let inside = scope_of(&tree, text.find("? a").unwrap() + 2);
    assert_eq!(names(&inside), vec!["a", "b"]);
}

#[test]
fn pattern_binds_the_whole_argument_too() {
    let text = "args @ { a, ... }: args";
    let tree = parse(text);
    let scope = scope_of(&tree, text.len() - 1);
    assert_eq!(names(&scope), vec!["a", "args"]);
    let args = var(&scope, "args");
    assert_eq!(args.datatype, Datatype::Lambda);
    assert_eq!(tree.start(args.key), 0);
    assert_eq!(args.value, None);

    let text = "{ a } @ all: all";
    let tree = parse(text);
    let scope = scope_of(&tree, text.len() - 1);
    assert_eq!(names(&scope), vec!["a", "all"]);
    assert_eq!(tree.start(var(&scope, "all").key), 8);
}

#[test]
fn recursive_sets_bind_and_plain_sets_do_not() {
    let text = "rec { a = 1; b = a; }";
    let tree = parse(text);
    let scope = scope_of(&tree, text.find("a;").unwrap());
    assert_eq!(names(&scope), vec!["a", "b"]);
    assert_eq!(var(&scope, "a").datatype, Datatype::Attribute);

    let text = "{ a = 1; b = a; }";
    let tree = parse(text);
    let scope = scope_of(&tree, text.find("a;").unwrap());
    assert_eq!(names(&scope), Vec::<String>::new());
}

#[test]
fn legacy_let_binds_its_members() {
    let text = "let { a = 1; body = a; }";
    let tree = parse(text);
    let scope = scope_of(&tree, text.find("a;").unwrap());
    assert_eq!(names(&scope), vec!["a", "body"]);
    assert_eq!(var(&scope, "a").datatype, Datatype::Variable);
}

#[test]
fn with_brings_the_members_of_a_written_set_into_its_body() {
    let text = "with { a = 1; b = 2; }; a";
    let tree = parse(text);
    let scope = scope_of(&tree, text.len() - 1);
    assert_eq!(names(&scope), vec!["a", "b"]);
    let a = var(&scope, "a");
    assert_eq!(a.datatype, Datatype::Attribute);
    assert_eq!(tree.start(a.set), 0);
    assert_eq!(tree.start(a.key), 7);
    assert_eq!(tree.start(a.value.unwrap()), 11);
}

#[test]
fn with_brings_nothing_into_its_subject_or_from_an_expression() {
    let text = "with { a = x; }; a";
    let tree = parse(text);
    let scope = scope_of(&tree, text.find("x").unwrap());
    assert_eq!(names(&scope), Vec::<String>::new());

    let text = "with pkgs; a";
    let tree = parse(text);
    let scope = scope_of(&tree, text.len() - 1);
    assert_eq!(names(&scope), Vec::<String>::new());
}

#[test]
fn scope_at_of_no_node_is_empty() {
    let tree = parse("let a = 1; in a");
    assert_eq!(tree.scope_at(0, tree.len()).len(), 0);
    assert_eq!(tree.scope_at(0, usize::MAX).len(), 0);
}

#[test]
fn declare_keeps_the_first_of_a_name() {
    let mut scope = Scope::new();
    scope.declare("a".to_string(), LSPDetails::builtin_fallback());
    scope.declare("b".to_string(), LSPDetails::builtin_with_doc(true, None, "doc".to_string()));
    scope.declare("a".to_string(), LSPDetails::builtin_with_doc(true, None, "late".to_string()));
    assert_eq!(scope.len(), 2);
    assert_eq!(scope.position("a"), Some(0));
    assert_eq!(scope.position("b"), Some(1));
    assert_eq!(scope.position("c"), None);
    assert!(scope.contains("b"));
    assert!(!scope.contains("c"));
    assert_eq!(scope.get("a").unwrap().documentation, None);
    assert_eq!(scope.get("b").unwrap().documentation, Some("doc".to_string()));
    let copy = scope.duplicate();
    assert_eq!(copy.len(), 2);
    assert_eq!(copy.entry(1).name, "b");
    assert!(copy.get("b").unwrap().deprecated);
}

#[test]
fn render_detail_shows_the_signature() {
    assert_eq!(LSPDetails::builtin_fallback().render_detail(), "Lambda");
    let documented = LSPDetails::builtin_with_doc(false, Some("e1 -> e2".to_string()), String::new());
    assert_eq!(documented.render_detail(), "Lambda: e1 -> e2 -> Result");
    let var = Var { file: 0, set: 1, key: 2, value: None, datatype: Datatype::Attribute };
    let bound = LSPDetails::from_scope(Datatype::Attribute, var);
    assert_eq!(bound.render_detail(), "Attribute");
    assert_eq!(bound.var, Some(var));
    assert_eq!(Datatype::Variable.name(), "Variable");
    let copy = documented.duplicate();
    assert_eq!(copy.params, Some("e1 -> e2".to_string()));
    assert_eq!(copy.documentation, Some(String::new()));
}
