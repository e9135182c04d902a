use rnix_lsp::context::{App, Location, Resolution, Resolved};
use rnix_lsp::builtins::load_builtins;
use rnix_lsp::resolve::Members;

fn resolved(found: Resolution) -> Resolved {
    match found {
        Resolution::Resolved(found) => found,
        Resolution::Unresolved => panic!("unresolved"),
        Resolution::Missing { uri } => panic!("missing {}", uri),
        Resolution::NeedBuiltins => panic!("need builtins"),
    }
}

fn names(found: &Resolved) -> Vec<String> {
    let mut names: Vec<String> =
        (0..found.scope.len()).map(|i| found.scope.entry(i).name.clone()).collect();
    names.sort();
    names
}

#[test]
fn bare_identifier_resolves_to_the_lexical_scope() {
    let mut app = App::new();
    let text = "let a = 1; b = 2; in a";
    let file = app.open_file("file:///main.nix".to_string(), text.to_string());
    let found = resolved(app.scope_for_ident(file, text.len() - 1));
    assert_eq!(names(&found), vec!["a", "b"]);
    assert_eq!(found.name, "a");
    assert_eq!(app.files().tree(file).start(found.ident), text.len() - 1);
    let place = app.lookup_definition(&Resolution::Resolved(found));
    assert_eq!(place, Some(Location { file, start: 4, end: 5 }));
}

#[test]
fn selected_name_resolves_into_the_set() {
    let mut app = App::new();
    let text = "let a = { b = { c = 1; d = 2; }; }; in a.b.c";
    let file = app.open_file("file:///main.nix".to_string(), text.to_string());
    let found = resolved(app.scope_for_ident(file, text.len() - 1));
    assert_eq!(names(&found), vec!["c", "d"]);
    assert_eq!(found.name, "c");
    let place = app.lookup_definition(&Resolution::Resolved(found)).unwrap();
    assert_eq!(place, Location { file, start: 16, end: 17 });
    let found = resolved(app.scope_for_ident(file, text.len() - 3));
    assert_eq!(names(&found), vec!["b"]);
}

#[test]
fn import_is_followed_into_the_other_file() {
    let mut app = App::new();
    let text = "let a = import ./f.nix; in a.b.c";
    let file = app.open_file("file:///home/u/main.nix".to_string(), text.to_string());
    let uri = match app.scope_for_ident(file, text.len() - 1) {
        Resolution::Missing { uri } => uri,
        _ => panic!("the imported file is not known yet"),
    };
    assert_eq!(uri, "file:///home/u/f.nix");
    let other = app.load_file(uri.clone(), "{ b = { c = 1; }; }".to_string());
    assert_ne!(other, file);
    let found = resolved(app.scope_for_ident(file, text.len() - 1));
    assert_eq!(names(&found), vec!["c"]);
    let var = found.scope.get("c").unwrap().var.unwrap();
    assert_eq!(var.file, other);
    assert_eq!(app.files().uri(var.file), "file:///home/u/f.nix");
    let place = app.lookup_definition(&Resolution::Resolved(found)).unwrap();
    assert_eq!(place, Location { file: other, start: 8, end: 9 });
}

#[test]
fn imports_are_followed_in_a_chain() {
    let mut app = App::new();
    let text = "let a = import ./one.nix; in a.x";
    let file = app.open_file("file:///d/main.nix".to_string(), text.to_string());
    app.load_file("file:///d/one.nix".to_string(), "import ./sub/two.nix".to_string());
    match app.scope_for_ident(file, text.len() - 1) {
        Resolution::Missing { uri } => assert_eq!(uri, "file:///d/sub/two.nix"),
        _ => panic!("the second file is not known yet"),
    }
    let two = app.load_file("file:///d/sub/two.nix".to_string(), "{ x = 1; }".to_string());
    let found = resolved(app.scope_for_ident(file, text.len() - 1));
    assert_eq!(found.scope.get("x").unwrap().var.unwrap().file, two);
}

#[test]
fn imports_in_a_circle_resolve_to_nothing() {
    let mut app = App::new();
    let text = "let a = import ./a.nix; in a.x";
    let file = app.open_file("file:///d/main.nix".to_string(), text.to_string());
    app.load_file("file:///d/a.nix".to_string(), "import ./b.nix".to_string());
    app.load_file("file:///d/b.nix".to_string(), "import ./a.nix".to_string());
    assert!(matches!(app.scope_for_ident(file, text.len() - 1), Resolution::Unresolved));
}

#[test]
fn file_that_imports_itself_resolves_to_nothing() {
    let mut app = App::new();
    let text = "let a = import ./main.nix; in a.x";
    let file = app.open_file("file:///d/main.nix".to_string(), text.to_string());
    assert!(matches!(app.scope_for_ident(file, text.len() - 1), Resolution::Unresolved));
    let own = app.open_file("file:///d/self.nix".to_string(), "import ./self.nix".to_string());
    let root = app.files().tree(own).root_expr().unwrap();
    assert!(matches!(app.scope_from_node(own, root), Members::Unknown));
}

#[test]
fn unknown_head_resolves_to_nothing() {
    let mut app = App::new();
    let text = "let a = { b = 1; }; in x.b";
    let file = app.open_file("file:///main.nix".to_string(), text.to_string());
    assert!(matches!(app.scope_for_ident(file, text.len() - 1), Resolution::Unresolved));
}

#[test]
fn value_without_members_resolves_to_nothing() {
    let mut app = App::new();
    for text in ["let a = 1; in a.b", "let a = x: x; in a.b", "a: a.b", "let a = [ ]; in a.b",
        "let a = f 1; in a.b", "let a = import <nixpkgs/%>; in a.b"] {
        let file = app.open_file("file:///main.nix".to_string(), text.to_string());
        assert!(matches!(app.scope_for_ident(file, text.len() - 1), Resolution::Unresolved), "{}", text);
    }
}

#[test]
fn nothing_at_the_place_resolves_to_nothing() {
    let mut app = App::new();
    let file = app.open_file("file:///main.nix".to_string(), "1 + 2".to_string());
    assert!(matches!(app.scope_for_ident(file, 0), Resolution::Unresolved));
    assert!(matches!(app.scope_for_ident(file, 99), Resolution::Unresolved));
    assert!(matches!(app.scope_for_ident(file + 1, 0), Resolution::Unresolved));
    assert_eq!(app.lookup_definition(&Resolution::Unresolved), None);
}

#[test]
fn builtins_are_asked_for_and_then_resolve() {
    let mut app = App::new();
    let text = "builtins.head";
    let file = app.open_file("file:///main.nix".to_string(), text.to_string());
    assert!(matches!(app.scope_for_ident(file, text.len()), Resolution::NeedBuiltins));
    app.install_builtins(load_builtins(None, None));
    let found = resolved(app.scope_for_ident(file, text.len()));
    assert_eq!(found.name, "head");
    assert_eq!(found.scope.len(), 80);
    let head = found.scope.get("head").unwrap();
    assert_eq!(head.var, None);
    assert_eq!(head.documentation, None);
    assert!(!head.deprecated);
    assert_eq!(head.render_detail(), "Lambda");
    assert_eq!(app.lookup_definition(&Resolution::Resolved(found)), None);
}

#[test]
fn nothing_is_selected_from_a_builtin() {
    let mut app = App::new();
    app.install_builtins(load_builtins(None, None));
    let text = "builtins.head.x";
    let file = app.open_file("file:///main.nix".to_string(), text.to_string());
    assert!(matches!(app.scope_for_ident(file, text.len()), Resolution::Unresolved));
}

#[test]
fn bound_builtins_name_shadows_the_table() {
    let mut app = App::new();
    app.install_builtins(load_builtins(None, None));
    let text = "let builtins = { mine = 1; }; in builtins.mine";
    let file = app.open_file("file:///main.nix".to_string(), text.to_string());
    let found = resolved(app.scope_for_ident(file, text.len()));
    assert_eq!(names(&found), vec!["mine"]);
}

#[test]
fn table_of_builtins_is_set_once() {
    let mut app = App::new();
    assert!(app.builtins().is_none());
    app.install_builtins(load_builtins(None, None));
    app.install_builtins(rnix_lsp::scope::Scope::new());
    assert_eq!(app.builtins().as_ref().unwrap().len(), 80);
}

#[test]
fn open_replaces_and_load_keeps() {
    let mut app = App::new();
    let a = app.open_file("file:///a.nix".to_string(), "1".to_string());
    let b = app.load_file("file:///b.nix".to_string(), "2".to_string());
    assert_eq!((a, b), (0, 1));
    assert_eq!(app.load_file("file:///a.nix".to_string(), "3".to_string()), a);
    assert_eq!(app.files().text(a), "1");
    assert_eq!(app.open_file("file:///b.nix".to_string(), "4 4".to_string()), b);
    assert_eq!(app.files().text(b), "4 4");
    assert_eq!(app.files().tree(b).end(0), 3);
    assert_eq!(app.files().len(), 2);
    assert_eq!(app.files().position("file:///b.nix"), Some(1));
    assert_eq!(app.files().position("file:///c.nix"), None);
    assert_eq!(app.files().uri(a), "file:///a.nix");
}

#[test]
fn scope_from_node_reads_the_members_of_a_set() {
    let mut app = App::new();
    let text = "let a = { b = 1; c = 2; }; in a";
    let file = app.open_file("file:///main.nix".to_string(), text.to_string());
    let found = resolved(app.scope_for_ident(file, text.len() - 1));
    let value = found.scope.get("a").unwrap().var.unwrap().value.unwrap();
    match app.scope_from_node(file, value) {
        Members::Known { file: home, scope } => {
            assert_eq!(home, file);
            assert_eq!(scope.len(), 2);
            assert_eq!(scope.entry(0).name, "b");
            assert_eq!(scope.entry(1).name, "c");
        },
        _ => panic!("the members are written out"),
    }
    assert!(matches!(app.scope_from_node(file, usize::MAX), Members::Unknown));
    assert!(matches!(app.scope_from_node(file + 1, 0), Members::Unknown));
}

#[test]
fn search_paths_and_home_paths_are_joined_without_their_marks() {
    let mut app = App::new();
    let text = "let a = import <nixpkgs>; b = import ~/x.nix; c = import /abs/y.nix; in a.x + b.x + c.x";
    let file = app.open_file("file:///d/main.nix".to_string(), text.to_string());
    let missing = |offset: usize| match app.scope_for_ident(file, offset) {
        Resolution::Missing { uri } => uri,
        _ => panic!("not known yet"),
    };
    assert_eq!(missing(text.find("a.x").unwrap() + 3), "file:///d/nixpkgs");
    assert_eq!(missing(text.find("b.x").unwrap() + 3), "file:///d/x.nix");
    assert_eq!(missing(text.find("c.x").unwrap() + 3), "file:///abs/y.nix");
}

#[test]
fn scope_completions_offer_the_names_that_begin_as_written() {
    let mut app = App::new();
    let text = "let abc = 1; abd = 2; xyz = 3; in ab";
    let file = app.open_file("file:///main.nix".to_string(), text.to_string());
    let found = app.scope_for_ident(file, text.len());
    let items = app.scope_completions(file, &found).unwrap();
    let labels: Vec<&str> = items.iter().map(|i| i.label.as_str()).collect();
    assert_eq!(labels, vec!["abc", "abd"]);
    for item in &items {
        assert_eq!((item.start, item.end), (text.len() - 2, text.len()));
        assert_eq!(item.new_text, item.label);
        assert_eq!(item.documentation, None);
    }
    assert!(app.scope_completions(file, &Resolution::Unresolved).is_none());
    assert!(app.scope_completions(file + 1, &found).is_none());
}

#[test]
fn documentation_query_is_the_identifier() {
    let mut app = App::new();
    let text = "lib.strings.concat";
    let file = app.open_file("file:///main.nix".to_string(), text.to_string());
    assert_eq!(app.documentation_query(file, text.len()), Some("concat".to_string()));
    assert_eq!(app.documentation_query(file, 0), Some("lib".to_string()));
    assert_eq!(app.documentation_query(file, 99), None);
    assert_eq!(app.documentation_query(file + 1, 0), None);
}

#[test]
fn names_of_paths_and_namespaces_through_the_state() {
    let mut app = App::new();
    let text = "{ a.b = c.d; }";
    let file = app.open_file("file:///main.nix".to_string(), text.to_string());
    let tree = app.files().tree(file);
    let node = tree.closest_node_to(text.len() - 4).unwrap();
    let (at, names) = app.full_ident_name(file, node).unwrap();
    assert_eq!(names, vec!["c".to_string(), "d".to_string()]);
    assert_eq!((tree.start(at), tree.end(at)), (8, 11));
    assert_eq!(app.namespace_for_node(file, node), vec!["a".to_string(), "b".to_string()]);
    assert_eq!(app.full_ident_name(file + 1, node), None);
    assert_eq!(app.namespace_for_node(file + 1, node), Vec::<String>::new());
    assert_eq!(app.namespace_for_node(file, usize::MAX), Vec::<String>::new());
}
