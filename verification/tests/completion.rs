use rnix_lsp::context::App;
use rnix_lsp::completion::{
    is_offered, next_namespace_step_completions, shared_prefix, DocEntry,
    NamespaceCompletionResult,
};

fn strings(items: &[&str]) -> Vec<String> {
    items.iter().map(|s| s.to_string()).collect()
}

fn entry(name: &str, documentation: &str, source: &str) -> DocEntry {
    DocEntry {
        name: name.to_string(),
        documentation: documentation.to_string(),
        source: source.to_string(),
    }
}

fn index() -> Vec<DocEntry> {
    vec![
        entry("lib.strings.concat", "concat doc", "Nixpkgs Comments"),
        entry("lib.strings.trim", "trim doc", "Nixpkgs Comments"),
        entry("lib.lists.length", "length doc", "Nixpkgs Comments"),
    ]
}

fn shown(results: &[NamespaceCompletionResult]) -> Vec<(bool, String)> {
    results.iter().map(|r| (r.try_as_doc_entry().is_some(), r.name())).collect()
}

#[test]
fn one_segment_query_groups_everything_under_it() {
    let (path, results) = next_namespace_step_completions(strings(&["lib"]), index());
    assert_eq!(path, strings(&["lib"]));
    assert_eq!(shown(&results), vec![(false, "lib".to_string())]);
}

#[test]
fn two_segment_query_offers_the_entries_one_step_further() {
    let (path, results) = next_namespace_step_completions(strings(&["lib", "strings"]), index());
    assert_eq!(path, strings(&["lib", "strings"]));
    assert_eq!(
        shown(&results),
        vec![
            (true, "lib.strings.concat".to_string()),
            (true, "lib.strings.trim".to_string()),
            (true, "lib.lists.length".to_string()),
        ]
    );
    assert_eq!(results[0].try_as_doc_entry().unwrap().documentation, "concat doc");
}

#[test]
fn deeper_entries_are_grouped_by_the_matched_prefix() {
    let entries = vec![
        entry("lib.strings.concat", "", ""),
        entry("lib.strings", "set", ""),
        entry("lib", "top", ""),
        entry("lib.strings.sub.deep", "", ""),
    ];
    let (_, results) = next_namespace_step_completions(strings(&["lib", "strings"]), entries);
    assert_eq!(
        shown(&results),
        vec![
            (true, "lib.strings.concat".to_string()),
            (false, "lib.strings".to_string()),
            (false, "lib".to_string()),
        ]
    );
}

#[test]
fn candidates_that_share_nothing_are_passed_over() {
    let entries = vec![entry("pkgs.hello", "", ""), entry("lib.id", "id doc", ""), entry("libs.x", "", "")];
    let (_, results) = next_namespace_step_completions(strings(&["lib"]), entries);
    assert_eq!(shown(&results), vec![(true, "lib.id".to_string())]);
}

#[test]
fn no_candidate_gives_no_completion() {
    let (path, results) = next_namespace_step_completions(strings(&["lib"]), Vec::new());
    assert_eq!(path, strings(&["lib"]));
    assert!(results.is_empty());
    let (_, results) = next_namespace_step_completions(Vec::new(), index());
    assert!(results.is_empty());
    let (_, results) = next_namespace_step_completions(strings(&["x"]), index());
    assert!(results.is_empty());
}

#[test]
fn same_name_from_two_sources_is_offered_once() {
    let entries = vec![
        entry("lib.id", "from the comments", "Nixpkgs Comments"),
        entry("lib.id", "from the manual", "Nixpkgs Documentation"),
        entry("lib.const", "const", "Nixpkgs Comments"),
    ];
    let (_, results) = next_namespace_step_completions(strings(&["lib"]), entries);
    assert_eq!(shown(&results), vec![(true, "lib.id".to_string()), (true, "lib.const".to_string())]);
    let first = results[0].try_as_doc_entry().unwrap();
    assert_eq!(first.documentation, "from the comments");
    assert_eq!(first.source, "Nixpkgs Comments");
}

#[test]
fn shared_prefix_counts_equal_leading_segments() {
    assert_eq!(shared_prefix(&strings(&["lib", "strings", "concat"]), &strings(&["lib", "strings"])), 2);
    assert_eq!(shared_prefix(&strings(&["lib", "lists"]), &strings(&["lib", "strings"])), 1);
    assert_eq!(shared_prefix(&strings(&["lib"]), &strings(&["lib", "strings"])), 1);
    assert_eq!(shared_prefix(&strings(&["x", "strings"]), &strings(&["lib", "strings"])), 0);
    assert_eq!(shared_prefix(&strings(&[]), &strings(&["lib"])), 0);
}

#[test]
fn is_offered_goes_by_the_display_name() {
    let results = vec![
        NamespaceCompletionResult::Group("lib".to_string()),
        NamespaceCompletionResult::Leaf(entry("lib.id", "", "")),
    ];
    assert!(is_offered(&results, "lib"));
    assert!(is_offered(&results, "lib.id"));
    assert!(!is_offered(&results, "lib.i"));
    assert_eq!(results[0].name(), "lib");
    assert!(results[0].try_as_doc_entry().is_none());
    assert_eq!(results[1].try_as_doc_entry().unwrap().duplicate().name, "lib.id");
}

#[test]
fn completions_replace_the_path_that_is_written() {
    let mut app = App::new();
    let text = "f lib.strings.co";
    let file = app.open_file("file:///a.nix".to_string(), text.to_string());
    assert_eq!(app.completion_query(file, text.len()), Some("lib.strings.co".to_string()));
    let items = app.completions(file, text.len(), index()).unwrap();
    let labels: Vec<&str> = items.iter().map(|i| i.label.as_str()).collect();
    assert_eq!(labels, vec!["lib.strings.concat", "lib.strings.trim", "lib.lists.length"]);
    for item in &items {
        assert_eq!((item.start, item.end), (2, 16));
        assert_eq!(item.new_text, item.label);
    }
    assert_eq!(items[0].documentation, Some("concat doc".to_string()));

    let text = "lib.";
    let file = app.open_file("file:///b.nix".to_string(), text.to_string());
    assert_eq!(app.completion_query(file, 2), Some("lib".to_string()));
    let items = app.completions(file, 2, index()).unwrap();
    assert_eq!(items.len(), 1);
    assert_eq!(items[0].label, "lib");
    assert_eq!(items[0].documentation, None);
    assert_eq!((items[0].start, items[0].end), (0, 4));
}

#[test]
fn completions_are_empty_where_no_path_is_written() {
    let mut app = App::new();
    let file = app.open_file("file:///a.nix".to_string(), "1 + 2".to_string());
    assert_eq!(app.completion_query(file, 0), None);
    assert_eq!(app.completions(file, 0, index()).unwrap().len(), 0);
    assert!(app.manix_value_completions(file, 0, index()).is_none());
    assert_eq!(app.completions(file + 1, 0, index()).unwrap().len(), 0);
}

#[test]
fn documentation_puts_one_entry_below_the_other() {
    let app = App::new();
    assert_eq!(app.documentation(&index()), "concat doc\ntrim doc\nlength doc");
    assert_eq!(app.documentation(&Vec::new()), "");
}
