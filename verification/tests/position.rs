use rnix_lsp::diagnostics::{diagnostics, locate};
use rnix_lsp::parse::{parse, FaultPlace, SyntaxFault};
use rnix_lsp::position::{
    apply_change, char_index, len_utf16, len_utf8, lookup_pos, offset_to_pos, range, Position,
};
use rnix_lsp::resolve::Anchor;
use rnix_lsp::text::chars_of;

fn at(line: usize, character: usize) -> Position {
    Position { line, character }
}

#[test]
fn offset_to_pos_counts_lines_and_utf16_columns() {
    let code = "ab\ncd\n\nef";
    assert_eq!(offset_to_pos(code, 0), at(0, 0));
    assert_eq!(offset_to_pos(code, 2), at(0, 2));
    assert_eq!(offset_to_pos(code, 3), at(1, 0));
    assert_eq!(offset_to_pos(code, 5), at(1, 2));
    assert_eq!(offset_to_pos(code, 6), at(2, 0));
    assert_eq!(offset_to_pos(code, 7), at(3, 0));
    assert_eq!(offset_to_pos(code, 9), at(3, 2));
    assert_eq!(offset_to_pos(code, 99), at(3, 2));
    assert_eq!(offset_to_pos("", 0), at(0, 0));
}

#[test]
fn offset_to_pos_counts_two_units_for_characters_beyond_the_basic_plane() {
    let code = "é𝒳x";
    assert_eq!(offset_to_pos(code, 2), at(0, 1));
    assert_eq!(offset_to_pos(code, 6), at(0, 3));
    assert_eq!(offset_to_pos(code, 7), at(0, 4));
    assert_eq!(offset_to_pos(code, 1), at(0, 0));
    assert_eq!(offset_to_pos(code, 4), at(0, 1));
}

#[test]
fn lookup_pos_finds_the_byte_of_a_line_and_column() {
    let code = "ab\ncd\n\nef";
    assert_eq!(lookup_pos(code, at(0, 0)), Some(0));
    assert_eq!(lookup_pos(code, at(0, 2)), Some(2));
    assert_eq!(lookup_pos(code, at(0, 9)), Some(2));
    assert_eq!(lookup_pos(code, at(1, 1)), Some(4));
    assert_eq!(lookup_pos(code, at(2, 0)), Some(6));
    assert_eq!(lookup_pos(code, at(2, 5)), Some(6));
    assert_eq!(lookup_pos(code, at(3, 2)), Some(9));
    assert_eq!(lookup_pos(code, at(3, 3)), Some(9));
    assert_eq!(lookup_pos(code, at(4, 0)), None);
    assert_eq!(lookup_pos("", at(0, 0)), Some(0));
    assert_eq!(lookup_pos("", at(1, 0)), None);
    assert_eq!(lookup_pos("a\n", at(1, 0)), Some(2));
}

#[test]
fn lookup_pos_takes_columns_as_utf16_units() {
    let code = "é𝒳x";
    assert_eq!(lookup_pos(code, at(0, 1)), Some(2));
    assert_eq!(lookup_pos(code, at(0, 2)), Some(2));
    assert_eq!(lookup_pos(code, at(0, 3)), Some(6));
    assert_eq!(lookup_pos(code, at(0, 4)), Some(7));
}

#[test]
fn positions_and_offsets_are_inverse_at_character_boundaries() {
    let code = "let é = \"𝒳\";\n\nin é # ü\n";
    for (offset, _) in code.char_indices().chain(std::iter::once((code.len(), ' '))) {
        assert_eq!(lookup_pos(code, offset_to_pos(code, offset)), Some(offset));
    }
}

#[test]
fn range_gives_both_ends() {
    assert_eq!(range("ab\ncd", 1, 4), (at(0, 1), at(1, 1)));
}

#[test]
fn lengths_follow_the_encodings() {
    for c in ['a', '\u{7f}', '\u{80}', 'é', '\u{7ff}', '\u{800}', '€', '\u{ffff}', '\u{10000}', '𝒳'] {
        assert_eq!(len_utf8(c), c.len_utf8());
        assert_eq!(len_utf16(c), c.len_utf16());
    }
}

#[test]
fn char_index_counts_characters() {
    let chars = chars_of("é𝒳\nx");
    assert_eq!(chars, vec!['é', '𝒳', '\n', 'x']);
    assert_eq!(char_index(&chars, at(0, 3)), Some(2));
    assert_eq!(char_index(&chars, at(1, 1)), Some(4));
    assert_eq!(char_index(&chars, at(2, 0)), None);
}

#[test]
fn apply_change_replaces_a_stretch() {
    let code = "let a = 1;\nin a\n";
    assert_eq!(apply_change(code, Some((at(0, 4), at(0, 5))), "bcd"), "let bcd = 1;\nin a\n");
    assert_eq!(apply_change(code, Some((at(1, 3), at(1, 4))), "bcd"), "let a = 1;\nin bcd\n");
    assert_eq!(apply_change(code, Some((at(0, 10), at(1, 0))), " "), "let a = 1; in a\n");
    assert_eq!(apply_change(code, Some((at(0, 0), at(0, 0))), "# c\n"), "# c\nlet a = 1;\nin a\n");
    assert_eq!(apply_change(code, Some((at(2, 0), at(2, 0))), "x"), "let a = 1;\nin a\nx");
    assert_eq!(apply_change(code, Some((at(0, 4), at(0, 5))), ""), "let  = 1;\nin a\n");
}

#[test]
fn apply_change_without_a_stretch_replaces_everything() {
    assert_eq!(apply_change("old", None, "new text"), "new text");
}

#[test]
fn apply_change_ends_at_the_end_of_the_text_for_places_behind_it() {
    assert_eq!(apply_change("ab", Some((at(0, 1), at(7, 0))), "x"), "ax");
    assert_eq!(apply_change("ab", Some((at(5, 0), at(7, 0))), "x"), "abx");
    assert_eq!(apply_change("ab", Some((at(0, 2), at(0, 1))), "x"), "abx");
}

#[test]
fn apply_change_counts_utf16_columns() {
    assert_eq!(apply_change("𝒳 = é;", Some((at(0, 5), at(0, 6))), "e"), "𝒳 = e;");
}

#[test]
fn selection_chain_grows_from_the_token() {
    let text = "f (a.b)";
    let tree = parse(text);
    let chain = tree.selection_chain(4);
    assert_eq!(chain, vec![(3, 4), (3, 6), (2, 7), (0, 7), (0, 7)]);
    assert_eq!(tree.selection_chain(99), Vec::new());
}

#[test]
fn path_literals_are_found_with_their_anchors() {
    let text = "[ ./a.nix /b <c/d> ~/e 1 \"s\" ]";
    let tree = parse(text);
    let links = tree.path_literals();
    let found: Vec<(usize, usize, Anchor, &str)> =
        links.iter().map(|l| (l.start, l.end, l.anchor, l.path.as_str())).collect();
    assert_eq!(
        found,
        vec![
            (2, 9, Anchor::Relative, "./a.nix"),
            (10, 12, Anchor::Absolute, "/b"),
            (13, 18, Anchor::Store, "c/d"),
            (19, 22, Anchor::Home, "e"),
        ]
    );
    let first = tree.closest_node_to(3).unwrap();
    assert_eq!(tree.path_literal(first).unwrap().1, "./a.nix");
    assert_eq!(tree.path_literal(0), None);
}

#[test]
fn diagnostics_locate_what_the_parser_cannot_read() {
    assert_eq!(diagnostics("let a = 1; in a").len(), 0);
    let found = diagnostics("{\n  a = ;\n}");
    assert!(!found.is_empty());
    assert_eq!(found[0].start, at(1, 6));
    assert_eq!(found[0].end, at(1, 7));
    assert!(found[0].message.contains("unexpected"));
    let found = diagnostics("let a = 1;\nin é (");
    assert!(!found.is_empty());
    let at_end = found.iter().find(|d| d.message.contains("end of file")).unwrap();
    assert_eq!(at_end.start, at(1, 6));
    assert_eq!(at_end.end, at(1, 6));
}

#[test]
fn locate_places_each_fault() {
    let fault = |place: FaultPlace, message: &str| SyntaxFault { place, message: message.to_string() };
    let found = locate(
        "ab\ncd",
        &vec![
            fault(FaultPlace::Stretch { start: 1, end: 4 }, "first"),
            fault(FaultPlace::Untold, "second"),
            fault(FaultPlace::EndOfText, "third"),
        ],
    );
    assert_eq!(found.len(), 2);
    assert_eq!((found[0].start, found[0].end), (at(0, 1), at(1, 1)));
    assert_eq!(found[0].message, "first");
    assert_eq!((found[1].start, found[1].end), (at(1, 2), at(1, 2)));
    assert_eq!(found[1].message, "third");
}
