use anvomidav::ide::docs::{
    context_cut_ok, cursor_offset_ok, get_context_at_position, get_keyword_documentation, handle_completion, hover_info,
    line_completions, CompletionKind,
};
use anvomidav::ide::edit::{find_definition, format_document, format_indentation, word_at_offset};
use anvomidav::ide::lines::{offset_to_position, position_to_offset, span_to_range};
use anvomidav::ide::lint::{generate_diagnostics, IssueSeverity};
use anvomidav::ide::outline::{document_symbol, validate_document};
use anvomidav::ide::hover::{definition_at, get_word_at_position, handle_definition, handle_hover, hover_at};

#[test]
fn unclosed_brace_is_reported_at_the_brace() {
    let issues = generate_diagnostics("program t {\n  segment s: short\n");
    // The second line holds "men" inside "segment", which draws a wording note.
    assert_eq!(issues.len(), 2);
    assert_eq!((issues[0].line, issues[0].start, issues[0].end), (0, 10, 11));
    assert_eq!(issues[0].severity, IssueSeverity::Error);
    assert_eq!(issues[0].message, "Unclosed brace");
    assert_eq!(issues[1].severity, IssueSeverity::Information);
    assert_eq!((issues[1].line, issues[1].start, issues[1].end), (1, 0, 18));
    assert!(generate_diagnostics("program t {\n}\n").is_empty());
}

#[test]
fn invalid_qualifier_and_wording_issues() {
    let issues = generate_diagnostics("jump penta axel\nladies short program 5:00\n");
    assert_eq!(issues.len(), 3);
    assert_eq!((issues[0].line, issues[0].start, issues[0].end), (0, 5, 10));
    assert_eq!(issues[0].message, "Invalid rotation qualifier 'penta'. Use single, double, triple, or quad.");
    assert_eq!(issues[1].severity, IssueSeverity::Warning);
    assert_eq!((issues[1].line, issues[1].start, issues[1].end), (1, 0, 25));
    assert_eq!(issues[2].severity, IssueSeverity::Information);
}

#[test]
fn positions_and_offsets() {
    let src = "ab\ncé\nx";
    assert_eq!(offset_to_position(src, 0), (0, 0));
    assert_eq!(offset_to_position(src, 3), (1, 0));
    assert_eq!(offset_to_position(src, 6), (1, 2));
    assert_eq!(offset_to_position(src, 100), (2, 1));
    assert_eq!(span_to_range(src, 1, 4), ((0, 1), (1, 1)));
    assert_eq!(position_to_offset(src, 1, 1), 4);
    assert_eq!(position_to_offset(src, 9, 0), src.len());
}

#[test]
fn keyword_documentation_and_hover() {
    assert!(get_keyword_documentation("axel").unwrap().starts_with("**axel**"));
    assert_eq!(get_keyword_documentation("nothing"), None);
    assert_eq!(hover_info("triple"), Some("**Triple** (3 rotations)".to_string()));
    assert_eq!(hover_info("axel"), None);
}

#[test]
fn completion_after_jump_and_spin() {
    let src = "jump tr\nspin ca\nother";
    assert!(context_cut_ok(src, 0, 6));
    assert_eq!(get_context_at_position(src, 0, 6), "jump");
    assert_eq!(get_context_at_position(src, 1, 3), "");
    assert_eq!(get_context_at_position(src, 1, 6), "spin");
    assert_eq!(get_context_at_position(src, 7, 0), "");
    let jump_items = handle_completion(src, 0, 6);
    assert_eq!(jump_items.len(), 10);
    assert_eq!(jump_items[0].label, "axel");
    assert_eq!(jump_items[0].kind, CompletionKind::EnumMember);
    assert_eq!(jump_items[6].label, "single");
    assert_eq!(jump_items[6].kind, CompletionKind::Keyword);
    assert_eq!(handle_completion(src, 1, 6).len(), 7);
    assert_eq!(handle_completion(src, 2, 2).len(), 21);
}

#[test]
fn server_completions_by_line() {
    let src = "segment s: \n  jump ";
    assert!(cursor_offset_ok(src, 1, 7));
    let items = line_completions(src, 1, 7);
    let labels: Vec<&str> = items.iter().map(|i| i.label.as_str()).collect();
    assert_eq!(labels, vec!["single", "double", "triple", "quad", "L1", "L2", "L3", "L4"]);
    let header = line_completions(src, 0, 11);
    assert!(header.iter().any(|i| i.label == "short"));
    let blank = line_completions("  ", 0, 2);
    assert_eq!(blank[0].insert_text.as_deref(), Some("sequence { }"));
}

#[test]
fn reindenting_a_document() {
    let src = "program t {\nsegment s: short {\n}\n}";
    assert_eq!(format_indentation(src), "program t {\n    segment s: short {\n    }\n}\n");
    let edit = format_document(src).unwrap();
    assert_eq!(edit.0, 4);
    let done = format_indentation(src);
    assert!(format_document(&done).is_none());
}

#[test]
fn definitions_and_words() {
    let src = "program t {\n  segment intro: short {}\n}\nintro";
    assert_eq!(find_definition(src, "intro"), Some((1, 10, 15)));
    assert_eq!(find_definition(src, "missing"), None);
    assert_eq!(word_at_offset(src, 23), "intro");
    assert_eq!(word_at_offset(src, 15), "segment");
    assert_eq!(word_at_offset(src, 0), "program");
}

#[test]
fn outline_of_a_program() {
    let src = "program t {\n  segment s: short {\n    sequence opening { jump triple axel }\n  }\n}";
    let sym = document_symbol(src).unwrap();
    assert_eq!(sym.name, "t");
    assert_eq!(sym.detail, "program");
    assert_eq!(sym.children.len(), 1);
    assert_eq!(sym.children[0].name, "s");
    assert_eq!(sym.children[0].detail, "Short");
    assert_eq!(sym.children[0].children[0].name, "opening");
    assert_eq!(sym.children[0].children[0].detail, "1 elements");
    assert!(document_symbol("program {").is_none());
}

#[test]
fn validating_documents() {
    let bad = validate_document("program {");
    assert_eq!(bad.len(), 1);
    assert_eq!(bad[0].code, "parse-error");
    let lift = validate_document("program t { segment sp: short { sequence { lift Gr3 L4 } } }");
    assert!(lift.iter().any(|d| d.code == "isu-rule"));
    assert!(lift.iter().all(|d| d.range == ((0, 0), (0, 1))));
    let mistyped = validate_document("program t {\n  fn f(x: Int) -> Bool = x\n}");
    assert_eq!(mistyped.len(), 1);
    assert_eq!(mistyped[0].code, "type-error");
    assert_eq!(mistyped[0].message, "type mismatch: expected Bool, found Int");
}

#[test]
fn word_under_the_cursor() {
    let src = "program test {\n  jump triple axel\n}";
    assert_eq!(get_word_at_position(src, 1, 8), Some("triple".to_string()));
    assert_eq!(get_word_at_position(src, 1, 6), Some("jump".to_string()));
    assert_eq!(get_word_at_position(src, 1, 40), None);
    assert_eq!(get_word_at_position(src, 7, 0), None);
    assert_eq!(get_word_at_position("naïve x", 0, 0), Some("naïve".to_string()));
    assert_eq!(get_word_at_position("a_b+c", 0, 1), Some("a_b".to_string()));
}

#[test]
fn hover_and_definition_through_the_word() {
    let doc = handle_hover("  jump triple axel", 0, 3).unwrap();
    assert!(doc.starts_with("**jump**"));
    assert_eq!(handle_hover("  frobnicate", 0, 4), None);
    let src = "program p {\n  segment sp: short {\n  }\n}\nsp";
    assert_eq!(handle_definition(src, 4, 1), Some((1, 10, 12)));
    assert_eq!(handle_definition(src, 9, 0), None);
}

#[test]
fn words_that_cannot_be_taken_are_refused() {
    // The column splits the two bytes of "é".
    assert_eq!(hover_at("é", 0, 1), None);
    // A three-byte arrow ends the word on the left.
    assert_eq!(hover_at("\u{2192}axel", 0, 4), None);
    assert_eq!(definition_at("\u{2192}axel", 0, 4), None);
    assert_eq!(hover_at("axel", 0, 1).unwrap().unwrap().starts_with("**axel**"), true);
    assert_eq!(definition_at("sequence intro {}\nintro", 1, 0), Some(Some((0, 9, 14))));
    assert_eq!(definition_at("sequence s {}\ns", 1, 0), Some(None));
}

#[test]
fn positions_lead_back_to_their_offsets() {
    let src = "program t {\n  segment s: short\n}\n";
    for offset in 0..=src.len() {
        let (line, col) = offset_to_position(src, offset);
        assert_eq!(position_to_offset(src, line as u32, col as u32), offset);
    }
    // With a carriage return the line length leaves it out, and the way back falls short.
    let crlf = "ab\r\ncd";
    let (line, col) = offset_to_position(crlf, 5);
    assert_eq!((line, col), (1, 1));
    assert_eq!(position_to_offset(crlf, line as u32, col as u32), 4);
}
