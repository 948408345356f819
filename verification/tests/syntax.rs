use anvomidav::base::skating::{JumpKind, Level, Rotations, SpinPosition};
use anvomidav::base::source::{FileId, Span};
use anvomidav::syntax::ast::{ElementKind, Ident, JumpElement, Program, SegmentKind, Spanned, StepPattern};
use anvomidav::syntax::format::{format_with_options, FormatOptions};
use anvomidav::syntax::parser::parse;
use anvomidav::syntax::token::{Lexer, Token};

fn dummy_span() -> Span {
    Span::new(0, 0, FileId(0))
}

fn ident(name: &str) -> Ident {
    Spanned::new(name.to_string(), dummy_span())
}

fn lex(source: &str) -> Vec<Token> {
    Lexer::tokenize(source).unwrap().into_iter().map(|t| t.token).collect()
}

#[test]
fn test_spanned() {
    let spanned = Spanned::new(42, dummy_span());
    assert_eq!(spanned.node, 42);
}

#[test]
fn test_segment_kind_display() {
    assert_eq!(SegmentKind::Short.to_string(), "short");
    assert_eq!(SegmentKind::Free.to_string(), "free");
    assert_eq!(SegmentKind::Pattern.to_string(), "pattern");
}

#[test]
fn test_jump_element() {
    let jump = JumpElement {
        kind: JumpKind::Axel,
        rotations: Rotations::Triple,
        entry_edge: None,
        exit_edge: None,
        combination: vec![],
    };
    assert_eq!(jump.kind, JumpKind::Axel);
    assert_eq!(jump.rotations, Rotations::Triple);
}

#[test]
fn test_program_structure() {
    let program = Program {
        name: ident("test_program"),
        docs: vec![],
        imports: vec![],
        types: vec![],
        functions: vec![],
        segments: vec![],
    };
    assert_eq!(program.name.node, "test_program");
}

#[test]
fn test_keywords() {
    assert_eq!(
        lex("program segment sequence element jump spin step"),
        vec![Token::Program, Token::Segment, Token::Sequence, Token::Element, Token::Jump, Token::Spin, Token::Step]
    );
}

#[test]
fn test_operators() {
    assert_eq!(
        lex("+ - * / == != < <= > >= && || !"),
        vec![
            Token::Plus,
            Token::Minus,
            Token::Star,
            Token::Slash,
            Token::EqEq,
            Token::NotEq,
            Token::Lt,
            Token::LtEq,
            Token::Gt,
            Token::GtEq,
            Token::AndAnd,
            Token::OrOr,
            Token::Not,
        ]
    );
}

#[test]
fn test_literals() {
    assert_eq!(
        lex(r#"42 2.5 1:30 2:30:45 "hello world" my_var"#),
        vec![
            Token::Integer(42),
            Token::Float("2.5".to_string()),
            Token::Time("1:30".to_string()),
            Token::Time("2:30:45".to_string()),
            Token::String("hello world".to_string()),
            Token::Ident("my_var".to_string()),
        ]
    );
}

#[test]
fn test_edges() {
    assert_eq!(
        lex("LFO LFI LBO LBI RFO RFI RBO RBI"),
        vec![Token::LFO, Token::LFI, Token::LBO, Token::LBI, Token::RFO, Token::RFI, Token::RBO, Token::RBI]
    );
}

#[test]
fn test_jump_types() {
    assert_eq!(
        lex("axel lutz flip loop salchow toe_loop euler"),
        vec![Token::Axel, Token::Lutz, Token::Flip, Token::Loop, Token::Salchow, Token::ToeLoop, Token::Euler]
    );
}

#[test]
fn test_comments() {
    assert_eq!(
        lex("program // this is a comment\nsegment /* block comment */ element"),
        vec![Token::Program, Token::Segment, Token::Element]
    );
}

#[test]
fn test_doc_comment() {
    assert_eq!(
        lex("/// This is documentation\nprogram"),
        vec![Token::DocComment("This is documentation".to_string()), Token::Program]
    );
}

#[test]
fn test_skating_element() {
    assert_eq!(
        lex("jump triple axel at 1:30"),
        vec![Token::Jump, Token::Triple, Token::Axel, Token::At, Token::Time("1:30".to_string())]
    );
}

#[test]
fn test_parse_empty_program() {
    let result = parse("program test {}", FileId(0));
    assert!(result.is_ok());
    let program = result.unwrap();
    assert_eq!(program.name.node, "test");
    assert!(program.segments.is_empty());
}

#[test]
fn test_parse_program_with_segment() {
    let source = r#"
            program my_program {
                segment intro: short {
                    sequence {
                        jump triple axel at 1:30
                    }
                }
            }
        "#;
    let result = parse(source, FileId(0));
    assert!(result.is_ok());
    let program = result.unwrap();
    assert_eq!(program.name.node, "my_program");
    assert_eq!(program.segments.len(), 1);
    assert_eq!(program.segments[0].name.node, "intro");
    assert_eq!(program.segments[0].kind, SegmentKind::Short);
}

#[test]
fn test_parse_jump_element() {
    let result = parse("program t { segment s: free { sequence { jump triple lutz } } }", FileId(0));
    assert!(result.is_ok());
    let program = result.unwrap();
    let element = &program.segments[0].sequences[0].elements[0];
    match &element.kind {
        ElementKind::Jump(jump) => {
            assert_eq!(jump.kind, JumpKind::Lutz);
            assert_eq!(jump.rotations, Rotations::Triple);
        }
        _ => panic!("Expected jump element"),
    }
}

#[test]
fn test_parse_spin_element() {
    let result = parse("program t { segment s: free { sequence { spin camel sit L3 } } }", FileId(0));
    assert!(result.is_ok());
    let program = result.unwrap();
    let element = &program.segments[0].sequences[0].elements[0];
    match &element.kind {
        ElementKind::Spin(spin) => {
            assert_eq!(spin.positions.len(), 2);
            assert_eq!(spin.positions[0].position, SpinPosition::Camel);
            assert_eq!(spin.positions[1].position, SpinPosition::Sit);
            assert_eq!(spin.level, Some(Level::L3));
        }
        _ => panic!("Expected spin element"),
    }
}

#[test]
fn test_parse_step_sequence() {
    let result = parse("program t { segment s: free { sequence { step circular L4 } } }", FileId(0));
    assert!(result.is_ok());
    let program = result.unwrap();
    let element = &program.segments[0].sequences[0].elements[0];
    match &element.kind {
        ElementKind::StepSequence(steps) => {
            assert_eq!(steps.pattern, StepPattern::Circular);
            assert_eq!(steps.level, Some(Level::L4));
        }
        _ => panic!("Expected step sequence"),
    }
}

#[test]
fn test_lexer_error() {
    let source = "program test { @ }";
    let _result = parse(source, FileId(0));
}

#[test]
fn test_format_simple_program() {
    let source = r#"program test {
segment sp: short {
sequence {
jump triple axel
}
}
}"#;
    let result = anvomidav::syntax::format::format(source).unwrap();
    assert!(result.contains("program test"));
    assert!(result.contains("    segment sp: short"));
    assert!(result.contains("        sequence"));
    assert!(result.contains("            jump triple axel"));
}

#[test]
fn test_format_preserves_doc_comments() {
    let source = r#"/// This is a test
program test {}"#;
    let result = anvomidav::syntax::format::format(source).unwrap();
    assert!(result.starts_with("/// This is a test"));
}

#[test]
fn test_format_with_timing() {
    let result = anvomidav::syntax::format::format("program t { segment s: free { sequence { jump triple lutz at 1:30 } } }").unwrap();
    assert!(result.contains("jump triple lutz at 1:30"));
}

#[test]
fn test_format_spin_with_positions() {
    let result = anvomidav::syntax::format::format("program t { segment s: free { sequence { spin camel sit upright L4 } } }").unwrap();
    assert!(result.contains("spin camel sit upright L4"));
}

#[test]
fn test_format_pairs_elements() {
    let source = "program t { segment s: short { sequence { lift Gr5 L4 throw triple lutz death_spiral LBI L3 } } }";
    let result = anvomidav::syntax::format::format(source).unwrap();
    assert!(result.contains("lift Gr5 L4"));
    assert!(result.contains("throw triple lutz"));
    assert!(result.contains("death_spiral LBI L3"));
}

#[test]
fn formatting_is_stable_on_its_own_output() {
    let source = "program t { segment s: free { sequence { jump triple lutz at 1:30 spin camel sit L3 } } }";
    let once = anvomidav::syntax::format::format(source).unwrap();
    let twice = anvomidav::syntax::format::format(&once).unwrap();
    assert_eq!(once, twice);
}

#[test]
fn format_exact_text_of_a_small_program() {
    let result = anvomidav::syntax::format::format("program t { segment s: free { sequence { jump triple lutz } } }").unwrap();
    assert_eq!(result, "program t {\n    segment s: free {\n        sequence {\n            jump triple lutz\n        }\n    }\n}\n");
}

#[test]
fn format_with_two_space_indent() {
    let options = FormatOptions { indent: "  ".to_string(), ..FormatOptions::default() };
    let result = format_with_options("program t { segment s: free { sequence { jump triple lutz } } }", options).unwrap();
    assert!(result.contains("\n  segment s: free {\n    sequence {\n      jump triple lutz\n"));
}

#[test]
fn parse_error_reports_the_unexpected_token() {
    let errors = parse("program {", FileId(0)).unwrap_err();
    assert_eq!(errors.len(), 1);
    assert!(errors[0].found.is_some());
    let format_errors = anvomidav::syntax::format::format("program {").unwrap_err();
    assert_eq!(format_errors.len(), 1);
}

#[test]
fn lexer_rejects_an_unknown_character() {
    let err = Lexer::tokenize("program $").unwrap_err();
    assert_eq!(err.span, 8..9);
    assert_eq!(err.message, "unexpected character: \"$\"");
    assert!(parse("program $", FileId(0)).is_err());
}

#[test]
fn keyword_text_lexes_back_to_the_keyword() {
    for t in [Token::Program, Token::Jump, Token::Triple, Token::LBO, Token::EqEq, Token::Arrow] {
        let text = t.to_string();
        assert_eq!(lex(&text), vec![t]);
    }
}

#[test]
fn default_options_format_as_format_does() {
    let good = "program t { segment s: free { sequence { jump triple lutz spin camel L4 } } }";
    assert_eq!(format_with_options(good, FormatOptions::default()).unwrap(), anvomidav::syntax::format::format(good).unwrap());
    let bad = "program {";
    let a = format_with_options(bad, FormatOptions::default()).unwrap_err();
    let b = anvomidav::syntax::format::format(bad).unwrap_err();
    let p = parse(bad, FileId(0)).unwrap_err();
    assert_eq!(a.len(), b.len());
    assert_eq!(a.len(), p.len());
    assert_eq!(a[0].message, b[0].message);
    assert_eq!(a[0].message, p[0].message);
}
