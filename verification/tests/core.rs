use anvomidav::base::diagnostics::{Diagnostic, Diagnostics, ErrorCode};
use anvomidav::base::skating::{Curve, Direction, Edge, Foot, JumpKind, Level, Rotations};
use anvomidav::base::source::{FileId, LineCol, SourceFile, Span};
use anvomidav::base::types::Beat;

#[test]
fn test_diagnostic_builder() {
    let span = Span::new(10, 20, FileId(0));
    let diag = Diagnostic::error("Type mismatch")
        .with_code(ErrorCode::TYPE_MISMATCH)
        .with_label(span, "expected int, found string")
        .with_help("Try converting the string to an integer");

    assert!(diag.is_error());
    assert_eq!(diag.code, Some(ErrorCode::new(ErrorCode::TYPE_MISMATCH)));
    assert_eq!(diag.labels.len(), 1);
    assert_eq!(diag.notes.len(), 1);
}

#[test]
fn test_diagnostics_collection() {
    let mut diags = Diagnostics::new();
    let span = Span::new(0, 10, FileId(0));

    diags.error("Error 1", span);
    diags.warning("Warning 1", span);
    diags.error("Error 2", span);

    assert!(diags.has_errors());
    assert_eq!(diags.error_count(), 2);
    assert_eq!(diags.warning_count(), 1);
}

#[test]
fn test_edge_decompose() {
    let (foot, dir, curve) = Edge::LFO.decompose();
    assert_eq!(foot, Foot::Left);
    assert_eq!(dir, Direction::Forward);
    assert_eq!(curve, Curve::Outside);
}

#[test]
fn test_edge_compose() {
    assert_eq!(Edge::compose(Foot::Right, Direction::Backward, Curve::Inside), Some(Edge::RBI));
}

#[test]
fn test_edge_switch_foot() {
    assert_eq!(Edge::LFO.switch_foot(), Edge::RFO);
    assert_eq!(Edge::RBI.switch_foot(), Edge::LBI);
}

#[test]
fn test_edge_parse() {
    assert_eq!(Edge::parse("LFO"), Some(Edge::LFO));
    assert_eq!(Edge::parse("rbi"), Some(Edge::RBI));
    assert_eq!(Edge::parse("invalid"), None);
}

#[test]
fn test_jump_kind_entry() {
    assert_eq!(JumpKind::Lutz.required_entry_edge(), Edge::LBO);
    assert_eq!(JumpKind::Flip.required_entry_edge(), Edge::LBI);
}

#[test]
fn test_level_ordering() {
    assert!(Level::B < Level::L1);
    assert!(Level::L1 < Level::L4);
}

#[test]
fn test_span_merge() {
    let file = FileId(0);
    let s1 = Span::new(10, 20, file);
    let s2 = Span::new(15, 30, file);
    let merged = s1.merge(&s2);
    assert_eq!(merged.start, 10);
    assert_eq!(merged.end, 30);
}

#[test]
fn test_source_file_line_col() {
    let file = SourceFile::new(FileId(0), "test.anv".to_string(), "line1\nline2\nline3".to_string());

    assert_eq!(file.line_col(0), LineCol::new(1, 1));
    assert_eq!(file.line_col(5), LineCol::new(1, 6));
    assert_eq!(file.line_col(6), LineCol::new(2, 1));
}

#[test]
fn test_source_file_line() {
    let file = SourceFile::new(FileId(0), "test.anv".to_string(), "line1\nline2\nline3".to_string());

    assert_eq!(file.line(1), Some("line1"));
    assert_eq!(file.line(2), Some("line2"));
    assert_eq!(file.line(3), Some("line3"));
    assert_eq!(file.line(4), None);
}

#[test]
fn test_beat_conversion() {
    let beat = Beat::new(3, 2);
    assert_eq!(beat.to_absolute(4), 9);
    assert_eq!(Beat::from_absolute(9, 4), beat);
}

#[test]
fn beat_round_trip_on_measure_boundaries() {
    for abs in [0u32, 3, 4, 7, 8, 15] {
        let b = Beat::from_absolute(abs, 4);
        assert_eq!(b.to_absolute(4), abs);
    }
    assert_eq!(Beat::new(2, 1).to_string(), "2.1");
}

#[test]
fn edge_compose_undoes_decompose_for_every_edge() {
    for e in [Edge::LFO, Edge::LFI, Edge::LBO, Edge::LBI, Edge::RFO, Edge::RFI, Edge::RBO, Edge::RBI] {
        let (f, d, c) = e.decompose();
        assert_eq!(Edge::compose(f, d, c), Some(e));
        assert_eq!(e.switch_foot().switch_foot(), e);
        assert_eq!(Edge::parse(e.to_string().as_str()), Some(e));
    }
}

#[test]
fn level_and_rotation_numbers_round_trip() {
    for n in 0u8..=4 {
        let l = Level::from_number(n).unwrap();
        assert_eq!(l.as_number(), n);
    }
    assert_eq!(Level::from_number(5), None);
    for n in 1u8..=4 {
        assert_eq!(Rotations::from_number(n).unwrap().as_number(), n);
    }
    assert_eq!(Rotations::from_number(0), None);
    assert_eq!(Level::L3.to_string(), "3");
    assert_eq!(Rotations::Quad.to_string(), "4");
}

#[test]
fn jump_kind_names_and_abbreviations() {
    assert_eq!(JumpKind::parse("toe_loop"), Some(JumpKind::ToeLoop));
    assert_eq!(JumpKind::Axel.abbrev(), "A");
    assert_eq!(JumpKind::Lutz.to_string(), "Lz");
    assert!(JumpKind::Flip.is_toe_jump());
    assert!(!JumpKind::Axel.is_toe_jump());
}

#[test]
fn jump_names_are_read_in_any_case() {
    assert_eq!(JumpKind::parse("LUTZ"), Some(JumpKind::Lutz));
    assert_eq!(JumpKind::parse("Salchow"), Some(JumpKind::Salchow));
    assert_eq!(JumpKind::parse("quad"), None);
}

#[test]
fn jump_abbreviations_parse_back_in_any_case() {
    let kinds = [
        JumpKind::Axel,
        JumpKind::Lutz,
        JumpKind::Flip,
        JumpKind::Loop,
        JumpKind::Salchow,
        JumpKind::ToeLoop,
        JumpKind::Euler,
    ];
    for k in kinds {
        assert_eq!(JumpKind::parse(k.abbrev()), Some(k));
        assert_eq!(JumpKind::parse(&k.to_string().to_uppercase()), Some(k));
        assert_eq!(JumpKind::parse(&k.to_string().to_lowercase()), Some(k));
    }
    assert_eq!(JumpKind::parse("x"), None);
}

#[test]
fn offsets_survive_line_and_column() {
    let file = SourceFile::new(FileId(0), "t.anv".to_string(), "program t {\n  jump axel\n\n}\n".to_string());
    for o in 0..30u32 {
        let lc = file.line_col(o);
        assert_eq!(file.offset(lc), Some(o));
    }
}
