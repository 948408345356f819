use anvomidav::base::source::FileId;
use anvomidav::semantics::rules::{Discipline, RequiredElementType, SegmentRules};
use anvomidav::semantics::validate::{validate_program, SemanticError, ValidationResult};
use anvomidav::syntax::ast::SegmentKind;
use anvomidav::syntax::parser::parse;

fn parse_and_validate(source: &str, discipline: Discipline) -> ValidationResult {
    let program = parse(source, FileId(0)).expect("Failed to parse");
    validate_program(&program, discipline)
}

#[test]
fn test_men_short_rules() {
    let rules = SegmentRules::men_short();
    assert_eq!(rules.max_jumps, Some(3));
    assert_eq!(rules.max_spins, Some(3));
    assert_eq!(rules.step_sequences, Some(1));
}

#[test]
fn test_pairs_short_rules() {
    let rules = SegmentRules::pairs_short();
    assert_eq!(rules.required_lifts, Some(1));
    assert_eq!(rules.required_throws, Some(1));
    assert_eq!(rules.required_death_spirals, Some(1));
}

#[test]
fn test_rhythm_dance_rules() {
    let rules = SegmentRules::rhythm_dance();
    assert_eq!(rules.required_twizzles, Some(1));
    assert!(rules.required_elements.iter().any(|e| e.element_type == RequiredElementType::Pattern));
}

#[test]
fn test_discipline_segment_rules() {
    let rules = Discipline::MenSingles.segment_rules(SegmentKind::Short);
    assert_eq!(rules.max_jumps, Some(3));

    let rules = Discipline::Pairs.segment_rules(SegmentKind::Free);
    assert_eq!(rules.required_lifts, Some(3));
}

#[test]
fn test_valid_singles_program() {
    let source = r#"
            program test {
                segment sp: short {
                    sequence {
                        jump triple axel
                        jump triple lutz
                        spin camel L3
                        step circular L4
                    }
                }
            }
        "#;
    let result = parse_and_validate(source, Discipline::MenSingles);
    assert!(result.errors.iter().all(|e| !matches!(e, SemanticError::InvalidForDiscipline { .. })));
}

#[test]
fn test_singles_with_pairs_element_fails() {
    let source = r#"
            program test {
                segment sp: short {
                    sequence {
                        lift Gr3 L4
                    }
                }
            }
        "#;
    let result = parse_and_validate(source, Discipline::MenSingles);
    assert!(result.has_errors());
    assert!(result.errors.iter().any(|e| matches!(e, SemanticError::InvalidForDiscipline { .. })));
}

#[test]
fn test_too_many_jumps() {
    let source = r#"
            program test {
                segment sp: short {
                    sequence {
                        jump triple axel
                        jump triple lutz
                        jump triple flip
                        jump triple loop
                    }
                }
            }
        "#;
    let result = parse_and_validate(source, Discipline::MenSingles);
    assert!(result.errors.iter().any(|e| matches!(e, SemanticError::TooManyElements { .. })));
}

#[test]
fn test_valid_pairs_program() {
    let source = r#"
            program test {
                segment sp: short {
                    sequence {
                        lift Gr5 L4
                        throw triple axel
                        twist double L3
                        death_spiral LBI L4
                        spin camel L3
                        step circular L4
                    }
                }
            }
        "#;
    let result = parse_and_validate(source, Discipline::Pairs);
    assert!(result.errors.iter().all(|e| !matches!(e, SemanticError::InvalidForDiscipline { .. })));
}

#[test]
fn test_ice_dance_no_multi_rotation_jumps() {
    let source = r#"
            program test {
                segment rd: rhythm {
                    sequence {
                        jump triple axel
                    }
                }
            }
        "#;
    let result = parse_and_validate(source, Discipline::IceDance);
    assert!(result.has_errors());
    assert!(result.errors.iter().any(|e| {
        if let SemanticError::InvalidForDiscipline { message, .. } = e {
            message.contains("single jumps")
        } else {
            false
        }
    }));
}

#[test]
fn test_exhibition_allows_anything() {
    let source = r#"
            program test {
                segment gala: exhibition {
                    sequence {
                        jump quad axel
                        lift Gr5 L4
                        choreographic spiral
                    }
                }
            }
        "#;
    let _result = parse_and_validate(source, Discipline::MenSingles);
}

#[test]
fn test_missing_step_sequence() {
    let source = r#"
            program test {
                segment sp: short {
                    sequence {
                        jump triple axel
                        spin camel L3
                    }
                }
            }
        "#;
    let result = parse_and_validate(source, Discipline::MenSingles);
    assert!(result
        .errors
        .iter()
        .any(|e| matches!(e, SemanticError::TooFewElements { element_type, .. } if element_type == "step sequence")));
}

#[test]
fn too_many_jumps_message_and_code() {
    let source = "program t { segment sp: short { sequence { jump triple axel jump triple lutz jump triple flip jump triple loop } } }";
    let result = parse_and_validate(source, Discipline::MenSingles);
    let e = result.errors.iter().find(|e| matches!(e, SemanticError::TooManyElements { .. })).unwrap();
    assert_eq!(e.to_string(), "Too many jump elements: found 4, maximum 3");
    assert_eq!(e.to_diagnostic().message, "Too many jump elements: found 4, maximum 3");
}
