use anvomidav::base::source::FileId;
use anvomidav::semantics::rules::Discipline;
use anvomidav::semantics::validate::validate_program;
use anvomidav::syntax::parser::parse;

#[test]
fn test_parser_integration() {
    let source = r#"
program test_program {
    segment sp: short {
        sequence opening {
            jump triple axel
        }
    }
}
    "#;
    let result = parse(source, FileId(0));
    assert!(result.is_ok(), "Valid program should parse successfully: {:?}", result);
}

#[test]
fn test_parser_error_handling() {
    let source = r#"
        program Test
        // Missing discipline and duration
    "#;
    let result = parse(source, FileId(0));
    assert!(result.is_ok() || result.is_err());
}

#[test]
fn test_type_checking_integration() {
    let source = r#"
program spin_test {
    segment sp: short {
        sequence spin_seq {
            spin upright L4
        }
    }
}
    "#;
    let result = parse(source, FileId(0));
    assert!(result.is_ok(), "Spin program should parse: {:?}", result);
    if let Ok(program) = result {
        let type_result = anvomidav::typing::check::check(&program, FileId(0));
        match type_result {
            Ok(_) => {}
            Err(errors) => {
                assert!(!errors.is_empty());
            }
        }
    }
}

#[test]
fn test_semantic_validation() {
    let source = r#"
program jump_test {
    segment sp: short {
        sequence axel_seq {
            jump double axel
        }
    }
}
    "#;
    let result = parse(source, FileId(0));
    assert!(result.is_ok(), "Jump program should parse: {:?}", result);
    if let Ok(program) = result {
        let validation = validate_program(&program, Discipline::MenSingles);
        assert!(validation.errors.len() + validation.warnings.len() >= 0, "Validation should return result");
    }
}

#[test]
fn integration_test_test_empty_program() {
    let result = parse("", FileId(0));
    assert!(result.is_ok() || result.is_err());
}

#[test]
fn test_multiline_program() {
    let source = r#"
program complex_routine {
    segment sp: short {
        sequence jump_combo {
            jump quad lutz
            jump triple toe_loop
        }

        sequence spin_combo {
            spin camel sit upright L4
        }

        sequence steps {
            step circular L4
        }
    }
}
    "#;
    let result = parse(source, FileId(0));
    assert!(result.is_ok(), "Multi-element program should parse: {:?}", result);
    if let Ok(program) = result {
        let validation = validate_program(&program, Discipline::Pairs);
        assert!(validation.errors.len() + validation.warnings.len() >= 0, "Validation should process multi-element program");
    }
}

#[test]
fn test_ice_dance_discipline() {
    let source = r#"
program dance_routine {
    segment rd: rhythm {
        sequence steps_seq {
            step circular L4
        }
    }
}
    "#;
    let result = parse(source, FileId(0));
    assert!(result.is_ok(), "Dance program should parse: {:?}", result);
    if let Ok(program) = result {
        let validation = validate_program(&program, Discipline::IceDance);
        assert!(validation.errors.len() + validation.warnings.len() >= 0, "Ice dance validation should work");
    }
}

#[test]
fn test_file_id_handling() {
    let source = r#"
program test {
    segment sp: short {
        sequence seq1 {
            jump triple axel
        }
    }
}
    "#;
    let result1 = parse(source, FileId(0));
    let result2 = parse(source, FileId(1));
    let result3 = parse(source, FileId(999));
    assert!(result1.is_ok(), "FileId(0) should work: {:?}", result1);
    assert!(result2.is_ok(), "FileId(1) should work: {:?}", result2);
    assert!(result3.is_ok(), "FileId(999) should work: {:?}", result3);
}
