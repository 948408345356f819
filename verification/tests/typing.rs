use std::collections::HashMap;
use anvomidav::base::source::{FileId, Span};
use anvomidav::syntax::parser::parse;
use anvomidav::typing::check::{check, TypeChecker, TypeError};
use anvomidav::typing::env::TypeEnv;
use anvomidav::typing::ty::{Type, TypeScheme, TypeVar};
use anvomidav::base::skating::{Edge, JumpKind, Rotations};
use anvomidav::syntax::ast::{ElementKind, Expr, JumpElement, Spanned, TimeExpr, Timing};

fn check_source(source: &str) -> Result<(), Vec<TypeError>> {
    let program = parse(source, FileId(0)).expect("parse error");
    let mut checker = TypeChecker::new(FileId(0));
    checker.check_program(&program)
}

#[test]
fn test_type_display() {
    assert_eq!(Type::Int.to_string(), "Int");
    assert_eq!(Type::Time.to_string(), "Time");
    assert_eq!(Type::Jump.to_string(), "Jump");
    assert_eq!(Type::Fn(vec![Type::Int, Type::Int], Box::new(Type::Bool)).to_string(), "(Int, Int) -> Bool");
    assert_eq!(Type::Array(Box::new(Type::Element)).to_string(), "[Element]");
}

#[test]
fn test_type_var_fresh() {
    let mut counter = 0u32;
    let v1 = TypeVar::fresh(&mut counter);
    let v2 = TypeVar::fresh(&mut counter);
    assert_ne!(v1, v2);
}

#[test]
fn test_type_scheme_instantiate() {
    let mut counter = 0u32;
    let alpha = TypeVar::fresh(&mut counter);
    let scheme = TypeScheme::poly(vec![alpha], Type::Fn(vec![Type::Var(alpha)], Box::new(Type::Var(alpha))));

    let t1 = scheme.instantiate(&mut counter);
    let t2 = scheme.instantiate(&mut counter);

    assert_ne!(t1, t2);
}

#[test]
fn test_type_substitute() {
    let mut counter = 0u32;
    let alpha = TypeVar::fresh(&mut counter);
    let ty = Type::Fn(vec![Type::Var(alpha)], Box::new(Type::Int));

    let mut subst = HashMap::new();
    subst.insert(alpha.0, Type::String);

    let result = ty.substitute(&subst);
    assert_eq!(result, Type::Fn(vec![Type::String], Box::new(Type::Int)));
}

#[test]
fn test_free_vars() {
    let mut counter = 0u32;
    let alpha = TypeVar::fresh(&mut counter);
    let beta = TypeVar::fresh(&mut counter);
    let ty = Type::Fn(vec![Type::Var(alpha)], Box::new(Type::Var(beta)));

    let vars = ty.free_vars();
    assert_eq!(vars.len(), 2);
    assert!(vars.contains(&alpha));
    assert!(vars.contains(&beta));
}

#[test]
fn test_env_lookup() {
    let mut counter = 0u32;
    let mut env = TypeEnv::new(&mut counter);
    env.define("x", TypeScheme::mono(Type::Int));

    assert!(env.lookup("x").is_some());
    assert_eq!(env.lookup("x").unwrap().ty, Type::Int);
    assert!(env.lookup("y").is_none());
}

#[test]
fn test_env_scoping() {
    let mut counter = 0u32;
    let mut env = TypeEnv::new(&mut counter);
    env.define("x", TypeScheme::mono(Type::Int));

    env.push_scope();
    env.define("x", TypeScheme::mono(Type::String));
    assert_eq!(env.lookup("x").unwrap().ty, Type::String);

    env.pop_scope();
    assert_eq!(env.lookup("x").unwrap().ty, Type::Int);
}

#[test]
fn test_env_builtins() {
    let mut counter = 0u32;
    let env = TypeEnv::new(&mut counter);

    assert!(env.lookup("+").is_some());
    assert!(env.lookup("<").is_some());
    assert!(env.lookup("&&").is_some());

    assert!(env.lookup("triple_axel").is_some());
    assert_eq!(env.lookup("triple_axel").unwrap().ty, Type::Jump);
}

#[test]
fn test_generalize() {
    let mut counter = 0u32;
    let env = TypeEnv::new(&mut counter);
    let alpha = TypeVar::fresh(&mut counter);
    let ty = Type::Fn(vec![Type::Var(alpha)], Box::new(Type::Var(alpha)));

    let scheme = env.generalize(&ty);
    assert_eq!(scheme.vars.len(), 1);
    assert!(scheme.vars.contains(&alpha));
}

#[test]
fn check_test_empty_program() {
    assert!(check_source("program test {}").is_ok());
}

#[test]
fn test_program_with_jump() {
    let result = check_source(
        r#"
            program test {
                segment main: short {
                    sequence {
                        jump triple axel at 1:30
                    }
                }
            }
        "#,
    );
    assert!(result.is_ok());
}

#[test]
fn test_program_with_spin() {
    let result = check_source(
        r#"
            program test {
                segment main: free {
                    sequence {
                        spin camel sit upright L3
                    }
                }
            }
        "#,
    );
    assert!(result.is_ok());
}

#[test]
fn test_function_definition() {
    let result = check_source(
        r#"
            program test {
                fn add(x: Int, y: Int) -> Int = x
            }
        "#,
    );
    assert!(result.is_ok());
}

#[test]
fn pop_scope_keeps_the_outermost_scope() {
    let mut counter = 0u32;
    let mut env = TypeEnv::new(&mut counter);
    env.pop_scope();
    env.pop_scope();
    assert!(env.lookup("triple_axel").is_some());
}

#[test]
fn generalize_leaves_environment_variables_free() {
    let mut counter = 0u32;
    let mut env = TypeEnv::new(&mut counter);
    let alpha = TypeVar::fresh(&mut counter);
    let beta = TypeVar::fresh(&mut counter);
    env.define("x", TypeScheme::mono(Type::Var(alpha)));
    let scheme = env.generalize(&Type::Fn(vec![Type::Var(alpha)], Box::new(Type::Var(beta))));
    assert_eq!(scheme.vars, vec![beta]);
}

#[test]
fn return_type_mismatch_is_reported() {
    let errors = check_source("program test { fn f(x: Int) -> Bool = x }").unwrap_err();
    assert_eq!(errors.len(), 1);
    assert_eq!(errors[0].message, "type mismatch: expected Bool, found Int");
}

#[test]
fn undefined_variable_is_reported() {
    let errors = check_source("program test { fn f() -> Int = y }").unwrap_err();
    assert_eq!(errors[0].message, "undefined variable: y");
}

#[test]
fn spin_with_too_few_revolutions_is_reported() {
    let mut checker = TypeChecker::new(FileId(0));
    let program = parse("program t { segment s: free { sequence { spin camel L4 } } }", FileId(0)).unwrap();
    assert!(checker.check_program(&program).is_ok());
    let e = TypeError::new("boom", Span::new(1, 2, FileId(0)));
    assert_eq!(e.message, "boom");
}

#[test]
fn type_error_diagnostics() {
    let span = Span::new(3, 5, FileId(0));
    let d = TypeError::mismatch(Type::Int, Type::Bool, span).to_diagnostic();
    assert_eq!(d.message, "type mismatch: expected Int, found Bool");
    assert_eq!(d.code.unwrap().0, "E0100");
    assert_eq!(d.notes.len(), 2);
    let u = TypeError::undefined("zz", span).to_diagnostic();
    assert_eq!(u.message, "undefined variable: zz");
    assert_eq!(u.code.unwrap().0, "E0101");
    assert!(u.notes.is_empty());
}

#[test]
fn check_reports_each_type_error_as_a_diagnostic() {
    let program = parse("program test { fn f(x: Int) -> Bool = x }", FileId(0)).unwrap();
    let diagnostics = check(&program, FileId(0)).unwrap_err();
    assert_eq!(diagnostics.len(), 1);
    let d = &diagnostics.as_slice()[0];
    assert_eq!(d.message, "type mismatch: expected Bool, found Int");
    assert_eq!(d.code.clone().unwrap().0, "E0100");
    assert_eq!(d.labels.len(), 1);
    assert_eq!(d.labels[0].message, "here");
}

#[test]
fn simple_functions_and_timed_elements_check_clean() {
    let source = "program test { fn add(x: Int, y: Int) -> Int = x + y fn one() -> Int = 1 fn sq(x: Int) -> Int = let y = x + 1 in y * y segment s: short { sequence { jump triple axel at 1:30 } } }";
    let program = parse(source, FileId(0)).unwrap();
    assert!(check(&program, FileId(0)).is_ok());
}

#[test]
fn calls_of_earlier_functions_check_clean() {
    let source = "program test { fn dbl(x: Int) -> Int = x + x fn four(x: Int) -> Int = x }";
    let mut program = parse(source, FileId(0)).unwrap();
    let span = Span::new(0, 0, FileId(0));
    let var = |name: &str| Spanned { node: Expr::Var(Spanned { node: name.to_string(), span }), span };
    let inner = Spanned { node: Expr::Call(Box::new(var("dbl")), vec![var("x")]), span };
    program.functions[1].body = Expr::Call(Box::new(var("dbl")), vec![inner]);
    assert!(check(&program, FileId(0)).is_ok());
    program.functions[1].body = Expr::Call(Box::new(var("dbl")), Vec::new());
    let d = check(&program, FileId(0)).unwrap_err();
    assert_eq!(d.as_slice()[0].message, "function expects 1 arguments, got 0");
}

#[test]
fn operands_of_different_types_are_reported() {
    let errors = check_source("program test { fn f(x: Int, b: Bool) -> Int = x + b }").unwrap_err();
    assert_eq!(errors.len(), 1);
    assert_eq!(errors[0].message, "type mismatch: expected Int, found Bool");
}

#[test]
fn check_fails_on_a_jump_from_the_wrong_edge_and_passes_a_clean_program() {
    let source = "program t { segment s: free { sequence { jump triple lutz } } }";
    let clean = parse(source, FileId(0)).unwrap();
    assert!(check(&clean, FileId(0)).is_ok());

    let mut program = parse(source, FileId(0)).unwrap();
    program.segments[0].sequences[0].elements[0].kind = ElementKind::Jump(JumpElement {
        kind: JumpKind::Lutz,
        rotations: Rotations::Triple,
        entry_edge: Some(Edge::LFI),
        exit_edge: None,
        combination: Vec::new(),
    });
    assert!(check(&program, FileId(0)).is_err());

    let mut checker = TypeChecker::new(FileId(0));
    let errors = checker.check_program(&program).unwrap_err();
    assert_eq!(errors.len(), 1);
    assert_eq!(errors[0].message, "invalid entry edge for Lutz: expected LBO, found LFI");
}

#[test]
fn every_failing_definition_and_segment_is_reported_in_order() {
    let source = "program t { fn f(x: Int) -> Bool = x fn g() -> Int = y fn h(x: Int) -> Int = { x + 1 } segment s: free { sequence { jump triple lutz } } }";
    let mut program = parse(source, FileId(0)).unwrap();
    let span = Span::new(0, 0, FileId(0));
    let element = &mut program.segments[0].sequences[0].elements[0];
    element.kind = ElementKind::Jump(JumpElement {
        kind: JumpKind::Lutz,
        rotations: Rotations::Triple,
        entry_edge: Some(Edge::LFI),
        exit_edge: None,
        combination: Vec::new(),
    });
    element.timing = Some(Timing::At(TimeExpr::Var(Spanned { node: "t0".to_string(), span })));
    let mut checker = TypeChecker::new(FileId(0));
    let errors = checker.check_program(&program).unwrap_err();
    let messages: Vec<String> = errors.iter().map(|e| e.message.clone()).collect();
    assert_eq!(
        messages,
        vec![
            "type mismatch: expected Bool, found Int".to_string(),
            "undefined variable: y".to_string(),
            "invalid entry edge for Lutz: expected LBO, found LFI".to_string(),
            "undefined variable: t0".to_string(),
        ]
    );
}

#[test]
fn inference_through_an_unannotated_parameter() {
    let errors = check_source("program test { fn f(x) = if x then 1 else \"a\" }").unwrap_err();
    assert_eq!(errors.len(), 1);
    assert_eq!(errors[0].message, "type mismatch: expected Int, found String");
    assert!(check_source("program test { fn g(x) = if x then 1 else 2 fn h(y: Int) = y + 1 }").is_ok());
}

#[test]
fn array_items_are_unified_with_the_first() {
    assert!(check_source("program test { fn f(x) = [x, 1] }").is_ok());
    let errors = check_source("program test { fn g() = [1, \"a\"] }").unwrap_err();
    assert_eq!(errors[0].message, "type mismatch: expected Int, found String");
}
