use anvomidav::base::source::FileId;
use anvomidav::cli::{check_source, program_summary, project_template, FileCheck};
use anvomidav::syntax::parser::parse;

#[test]
fn templates_parse_and_name_the_program() {
    let t = project_template("singles", "routine").unwrap();
    assert!(t.starts_with("/// routine - Singles figure skating program"));
    assert!(t.contains("program routine {"));
    assert!(parse(&t, FileId(0)).is_ok());
    assert!(project_template("pairs", "p").unwrap().contains("program p {"));
    assert!(project_template("ice-dance", "d").unwrap().contains("segment pattern: pattern"));
    assert_eq!(project_template("solo", "x"), None);
}

#[test]
fn summary_and_file_checks() {
    let program = parse("program demo { segment a: free { sequence { jump double axel } } }", FileId(0)).unwrap();
    assert_eq!(program_summary(&program), "{\"name\": \"demo\", \"segments\": 1}");
    assert!(matches!(check_source("program demo {}", FileId(0)), FileCheck::Clean));
    assert!(matches!(check_source("program {", FileId(0)), FileCheck::ParseErrors(_)));
    match check_source("program t { fn f(x: Int) -> Bool = x }", FileId(0)) {
        FileCheck::TypeErrors(d) => {
            assert_eq!(d.len(), 1);
            assert_eq!(d.as_slice()[0].message, "type mismatch: expected Bool, found Int");
        },
        _ => panic!("expected type errors"),
    }
}
