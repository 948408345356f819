//! The command-line tool's project templates and per-file checks.

use vstd::prelude::*;
use vstd::string::StringSliceAdditionalSpecFns;
use crate::base::diagnostics::Diagnostics;
use crate::base::source::FileId;
use crate::base::text::{push_str, str_eq, string_of};
use crate::syntax::ast::Program;
use crate::syntax::parser::{parse, parse_outcome, source_program, ParseError};
use crate::typing::check::check_verdict;

verus! {

/// The main file of a new singles project named `name`.
pub open spec fn singles_template(name: Seq<char>) -> Seq<char> {
    "/// "@ + name + " - Singles figure skating program\n///\n/// Created with Anvomidav\n\nprogram "@ + name
        + " {\n    segment short_program: short {\n        sequence opening {\n            jump triple axel at 0:15\n            spin camel sit upright L3 at 0:30\n            step circular L3 at 1:00\n        }\n    }\n\n    segment free_skate: free {\n        sequence technical {\n            jump quad lutz at 0:30\n            jump triple axel at 1:00\n            spin layback L4 at 1:30\n        }\n    }\n}\n"@
}

/// The main file of a new pairs project named `name`.
pub open spec fn pairs_template(name: Seq<char>) -> Seq<char> {
    "/// "@ + name + " - Pairs figure skating program\n///\n/// Created with Anvomidav\n\nprogram "@ + name
        + " {\n    segment short_program: short {\n        skater lead\n        skater follow\n\n        sequence opening {\n            parallel {\n                lead: jump double axel at 0:15\n                follow: jump double axel at 0:15\n            }\n            lift group3 L3 at 0:30\n            throw triple salchow at 1:00\n        }\n    }\n}\n"@
}

/// The main file of a new ice-dance project named `name`.
pub open spec fn ice_dance_template(name: Seq<char>) -> Seq<char> {
    "/// "@ + name + " - Ice dance program\n///\n/// Created with Anvomidav\n\nprogram "@ + name
        + " {\n    segment pattern: pattern {\n        skater lead\n        skater follow\n\n        sequence waltz {\n            sync {\n                step circular L3 at 0:00\n            }\n        }\n    }\n}\n"@
}

/// The main file of a new project from a template, if the template exists.
pub open spec fn template_text(template: Seq<char>, name: Seq<char>) -> Option<Seq<char>> {
    if template == "singles"@ {
        Some(singles_template(name))
    } else if template == "pairs"@ {
        Some(pairs_template(name))
    } else if template == "ice-dance"@ {
        Some(ice_dance_template(name))
    } else {
        None
    }
}

/// The main file of a new project: `singles`, `pairs` or `ice-dance`.
pub fn project_template(template: &str, name: &str) -> (r: Option<String>)
    ensures
        match template_text(template@, name@) {
            Some(t) => r matches Some(s) && s@ == t,
            None => r is None,
        },
{
    if str_eq(template, "singles") {
        let mut t = string_of("/// ");
        push_str(&mut t, name);
        push_str(&mut t, " - Singles figure skating program\n///\n/// Created with Anvomidav\n\nprogram ");
        push_str(&mut t, name);
        push_str(&mut t, " {\n    segment short_program: short {\n        sequence opening {\n            jump triple axel at 0:15\n            spin camel sit upright L3 at 0:30\n            step circular L3 at 1:00\n        }\n    }\n\n    segment free_skate: free {\n        sequence technical {\n            jump quad lutz at 0:30\n            jump triple axel at 1:00\n            spin layback L4 at 1:30\n        }\n    }\n}\n");
        Some(t)
    } else if str_eq(template, "pairs") {
        let mut t = string_of("/// ");
        push_str(&mut t, name);
        push_str(&mut t, " - Pairs figure skating program\n///\n/// Created with Anvomidav\n\nprogram ");
        push_str(&mut t, name);
        push_str(&mut t, " {\n    segment short_program: short {\n        skater lead\n        skater follow\n\n        sequence opening {\n            parallel {\n                lead: jump double axel at 0:15\n                follow: jump double axel at 0:15\n            }\n            lift group3 L3 at 0:30\n            throw triple salchow at 1:00\n        }\n    }\n}\n");
        Some(t)
    } else if str_eq(template, "ice-dance") {
        let mut t = string_of("/// ");
        push_str(&mut t, name);
        push_str(&mut t, " - Ice dance program\n///\n/// Created with Anvomidav\n\nprogram ");
        push_str(&mut t, name);
        push_str(&mut t, " {\n    segment pattern: pattern {\n        skater lead\n        skater follow\n\n        sequence waltz {\n            sync {\n                step circular L3 at 0:00\n            }\n        }\n    }\n}\n");
        Some(t)
    } else {
        None
    }
}

/// The one-line summary of a program: `{"name": "<name>", "segments": <count>}`.
pub open spec fn summary_text(p: Program) -> Seq<char> {
    "{\u{22}name\u{22}: \u{22}"@ + p.name.node@ + "\u{22}, \u{22}segments\u{22}: "@
        + crate::base::text::decimal(p.segments@.len()) + "}"@
}

/// The one-line summary of a program.
pub fn program_summary(p: &Program) -> (r: String)
    ensures
        r@ == summary_text(*p),
{
    let mut s = string_of("{\u{22}name\u{22}: \u{22}");
    push_str(&mut s, p.name.node.as_str());
    push_str(&mut s, "\u{22}, \u{22}segments\u{22}: ");
    crate::base::text::push_decimal(&mut s, p.segments.len() as u64);
    push_str(&mut s, "}");
    s
}

/// The outcome of checking one file.
#[derive(Debug)]
pub enum FileCheck {
    /// The file does not parse.
    ParseErrors(Vec<ParseError>),
    /// The file parses, and type checking reports these diagnostics.
    TypeErrors(Diagnostics),
    /// The file parses and type checks.
    Clean,
}

/// Check one file's text: parse it, then type check the program.
pub fn check_source(source: &str, file_id: FileId) -> (r: FileCheck)
    requires
        source.spec_bytes().len() <= isize::MAX,
    ensures
        r is ParseErrors <==> source_program(source.spec_bytes(), file_id) is None,
        r matches FileCheck::ParseErrors(es) ==> parse_outcome(source.spec_bytes(), file_id, Err(es)),
        r is Clean ==> exists|p: Program| #[trigger] parse_outcome(source.spec_bytes(), file_id, Ok(p))
            && check_verdict(p, Seq::empty()),
        r matches FileCheck::TypeErrors(d) ==> d.view_seq().len() > 0
            && exists|p: Program| #[trigger] parse_outcome(source.spec_bytes(), file_id, Ok(p))
                && check_verdict(p, d.view_seq()),
{
    match parse(source, file_id) {
        Ok(program) => match crate::typing::check::check(&program, file_id) {
            Ok(()) => {
                assert(parse_outcome(source.spec_bytes(), file_id, Ok(program)));
                FileCheck::Clean
            },
            Err(d) => {
                assert(parse_outcome(source.spec_bytes(), file_id, Ok(program)));
                FileCheck::TypeErrors(d)
            },
        },
        Err(es) => FileCheck::ParseErrors(es),
    }
}

} // verus!
