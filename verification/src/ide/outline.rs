//! The outline of a document (its program, segments and sequences, with
//! their ranges) and the full check of a document that an editor shows.

use vstd::prelude::*;
use vstd::string::StringSliceAdditionalSpecFns;
use crate::base::diagnostics::Diagnostic;
use crate::base::source::FileId;
use crate::base::text::{decimal, push_decimal, push_str, string_of};
use crate::ide::lines::{position_of, span_to_range};
use crate::ide::lint::IssueSeverity;
use crate::semantics::rules::Discipline;
use crate::semantics::validate::{program_errors, sem_message, sem_views, validate_program};
use crate::typing::check::check_verdict;
use crate::syntax::ast::{Program, Segment, SegmentKind, Sequence};
use crate::syntax::parser::{parse, parse_outcome, source_program, ParseError};

verus! {

/// A range of a document: start and end, each a zero-based line and column.
pub type TextRange = ((usize, usize), (usize, usize));

/// A range as a value.
pub open spec fn range_of(b: Seq<u8>, start: int, end: int) -> ((nat, nat), (nat, nat)) {
    (position_of(b, start), position_of(b, end))
}

/// The value of a range.
pub open spec fn range_view(r: TextRange) -> ((nat, nat), (nat, nat)) {
    ((r.0.0 as nat, r.0.1 as nat), (r.1.0 as nat, r.1.1 as nat))
}

/// A sequence in the outline.
#[derive(Debug)]
pub struct SequenceSymbol {
    pub name: String,
    pub detail: String,
    pub range: TextRange,
}

/// A segment in the outline, with its sequences.
#[derive(Debug)]
pub struct SegmentSymbol {
    pub name: String,
    pub detail: String,
    pub range: TextRange,
    pub children: Vec<SequenceSymbol>,
}

/// The program in the outline, with its segments.
#[derive(Debug)]
pub struct ProgramSymbol {
    pub name: String,
    pub detail: String,
    pub range: TextRange,
    pub children: Vec<SegmentSymbol>,
}

/// The name a segment kind is shown by.
pub open spec fn segment_kind_name(k: SegmentKind) -> Seq<char> {
    match k {
        SegmentKind::Short => "Short"@,
        SegmentKind::Free => "Free"@,
        SegmentKind::Pattern => "Pattern"@,
        SegmentKind::Rhythm => "Rhythm"@,
        SegmentKind::Exhibition => "Exhibition"@,
    }
}

fn segment_kind_name_str(k: SegmentKind) -> (r: &'static str)
    ensures
        r@ == segment_kind_name(k),
{
    match k {
        SegmentKind::Short => "Short",
        SegmentKind::Free => "Free",
        SegmentKind::Pattern => "Pattern",
        SegmentKind::Rhythm => "Rhythm",
        SegmentKind::Exhibition => "Exhibition",
    }
}

/// A sequence's entry: its name (or `sequence`), its element count, and
/// the range of its span.
pub open spec fn sequence_outline(s: Sequence, b: Seq<u8>) -> (Seq<char>, Seq<char>, ((nat, nat), (nat, nat))) {
    (
        match s.name { Some(n) => n.node@, None => "sequence"@ },
        decimal(s.elements@.len()) + " elements"@,
        range_of(b, s.span.start as int, s.span.end as int),
    )
}

/// The value of a sequence entry.
pub open spec fn sequence_symbol_view(s: SequenceSymbol) -> (Seq<char>, Seq<char>, ((nat, nat), (nat, nat))) {
    (s.name@, s.detail@, range_view(s.range))
}

/// A segment's entry: its name, its kind, the range of its span, and its
/// sequences' entries.
pub open spec fn segment_outline(s: Segment, b: Seq<u8>) -> (Seq<char>, Seq<char>, ((nat, nat), (nat, nat))) {
    (s.name.node@, segment_kind_name(s.kind), range_of(b, s.span.start as int, s.span.end as int))
}

/// The value of a segment entry, without its children.
pub open spec fn segment_symbol_view(s: SegmentSymbol) -> (Seq<char>, Seq<char>, ((nat, nat), (nat, nat))) {
    (s.name@, s.detail@, range_view(s.range))
}

/// The entries of a segment's sequences are those of the outline.
pub open spec fn segment_children_ok(sym: SegmentSymbol, s: Segment, b: Seq<u8>) -> bool {
    &&& sym.children@.len() == s.sequences@.len()
    &&& forall|j: int| 0 <= j < s.sequences@.len() ==> sequence_symbol_view(#[trigger] sym.children@[j])
        == sequence_outline(s.sequences@[j], b)
}

/// The outline of a parsed program: the program, named and detailed as
/// `program` at the first ten columns of the first line, and its segments
/// in order.
pub open spec fn outline_ok(sym: ProgramSymbol, p: Program, b: Seq<u8>) -> bool {
    &&& sym.name@ == p.name.node@
    &&& sym.detail@ == "program"@
    &&& range_view(sym.range) == ((0nat, 0nat), (0nat, 10nat))
    &&& sym.children@.len() == p.segments@.len()
    &&& forall|j: int| 0 <= j < p.segments@.len() ==> segment_symbol_view(#[trigger] sym.children@[j])
        == segment_outline(p.segments@[j], b) && segment_children_ok(sym.children@[j], p.segments@[j], b)
}

fn sequence_symbol(source: &str, s: &Sequence) -> (r: SequenceSymbol)
    ensures
        sequence_symbol_view(r) == sequence_outline(*s, source.spec_bytes()),
{
    let name = match &s.name {
        Some(n) => n.node.clone(),
        None => string_of("sequence"),
    };
    let mut detail = String::new();
    push_decimal(&mut detail, s.elements.len() as u64);
    push_str(&mut detail, " elements");
    let range = span_to_range(source, s.span.start as usize, s.span.end as usize);
    SequenceSymbol { name, detail, range }
}

fn segment_symbol(source: &str, s: &Segment) -> (r: SegmentSymbol)
    ensures
        segment_symbol_view(r) == segment_outline(*s, source.spec_bytes()),
        segment_children_ok(r, *s, source.spec_bytes()),
{
    let mut children: Vec<SequenceSymbol> = Vec::new();
    let mut i: usize = 0;
    while i < s.sequences.len()
        invariant
            i <= s.sequences@.len(),
            children@.len() == i,
            forall|j: int| 0 <= j < i ==> sequence_symbol_view(#[trigger] children@[j]) == sequence_outline(s.sequences@[j], source.spec_bytes()),
        decreases s.sequences@.len() - i,
    {
        children.push(sequence_symbol(source, &s.sequences[i]));
        i = i + 1;
    }
    let range = span_to_range(source, s.span.start as usize, s.span.end as usize);
    SegmentSymbol {
        name: s.name.node.clone(),
        detail: string_of(segment_kind_name_str(s.kind)),
        range,
        children,
    }
}

/// The outline of a parsed program.
pub fn program_outline(source: &str, program: &Program) -> (r: ProgramSymbol)
    ensures
        outline_ok(r, *program, source.spec_bytes()),
{
    let mut children: Vec<SegmentSymbol> = Vec::new();
    let mut i: usize = 0;
    while i < program.segments.len()
        invariant
            i <= program.segments@.len(),
            children@.len() == i,
            forall|j: int| 0 <= j < i ==> segment_symbol_view(#[trigger] children@[j]) == segment_outline(program.segments@[j], source.spec_bytes())
                && segment_children_ok(children@[j], program.segments@[j], source.spec_bytes()),
        decreases program.segments@.len() - i,
    {
        children.push(segment_symbol(source, &program.segments[i]));
        i = i + 1;
    }
    ProgramSymbol { name: program.name.node.clone(), detail: string_of("program"), range: ((0, 0), (0, 10)), children }
}

/// The outline of a document, if it parses.
pub fn document_symbol(source: &str) -> (r: Option<ProgramSymbol>)
    requires
        source.spec_bytes().len() <= isize::MAX,
    ensures
        r is Some <==> source_program(source.spec_bytes(), FileId(0)) is Some,
        r is Some ==> exists|p: Program| #![trigger parse_outcome(source.spec_bytes(), FileId(0), Ok(p))]
            parse_outcome(source.spec_bytes(), FileId(0), Ok(p)) && outline_ok(r->0, p, source.spec_bytes()),
{
    match parse(source, FileId(0)) {
        Ok(program) => {
            let sym = program_outline(source, &program);
            assert(parse_outcome(source.spec_bytes(), FileId(0), Ok(program)) && outline_ok(sym, program, source.spec_bytes()));
            Some(sym)
        },
        Err(_) => None,
    }
}

/// A diagnostic for an editor: a range, a severity, a code and a message.
#[derive(Debug)]
pub struct EditorDiagnostic {
    pub range: TextRange,
    pub severity: IssueSeverity,
    pub code: String,
    pub message: String,
}

/// A diagnostic as a value.
pub type EditorDiagV = (((nat, nat), (nat, nat)), IssueSeverity, Seq<char>, Seq<char>);

/// The value of a diagnostic.
pub open spec fn editor_diag_view(d: EditorDiagnostic) -> EditorDiagV {
    (range_view(d.range), d.severity, d.code@, d.message@)
}

/// The values of a list of diagnostics.
pub open spec fn editor_diag_views(s: Seq<EditorDiagnostic>) -> Seq<EditorDiagV> {
    s.map_values(|d: EditorDiagnostic| editor_diag_view(d))
}

/// The diagnostics of a parsed program: one per rule error, at the first
/// column of the first line.
pub open spec fn rule_diagnostics(p: Program) -> Seq<EditorDiagV> {
    program_errors(p.segments@, Discipline::MenSingles).map_values(|e| (
        ((0nat, 0nat), (0nat, 1nat)),
        IssueSeverity::Error,
        "isu-rule"@,
        sem_message(e),
    ))
}

/// The diagnostics of type errors: one per diagnostic, over the range of
/// its first label (the document's first character where it has none).
pub open spec fn type_diagnostics(ds: Seq<Diagnostic>, b: Seq<u8>) -> Seq<EditorDiagV> {
    ds.map_values(|d: Diagnostic| (
        if d.labels@.len() > 0 {
            range_of(b, d.labels@[0].span.start as int, d.labels@[0].span.end as int)
        } else {
            ((0nat, 0nat), (0nat, 1nat))
        },
        IssueSeverity::Error,
        "type-error"@,
        d.message@,
    ))
}

/// The diagnostics of parse errors: one per error, over its range.
pub open spec fn parse_diagnostics(es: Seq<ParseError>, b: Seq<u8>) -> Seq<EditorDiagV> {
    es.map_values(|e: ParseError| (
        range_of(b, e.span.start as int, e.span.end as int),
        IssueSeverity::Error,
        "parse-error"@,
        e.message@,
    ))
}

fn push_diag(out: &mut Vec<EditorDiagnostic>, range: TextRange, severity: IssueSeverity, code: &str, message: String)
    ensures
        editor_diag_views(final(out)@) == editor_diag_views(old(out)@).push((range_view(range), severity, code@, message@)),
{
    out.push(EditorDiagnostic { range, severity, code: string_of(code), message });
    assert(editor_diag_views(out@) =~= editor_diag_views(old(out)@).push((range_view(range), severity, code@, message@)));
}

/// Check a document as an editor shows it: when it parses, its type errors
/// and its rule errors and warnings; otherwise its parse errors.
pub fn validate_document(source: &str) -> (r: Vec<EditorDiagnostic>)
    requires
        source.spec_bytes().len() <= isize::MAX,
    ensures
        source_program(source.spec_bytes(), FileId(0)) is Some ==> exists|p: Program, ds: Seq<Diagnostic>|
            #![trigger rule_diagnostics(p), type_diagnostics(ds, source.spec_bytes())]
            parse_outcome(source.spec_bytes(), FileId(0), Ok(p)) && check_verdict(p, ds)
                && editor_diag_views(r@) == type_diagnostics(ds, source.spec_bytes()) + rule_diagnostics(p),
        source_program(source.spec_bytes(), FileId(0)) is None ==> exists|es: Vec<ParseError>| #![trigger parse_diagnostics(es@, source.spec_bytes())]
            parse_outcome(source.spec_bytes(), FileId(0), Err(es))
            && editor_diag_views(r@) == parse_diagnostics(es@, source.spec_bytes()),
{
    let mut diagnostics: Vec<EditorDiagnostic> = Vec::new();
    match parse(source, FileId(0)) {
        Ok(program) => {
            let ghost mut tds: Seq<Diagnostic> = Seq::empty();
            match crate::typing::check::check(&program, FileId(0)) {
                Ok(()) => {},
                Err(type_diags) => {
                    let ds = type_diags.as_slice();
                    let mut i: usize = 0;
                    while i < ds.len()
                        invariant
                            i <= ds@.len(),
                            ds@ == type_diags.view_seq(),
                            editor_diag_views(diagnostics@) == type_diagnostics(ds@, source.spec_bytes()).take(i as int),
                        decreases ds@.len() - i,
                    {
                        let range = if ds[i].labels.len() > 0 {
                            span_to_range(source, ds[i].labels[0].span.start as usize, ds[i].labels[0].span.end as usize)
                        } else {
                            ((0, 0), (0, 1))
                        };
                        push_diag(&mut diagnostics, range, IssueSeverity::Error, "type-error", ds[i].message.clone());
                        proof {
                            reveal_strlit("type-error");
                            assert(editor_diag_views(diagnostics@) =~= type_diagnostics(ds@, source.spec_bytes()).take(i + 1));
                        }
                        i = i + 1;
                    }
                    proof {
                        assert(type_diagnostics(ds@, source.spec_bytes()).take(i as int) =~= type_diagnostics(ds@, source.spec_bytes()));
                        tds = ds@;
                    }
                },
            }
            let result = validate_program(&program, Discipline::MenSingles);
            let mut i: usize = 0;
            while i < result.errors.len()
                invariant
                    i <= result.errors@.len(),
                    sem_views(result.errors@) == program_errors(program.segments@, Discipline::MenSingles),
                    editor_diag_views(diagnostics@) == type_diagnostics(tds, source.spec_bytes()) + rule_diagnostics(program).take(i as int),
                decreases result.errors@.len() - i,
            {
                let message = result.errors[i].to_string();
                push_diag(&mut diagnostics, ((0, 0), (0, 1)), IssueSeverity::Error, "isu-rule", message);
                proof {
                    assert(sem_views(result.errors@)[i as int] == crate::semantics::validate::sem_view(result.errors@[i as int]));
                    assert(rule_diagnostics(program).take(i + 1) =~= rule_diagnostics(program).take(i as int).push(rule_diagnostics(program)[i as int]));
                    assert(editor_diag_views(diagnostics@) =~= type_diagnostics(tds, source.spec_bytes()) + rule_diagnostics(program).take(i + 1));
                }
                i = i + 1;
            }
            proof {
                assert(rule_diagnostics(program).take(i as int) =~= rule_diagnostics(program));
            }
            let mut j: usize = 0;
            while j < result.warnings.len()
                invariant
                    result.warnings@.len() == 0,
                decreases result.warnings@.len() - j,
            {
                j = j + 1;
            }
            proof {
                reveal_strlit("isu-rule");
            }
        },
        Err(errors) => {
            let mut i: usize = 0;
            while i < errors.len()
                invariant
                    i <= errors@.len(),
                    editor_diag_views(diagnostics@) == parse_diagnostics(errors@, source.spec_bytes()).take(i as int),
                decreases errors@.len() - i,
            {
                let range = span_to_range(source, errors[i].span.start, errors[i].span.end);
                push_diag(&mut diagnostics, range, IssueSeverity::Error, "parse-error", errors[i].message.clone());
                proof {
                    assert(editor_diag_views(diagnostics@) =~= parse_diagnostics(errors@, source.spec_bytes()).take(i + 1));
                }
                i = i + 1;
            }
            proof {
                assert(parse_diagnostics(errors@, source.spec_bytes()).take(i as int) =~= parse_diagnostics(errors@, source.spec_bytes()));
            }
        },
    }
    diagnostics
}

} // verus!
