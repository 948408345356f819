//! Validation of programs against the ISU rules: element counts per segment
//! and the elements each discipline allows.

use vstd::prelude::*;
use crate::base::diagnostics::{Diagnostic, ErrorCode};
use crate::base::skating::Rotations;
use crate::base::source::Span;
use crate::base::text::{decimal, push_decimal, push_str, string_of};
use crate::semantics::rules::{Discipline, ISURules, RulesView, SegmentRules};
use crate::syntax::ast::{Element, ElementKind, Program, Segment, SegmentKind};

verus! {

/// A semantic error found by validation.
#[derive(Debug, Clone)]
pub enum SemanticError {
    TooManyElements { element_type: String, found: usize, max: usize, span: Span },
    TooFewElements { element_type: String, found: usize, min: usize, span: Span },
    DurationOutOfRange { duration: u32, min: u32, max: u32, span: Span },
    MissingRequiredElement { description: String, span: Span },
    DuplicateElement { element_type: String, span: Span },
    ElementNotAllowed { element_type: String, span: Span },
    InvalidForDiscipline { message: String, span: Span },
}

/// A semantic error as a value.
pub enum SemErrV {
    TooMany(Seq<char>, usize, usize, Span),
    TooFew(Seq<char>, usize, usize, Span),
    Duration(u32, u32, u32, Span),
    Missing(Seq<char>, Span),
    Duplicate(Seq<char>, Span),
    NotAllowed(Seq<char>, Span),
    Invalid(Seq<char>, Span),
}

/// The value of a semantic error.
pub open spec fn sem_view(e: SemanticError) -> SemErrV {
    match e {
        SemanticError::TooManyElements { element_type, found, max, span } => SemErrV::TooMany(element_type@, found, max, span),
        SemanticError::TooFewElements { element_type, found, min, span } => SemErrV::TooFew(element_type@, found, min, span),
        SemanticError::DurationOutOfRange { duration, min, max, span } => SemErrV::Duration(duration, min, max, span),
        SemanticError::MissingRequiredElement { description, span } => SemErrV::Missing(description@, span),
        SemanticError::DuplicateElement { element_type, span } => SemErrV::Duplicate(element_type@, span),
        SemanticError::ElementNotAllowed { element_type, span } => SemErrV::NotAllowed(element_type@, span),
        SemanticError::InvalidForDiscipline { message, span } => SemErrV::Invalid(message@, span),
    }
}

/// The message of a semantic error.
pub open spec fn sem_message(e: SemErrV) -> Seq<char> {
    match e {
        SemErrV::TooMany(t, found, max, _) => "Too many "@ + t + " elements: found "@ + decimal(found as nat)
            + ", maximum "@ + decimal(max as nat),
        SemErrV::TooFew(t, found, min, _) => "Too few "@ + t + " elements: found "@ + decimal(found as nat)
            + ", minimum "@ + decimal(min as nat),
        SemErrV::Duration(d, min, max, _) => "Duration out of range: "@ + decimal(d as nat) + "s (expected "@
            + decimal(min as nat) + "s - "@ + decimal(max as nat) + "s)"@,
        SemErrV::Missing(d, _) => "Missing required element: "@ + d,
        SemErrV::Duplicate(t, _) => "Duplicate element type not allowed: "@ + t,
        SemErrV::NotAllowed(t, _) => "Element not allowed in this segment: "@ + t,
        SemErrV::Invalid(m, _) => "Invalid element for discipline: "@ + m,
    }
}

/// The hint of a semantic error.
pub open spec fn sem_hint(e: SemErrV) -> Seq<char> {
    match e {
        SemErrV::TooMany(t, _, max, _) => "ISU rules limit "@ + t + " elements to "@ + decimal(max as nat)
            + " in this segment. Consider removing some or moving to a different sequence."@,
        SemErrV::TooFew(t, _, min, _) => "ISU rules require at least "@ + decimal(min as nat) + " "@ + t
            + " elements in this segment. Add more to meet the requirement."@,
        SemErrV::Duration(_, min, max, _) => "Segment duration must be between "@ + decimal(min as nat) + "s and "@
            + decimal(max as nat) + "s according to ISU rules. Adjust your choreography timing."@,
        SemErrV::Missing(d, _) => "This element is required by ISU rules: "@ + d + ". Add it to your program."@,
        SemErrV::Duplicate(t, _) => "ISU rules don't allow duplicate "@ + t
            + " elements in the same segment. Remove the duplicate."@,
        SemErrV::NotAllowed(t, _) => t + " is not allowed in this segment type. Check ISU rules for allowed elements."@,
        SemErrV::Invalid(_, _) => "This element doesn't match the discipline rules. For example, pairs elements like lifts are only allowed in pairs skating."@,
    }
}

/// The span of a semantic error.
pub open spec fn sem_span(e: SemErrV) -> Span {
    match e {
        SemErrV::TooMany(_, _, _, s) => s,
        SemErrV::TooFew(_, _, _, s) => s,
        SemErrV::Duration(_, _, _, s) => s,
        SemErrV::Missing(_, s) => s,
        SemErrV::Duplicate(_, s) => s,
        SemErrV::NotAllowed(_, s) => s,
        SemErrV::Invalid(_, s) => s,
    }
}

/// Does `needle` occur in `s` as a contiguous part?
pub open spec fn contains_text(s: Seq<char>, needle: Seq<char>) -> bool {
    exists|i: int| 0 <= i <= s.len() - needle.len() && #[trigger] s.subrange(i, i + needle.len()) == needle
}

/// The error code of a semantic error: too many jumps has its own code, a
/// duration has its own, all others are invalid combinations.
pub open spec fn sem_code(e: SemErrV) -> Seq<char> {
    match e {
        SemErrV::TooMany(t, _, _, _) => if contains_text(t, "jump"@) { "E0201"@ } else { "E0200"@ },
        SemErrV::Duration(_, _, _, _) => "E0204"@,
        _ => "E0200"@,
    }
}

fn contains_str(s: &str, needle: &str) -> (b: bool)
    ensures
        b == contains_text(s@, needle@),
{
    let n = s.unicode_len();
    let m = needle.unicode_len();
    if m > n {
        assert(!contains_text(s@, needle@));
        return false;
    }
    let last = n - m;
    let mut i: usize = 0;
    loop
        invariant
            n == s@.len(),
            m == needle@.len(),
            m <= n,
            last == n - m,
            i <= last,
            forall|k: int| 0 <= k < i ==> #[trigger] s@.subrange(k, k + m) != needle@,
        decreases last - i,
    {
        let mut j: usize = 0;
        let mut ok = true;
        while j < m
            invariant
                n == s@.len(),
                m == needle@.len(),
                i + m <= n,
                j <= m,
                ok ==> forall|k: int| 0 <= k < j ==> s@[i + k] == needle@[k],
                !ok ==> s@.subrange(i as int, i + m) != needle@,
            decreases m - j,
        {
            if s.get_char(i + j) != needle.get_char(j) {
                ok = false;
                assert(s@.subrange(i as int, i + m)[j as int] != needle@[j as int]);
            }
            j = j + 1;
        }
        if ok {
            assert(s@.subrange(i as int, i + m) =~= needle@);
            return true;
        }
        if i == last {
            return false;
        }
        i = i + 1;
    }
}

impl SemanticError {
    /// The message of the error.
    pub fn to_string(&self) -> (r: String)
        ensures
            r@ == sem_message(sem_view(*self)),
    {
        let mut s = String::new();
        match self {
            SemanticError::TooManyElements { element_type, found, max, .. } => {
                push_str(&mut s, "Too many ");
                push_str(&mut s, element_type.as_str());
                push_str(&mut s, " elements: found ");
                push_decimal(&mut s, *found as u64);
                push_str(&mut s, ", maximum ");
                push_decimal(&mut s, *max as u64);
            },
            SemanticError::TooFewElements { element_type, found, min, .. } => {
                push_str(&mut s, "Too few ");
                push_str(&mut s, element_type.as_str());
                push_str(&mut s, " elements: found ");
                push_decimal(&mut s, *found as u64);
                push_str(&mut s, ", minimum ");
                push_decimal(&mut s, *min as u64);
            },
            SemanticError::DurationOutOfRange { duration, min, max, .. } => {
                push_str(&mut s, "Duration out of range: ");
                push_decimal(&mut s, *duration as u64);
                push_str(&mut s, "s (expected ");
                push_decimal(&mut s, *min as u64);
                push_str(&mut s, "s - ");
                push_decimal(&mut s, *max as u64);
                push_str(&mut s, "s)");
            },
            SemanticError::MissingRequiredElement { description, .. } => {
                push_str(&mut s, "Missing required element: ");
                push_str(&mut s, description.as_str());
            },
            SemanticError::DuplicateElement { element_type, .. } => {
                push_str(&mut s, "Duplicate element type not allowed: ");
                push_str(&mut s, element_type.as_str());
            },
            SemanticError::ElementNotAllowed { element_type, .. } => {
                push_str(&mut s, "Element not allowed in this segment: ");
                push_str(&mut s, element_type.as_str());
            },
            SemanticError::InvalidForDiscipline { message, .. } => {
                push_str(&mut s, "Invalid element for discipline: ");
                push_str(&mut s, message.as_str());
            },
        }
        assert(s@ =~= sem_message(sem_view(*self)));
        s
    }

    /// A hint on how to fix the error.
    pub fn hint(&self) -> (r: Option<String>)
        ensures
            r matches Some(h) && h@ == sem_hint(sem_view(*self)),
    {
        let mut s = String::new();
        match self {
            SemanticError::TooManyElements { element_type, max, .. } => {
                push_str(&mut s, "ISU rules limit ");
                push_str(&mut s, element_type.as_str());
                push_str(&mut s, " elements to ");
                push_decimal(&mut s, *max as u64);
                push_str(&mut s, " in this segment. Consider removing some or moving to a different sequence.");
            },
            SemanticError::TooFewElements { element_type, min, .. } => {
                push_str(&mut s, "ISU rules require at least ");
                push_decimal(&mut s, *min as u64);
                push_str(&mut s, " ");
                push_str(&mut s, element_type.as_str());
                push_str(&mut s, " elements in this segment. Add more to meet the requirement.");
            },
            SemanticError::DurationOutOfRange { min, max, .. } => {
                push_str(&mut s, "Segment duration must be between ");
                push_decimal(&mut s, *min as u64);
                push_str(&mut s, "s and ");
                push_decimal(&mut s, *max as u64);
                push_str(&mut s, "s according to ISU rules. Adjust your choreography timing.");
            },
            SemanticError::MissingRequiredElement { description, .. } => {
                push_str(&mut s, "This element is required by ISU rules: ");
                push_str(&mut s, description.as_str());
                push_str(&mut s, ". Add it to your program.");
            },
            SemanticError::DuplicateElement { element_type, .. } => {
                push_str(&mut s, "ISU rules don't allow duplicate ");
                push_str(&mut s, element_type.as_str());
                push_str(&mut s, " elements in the same segment. Remove the duplicate.");
            },
            SemanticError::ElementNotAllowed { element_type, .. } => {
                push_str(&mut s, element_type.as_str());
                push_str(&mut s, " is not allowed in this segment type. Check ISU rules for allowed elements.");
            },
            SemanticError::InvalidForDiscipline { .. } => {
                push_str(&mut s, "This element doesn't match the discipline rules. For example, pairs elements like lifts are only allowed in pairs skating.");
            },
        }
        assert(s@ =~= sem_hint(sem_view(*self)));
        Some(s)
    }

    /// The span the error points at.
    pub fn span(&self) -> (s: Span)
        ensures
            s == sem_span(sem_view(*self)),
    {
        match self {
            SemanticError::TooManyElements { span, .. } => *span,
            SemanticError::TooFewElements { span, .. } => *span,
            SemanticError::DurationOutOfRange { span, .. } => *span,
            SemanticError::MissingRequiredElement { span, .. } => *span,
            SemanticError::DuplicateElement { span, .. } => *span,
            SemanticError::ElementNotAllowed { span, .. } => *span,
            SemanticError::InvalidForDiscipline { span, .. } => *span,
        }
    }

    /// The error code of the error.
    pub fn error_code(&self) -> (c: &'static str)
        ensures
            c@ == sem_code(sem_view(*self)),
    {
        proof {
            reveal_strlit("E0201");
            reveal_strlit("E0200");
            reveal_strlit("E0204");
        }
        match self {
            SemanticError::TooManyElements { element_type, .. } => {
                if contains_str(element_type.as_str(), "jump") {
                    ErrorCode::TOO_MANY_JUMPS
                } else {
                    ErrorCode::INVALID_COMBINATION
                }
            },
            SemanticError::DurationOutOfRange { .. } => ErrorCode::DURATION_EXCEEDED,
            _ => ErrorCode::INVALID_COMBINATION,
        }
    }

    /// The error as a diagnostic: its message, its code, a primary label
    /// `here` at its span, and its hint as help.
    pub fn to_diagnostic(&self) -> (d: Diagnostic)
        ensures
            d.severity == crate::base::diagnostics::Severity::Error,
            d.message@ == sem_message(sem_view(*self)),
            d.code matches Some(c) && c.0@ == sem_code(sem_view(*self)),
            d.labels@.len() == 1,
            d.labels@[0].span == sem_span(sem_view(*self)),
            d.labels@[0].message@ == "here"@,
            d.labels@[0].primary,
            d.notes@.len() == 1,
            d.notes@[0] matches crate::base::diagnostics::Note::Help(h) && h@ == sem_hint(sem_view(*self)),
    {
        let msg = self.to_string();
        let mut d = Diagnostic::error(msg.as_str()).with_code(self.error_code()).with_label(self.span(), "here");
        match self.hint() {
            Some(h) => {
                d = d.with_help(h.as_str());
            },
            None => {},
        }
        d
    }
}

/// Validation result: errors that must be fixed and warnings to review.
#[derive(Debug)]
pub struct ValidationResult {
    pub errors: Vec<SemanticError>,
    pub warnings: Vec<SemanticError>,
}

impl Default for ValidationResult {
    fn default() -> (r: ValidationResult)
        ensures
            r.errors@.len() == 0,
            r.warnings@.len() == 0,
    {
        ValidationResult { errors: Vec::new(), warnings: Vec::new() }
    }
}

/// The values of a list of semantic errors.
pub open spec fn sem_views(s: Seq<SemanticError>) -> Seq<SemErrV> {
    s.map_values(|e: SemanticError| sem_view(e))
}

impl ValidationResult {
    /// Did validation pass with no errors?
    pub fn is_ok(&self) -> (b: bool)
        ensures
            b == (self.errors@.len() == 0),
    {
        self.errors.len() == 0
    }

    /// Are there errors?
    pub fn has_errors(&self) -> (b: bool)
        ensures
            b == (self.errors@.len() > 0),
    {
        self.errors.len() > 0
    }

    /// Are there warnings?
    pub fn has_warnings(&self) -> (b: bool)
        ensures
            b == (self.warnings@.len() > 0),
    {
        self.warnings.len() > 0
    }
}

/// Element counts by kind.
pub struct ElementCounts {
    pub jumps: usize,
    pub spins: usize,
    pub step_sequences: usize,
    pub lifts: usize,
    pub throws: usize,
    pub twists: usize,
    pub death_spirals: usize,
    pub choreographic: usize,
    pub patterns: usize,
}

/// The number of elements of `es` whose kind satisfies `p`.
pub open spec fn count_kind(es: Seq<Element>, p: spec_fn(ElementKind) -> bool) -> nat
    decreases es.len(),
{
    if es.len() == 0 {
        0
    } else {
        count_kind(es.drop_last(), p) + if p(es.last().kind) { 1nat } else { 0nat }
    }
}

/// Do the counts agree with the elements?
pub open spec fn counts_of(c: ElementCounts, es: Seq<Element>) -> bool {
    &&& c.jumps == count_kind(es, |k: ElementKind| k is Jump)
    &&& c.spins == count_kind(es, |k: ElementKind| k is Spin)
    &&& c.step_sequences == count_kind(es, |k: ElementKind| k is StepSequence)
    &&& c.lifts == count_kind(es, |k: ElementKind| k is Lift)
    &&& c.throws == count_kind(es, |k: ElementKind| k is Throw)
    &&& c.twists == count_kind(es, |k: ElementKind| k is Twist)
    &&& c.death_spirals == count_kind(es, |k: ElementKind| k is DeathSpiral)
    &&& c.choreographic == count_kind(es, |k: ElementKind| k is Choreographic)
    &&& c.patterns == count_kind(es, |k: ElementKind| k is Pattern)
}

proof fn lemma_count_kind_le(es: Seq<Element>, p: spec_fn(ElementKind) -> bool)
    ensures
        count_kind(es, p) <= es.len(),
    decreases es.len(),
{
    if es.len() > 0 {
        lemma_count_kind_le(es.drop_last(), p);
    }
}

/// Count the elements by kind.
pub fn count_elements(elements: &Vec<&Element>) -> (c: ElementCounts)
    ensures
        counts_of(c, elements@.map_values(|e: &Element| *e)),
{
    let ghost es = elements@.map_values(|e: &Element| *e);
    let mut c = ElementCounts {
        jumps: 0,
        spins: 0,
        step_sequences: 0,
        lifts: 0,
        throws: 0,
        twists: 0,
        death_spirals: 0,
        choreographic: 0,
        patterns: 0,
    };
    let mut i: usize = 0;
    assert(es.take(0) =~= Seq::<Element>::empty());
    while i < elements.len()
        invariant
            i <= elements@.len(),
            es == elements@.map_values(|e: &Element| *e),
            counts_of(c, es.take(i as int)),
        decreases elements@.len() - i,
    {
        let ghost pre = es.take(i as int);
        proof {
            assert(es.take(i + 1).drop_last() =~= pre);
            assert(es.take(i + 1).last() == *elements@[i as int]);
            lemma_count_kind_le(pre, |k: ElementKind| k is Jump);
            lemma_count_kind_le(pre, |k: ElementKind| k is Spin);
            lemma_count_kind_le(pre, |k: ElementKind| k is StepSequence);
            lemma_count_kind_le(pre, |k: ElementKind| k is Lift);
            lemma_count_kind_le(pre, |k: ElementKind| k is Throw);
            lemma_count_kind_le(pre, |k: ElementKind| k is Twist);
            lemma_count_kind_le(pre, |k: ElementKind| k is DeathSpiral);
            lemma_count_kind_le(pre, |k: ElementKind| k is Choreographic);
            lemma_count_kind_le(pre, |k: ElementKind| k is Pattern);
        }
        match &elements[i].kind {
            ElementKind::Jump(_) => c.jumps = c.jumps + 1,
            ElementKind::Spin(_) => c.spins = c.spins + 1,
            ElementKind::StepSequence(_) => c.step_sequences = c.step_sequences + 1,
            ElementKind::Lift(_) => c.lifts = c.lifts + 1,
            ElementKind::Throw(_) => c.throws = c.throws + 1,
            ElementKind::Twist(_) => c.twists = c.twists + 1,
            ElementKind::DeathSpiral(_) => c.death_spirals = c.death_spirals + 1,
            ElementKind::Choreographic(_) => c.choreographic = c.choreographic + 1,
            ElementKind::Pattern(_) => c.patterns = c.patterns + 1,
            _ => {},
        }
        i = i + 1;
    }
    assert(es.take(i as int) =~= es);
    c
}

/// An error for a count above its maximum.
pub open spec fn too_many(name: Seq<char>, found: usize, max: Option<u32>, span: Span) -> Seq<SemErrV> {
    match max {
        Some(m) => if found > m { seq![SemErrV::TooMany(name, found, m as usize, span)] } else { Seq::empty() },
        None => Seq::empty(),
    }
}

/// An error for a count below its minimum.
pub open spec fn too_few(name: Seq<char>, found: usize, min: Option<u32>, span: Span) -> Seq<SemErrV> {
    match min {
        Some(m) => if found < m { seq![SemErrV::TooFew(name, found, m as usize, span)] } else { Seq::empty() },
        None => Seq::empty(),
    }
}

/// The errors the counts give against the rules, in the order jumps,
/// spins, step sequences, lifts, throws, twists, death spirals.
pub open spec fn count_errors(c: ElementCounts, r: RulesView, span: Span) -> Seq<SemErrV> {
    too_many("jump"@, c.jumps, r.max_jumps, span)
        + too_many("spin"@, c.spins, r.max_spins, span)
        + too_few("step sequence"@, c.step_sequences, r.step_sequences, span)
        + too_few("lift"@, c.lifts, r.required_lifts, span)
        + too_few("throw"@, c.throws, r.required_throws, span)
        + too_few("twist"@, c.twists, r.required_twists, span)
        + too_few("death spiral"@, c.death_spirals, r.required_death_spirals, span)
}

fn check_max(errors: &mut Vec<SemanticError>, name: &str, found: usize, max: Option<u32>, span: Span)
    ensures
        sem_views(final(errors)@) == sem_views(old(errors)@) + too_many(name@, found, max, span),
{
    let ghost e0 = errors@;
    match max {
        Some(m) => {
            if found > m as usize {
                errors.push(SemanticError::TooManyElements { element_type: string_of(name), found, max: m as usize, span });
            }
        },
        None => {},
    }
    assert(sem_views(errors@) =~= sem_views(e0) + too_many(name@, found, max, span));
}

fn check_min(errors: &mut Vec<SemanticError>, name: &str, found: usize, min: Option<u32>, span: Span)
    ensures
        sem_views(final(errors)@) == sem_views(old(errors)@) + too_few(name@, found, min, span),
{
    let ghost e0 = errors@;
    match min {
        Some(m) => {
            if found < m as usize {
                errors.push(SemanticError::TooFewElements { element_type: string_of(name), found, min: m as usize, span });
            }
        },
        None => {},
    }
    assert(sem_views(errors@) =~= sem_views(e0) + too_few(name@, found, min, span));
}

/// Check the element counts against the segment's rules; each violated
/// limit adds one error.
pub fn validate_element_counts(counts: &ElementCounts, rules: &SegmentRules, span: Span, result: &mut ValidationResult)
    ensures
        sem_views(final(result).errors@) == sem_views(old(result).errors@) + count_errors(*counts, rules@, span),
        final(result).warnings@ == old(result).warnings@,
{
    let ghost e0 = sem_views(result.errors@);
    check_max(&mut result.errors, "jump", counts.jumps, rules.max_jumps, span);
    check_max(&mut result.errors, "spin", counts.spins, rules.max_spins, span);
    check_min(&mut result.errors, "step sequence", counts.step_sequences, rules.step_sequences, span);
    check_min(&mut result.errors, "lift", counts.lifts, rules.required_lifts, span);
    check_min(&mut result.errors, "throw", counts.throws, rules.required_throws, span);
    check_min(&mut result.errors, "twist", counts.twists, rules.required_twists, span);
    check_min(&mut result.errors, "death spiral", counts.death_spirals, rules.required_death_spirals, span);
    assert(sem_views(result.errors@) =~= e0 + count_errors(*counts, rules@, span));
}

/// The discipline error one element gives in singles skating.
pub open spec fn singles_error(k: ElementKind, span: Span) -> Seq<SemErrV> {
    match k {
        ElementKind::Lift(_) => seq![SemErrV::Invalid("Lifts are not allowed in singles skating"@, span)],
        ElementKind::Throw(_) => seq![SemErrV::Invalid("Throws are not allowed in singles skating"@, span)],
        ElementKind::Twist(_) => seq![SemErrV::Invalid("Twists are not allowed in singles skating"@, span)],
        ElementKind::DeathSpiral(_) => seq![SemErrV::Invalid("Death spirals are not allowed in singles skating"@, span)],
        _ => Seq::empty(),
    }
}

/// The discipline error one element gives in ice dance.
pub open spec fn dance_error(k: ElementKind, span: Span) -> Seq<SemErrV> {
    match k {
        ElementKind::Jump(j) => if j.rotations != Rotations::Single {
            seq![SemErrV::Invalid("Ice dance only allows single jumps"@, span)]
        } else {
            Seq::empty()
        },
        ElementKind::Throw(_) => seq![SemErrV::Invalid("Throws are not allowed in ice dance"@, span)],
        ElementKind::Twist(_) => seq![SemErrV::Invalid("Twists are not allowed in ice dance"@, span)],
        ElementKind::DeathSpiral(_) => seq![SemErrV::Invalid("Death spirals are not allowed in ice dance"@, span)],
        _ => Seq::empty(),
    }
}

/// The discipline error one element gives.
pub open spec fn discipline_error(d: Discipline, k: ElementKind, span: Span) -> Seq<SemErrV> {
    match d {
        Discipline::MenSingles | Discipline::LadiesSingles => singles_error(k, span),
        Discipline::Pairs => Seq::empty(),
        Discipline::IceDance => dance_error(k, span),
    }
}

/// The discipline errors of a list of elements, in order.
pub open spec fn discipline_errors(d: Discipline, es: Seq<Element>, span: Span) -> Seq<SemErrV>
    decreases es.len(),
{
    if es.len() == 0 {
        Seq::empty()
    } else {
        discipline_errors(d, es.drop_last(), span) + discipline_error(d, es.last().kind, span)
    }
}

/// Singles skaters give the same discipline errors whichever their category.
proof fn lemma_singles_errors(es: Seq<Element>, span: Span)
    ensures
        discipline_errors(Discipline::LadiesSingles, es, span) == discipline_errors(Discipline::MenSingles, es, span),
    decreases es.len(),
{
    if es.len() > 0 {
        lemma_singles_errors(es.drop_last(), span);
    }
}

/// Pairs give no discipline errors.
proof fn lemma_pairs_errors(es: Seq<Element>, span: Span)
    ensures
        discipline_errors(Discipline::Pairs, es, span) == Seq::<SemErrV>::empty(),
    decreases es.len(),
{
    if es.len() > 0 {
        lemma_pairs_errors(es.drop_last(), span);
        assert(discipline_errors(Discipline::Pairs, es, span) =~= Seq::<SemErrV>::empty());
    }
}

/// Check the elements against the discipline: singles allow no pairs
/// elements, ice dance only single jumps and no throws, twists or death
/// spirals; pairs allow all.
pub fn validate_discipline_rules(elements: &Vec<&Element>, discipline: Discipline, segment_kind: SegmentKind, span: Span, result: &mut ValidationResult)
    ensures
        sem_views(final(result).errors@) == sem_views(old(result).errors@)
            + discipline_errors(discipline, elements@.map_values(|e: &Element| *e), span),
        final(result).warnings@ == old(result).warnings@,
{
    let ghost es = elements@.map_values(|e: &Element| *e);
    match discipline {
        Discipline::MenSingles | Discipline::LadiesSingles => {
            proof {
                lemma_singles_errors(es, span);
            }
            validate_singles_rules(elements, span, result);
        },
        Discipline::Pairs => {
            proof {
                lemma_pairs_errors(es, span);
                assert(sem_views(result.errors@) + Seq::<SemErrV>::empty() =~= sem_views(result.errors@));
            }
            validate_pairs_rules(elements, span, result);
        },
        Discipline::IceDance => {
            validate_ice_dance_rules(elements, segment_kind, span, result);
        },
    }
}

/// Singles allow no lifts, throws, twists or death spirals.
fn validate_singles_rules(elements: &Vec<&Element>, span: Span, result: &mut ValidationResult)
    ensures
        sem_views(final(result).errors@) == sem_views(old(result).errors@)
            + discipline_errors(Discipline::MenSingles, elements@.map_values(|e: &Element| *e), span),
        final(result).warnings@ == old(result).warnings@,
{
    let ghost es = elements@.map_values(|e: &Element| *e);
    let ghost e0 = sem_views(result.errors@);
    let mut i: usize = 0;
    assert(es.take(0) =~= Seq::<Element>::empty());
    while i < elements.len()
        invariant
            i <= elements@.len(),
            es == elements@.map_values(|e: &Element| *e),
            sem_views(result.errors@) == e0 + discipline_errors(Discipline::MenSingles, es.take(i as int), span),
            result.warnings@ == old(result).warnings@,
        decreases elements@.len() - i,
    {
        let ghost before = sem_views(result.errors@);
        let msg: Option<&str> = match &elements[i].kind {
            ElementKind::Lift(_) => Some("Lifts are not allowed in singles skating"),
            ElementKind::Throw(_) => Some("Throws are not allowed in singles skating"),
            ElementKind::Twist(_) => Some("Twists are not allowed in singles skating"),
            ElementKind::DeathSpiral(_) => Some("Death spirals are not allowed in singles skating"),
            _ => None,
        };
        match msg {
            Some(m) => {
                result.errors.push(SemanticError::InvalidForDiscipline { message: string_of(m), span });
            },
            None => {},
        }
        proof {
            assert(es.take(i + 1).drop_last() =~= es.take(i as int));
            assert(es.take(i + 1).last() == *elements@[i as int]);
            assert(sem_views(result.errors@) =~= before + discipline_error(Discipline::MenSingles, elements@[i as int].kind, span));
        }
        i = i + 1;
    }
    assert(es.take(i as int) =~= es);
}

/// Pairs may hold every kind of element.
fn validate_pairs_rules(_elements: &Vec<&Element>, _span: Span, result: &mut ValidationResult)
    ensures
        final(result).errors@ == old(result).errors@,
        final(result).warnings@ == old(result).warnings@,
{
}

/// Ice dance allows only single jumps, and no throws, twists or death
/// spirals.
fn validate_ice_dance_rules(elements: &Vec<&Element>, _segment_kind: SegmentKind, span: Span, result: &mut ValidationResult)
    ensures
        sem_views(final(result).errors@) == sem_views(old(result).errors@)
            + discipline_errors(Discipline::IceDance, elements@.map_values(|e: &Element| *e), span),
        final(result).warnings@ == old(result).warnings@,
{
    let ghost es = elements@.map_values(|e: &Element| *e);
    let ghost e0 = sem_views(result.errors@);
    let mut i: usize = 0;
    assert(es.take(0) =~= Seq::<Element>::empty());
    while i < elements.len()
        invariant
            i <= elements@.len(),
            es == elements@.map_values(|e: &Element| *e),
            sem_views(result.errors@) == e0 + discipline_errors(Discipline::IceDance, es.take(i as int), span),
            result.warnings@ == old(result).warnings@,
        decreases elements@.len() - i,
    {
        let ghost before = sem_views(result.errors@);
        let msg: Option<&str> = match &elements[i].kind {
            ElementKind::Jump(j) => match j.rotations {
                Rotations::Single => None,
                _ => Some("Ice dance only allows single jumps"),
            },
            ElementKind::Throw(_) => Some("Throws are not allowed in ice dance"),
            ElementKind::Twist(_) => Some("Twists are not allowed in ice dance"),
            ElementKind::DeathSpiral(_) => Some("Death spirals are not allowed in ice dance"),
            _ => None,
        };
        match msg {
            Some(m) => {
                result.errors.push(SemanticError::InvalidForDiscipline { message: string_of(m), span });
            },
            None => {},
        }
        proof {
            assert(es.take(i + 1).drop_last() =~= es.take(i as int));
            assert(es.take(i + 1).last() == *elements@[i as int]);
            assert(sem_views(result.errors@) =~= before + discipline_error(Discipline::IceDance, elements@[i as int].kind, span));
        }
        i = i + 1;
    }
    assert(es.take(i as int) =~= es);
}

/// All elements of a segment, sequence by sequence.
pub open spec fn segment_elements(seg: Segment) -> Seq<Element> {
    seg.sequences@.map_values(|s: crate::syntax::ast::Sequence| s.elements@).flatten()
}

/// The errors validation reports for one segment.
pub open spec fn segment_errors(seg: Segment, d: Discipline) -> Seq<SemErrV> {
    let es = segment_elements(seg);
    let c = ElementCounts {
        jumps: count_kind(es, |k: ElementKind| k is Jump) as usize,
        spins: count_kind(es, |k: ElementKind| k is Spin) as usize,
        step_sequences: count_kind(es, |k: ElementKind| k is StepSequence) as usize,
        lifts: count_kind(es, |k: ElementKind| k is Lift) as usize,
        throws: count_kind(es, |k: ElementKind| k is Throw) as usize,
        twists: count_kind(es, |k: ElementKind| k is Twist) as usize,
        death_spirals: count_kind(es, |k: ElementKind| k is DeathSpiral) as usize,
        choreographic: count_kind(es, |k: ElementKind| k is Choreographic) as usize,
        patterns: count_kind(es, |k: ElementKind| k is Pattern) as usize,
    };
    count_errors(c, crate::semantics::rules::rules_for(d, seg.kind), seg.span)
        + discipline_errors(d, es, seg.span)
}

/// A segment whose rules limit spins to `m` is reported for too many spins,
/// with the number it holds and the limit, exactly when it holds more than
/// `m` spin elements; no other error names spins as too many.
pub proof fn law_too_many_spins(seg: Segment, d: Discipline)
    requires
        segment_elements(seg).len() <= usize::MAX,
    ensures
        ({
            let n = count_kind(segment_elements(seg), |k: ElementKind| k is Spin);
            let errs = segment_errors(seg, d);
            match crate::semantics::rules::rules_for(d, seg.kind).max_spins {
                Some(m) => has_err(errs, SemErrV::TooMany("spin"@, n as usize, m as usize, seg.span)) <==> n > m,
                None => no_spin_too_many(errs),
            }
        }),
{
    let es = segment_elements(seg);
    let n = count_kind(es, |k: ElementKind| k is Spin);
    lemma_count_kind_bound(es, |k: ElementKind| k is Spin);
    let r = crate::semantics::rules::rules_for(d, seg.kind);
    let c = ElementCounts {
        jumps: count_kind(es, |k: ElementKind| k is Jump) as usize,
        spins: count_kind(es, |k: ElementKind| k is Spin) as usize,
        step_sequences: count_kind(es, |k: ElementKind| k is StepSequence) as usize,
        lifts: count_kind(es, |k: ElementKind| k is Lift) as usize,
        throws: count_kind(es, |k: ElementKind| k is Throw) as usize,
        twists: count_kind(es, |k: ElementKind| k is Twist) as usize,
        death_spirals: count_kind(es, |k: ElementKind| k is DeathSpiral) as usize,
        choreographic: count_kind(es, |k: ElementKind| k is Choreographic) as usize,
        patterns: count_kind(es, |k: ElementKind| k is Pattern) as usize,
    };
    assert(segment_errors(seg, d) == count_errors(c, r, seg.span) + discipline_errors(d, es, seg.span));
    lemma_no_too_many_in_discipline(d, es, seg.span);
    lemma_spin_count_errors(c, r, seg.span, discipline_errors(d, es, seg.span));
    let errs = segment_errors(seg, d);
    match r.max_spins {
        Some(m) => {},
        None => {
            assert(no_spin_too_many(errs));
        },
    }
}

/// No error of the list names a maximum.
pub open spec fn no_too_many(s: Seq<SemErrV>) -> bool {
    forall|i: int| 0 <= i < s.len() ==> !(#[trigger] s[i] is TooMany)
}

/// No error of the list names spins as too many.
pub open spec fn no_spin_too_many(s: Seq<SemErrV>) -> bool {
    forall|i: int| 0 <= i < s.len() ==> !(#[trigger] s[i] matches SemErrV::TooMany(name, _, _, _) && name == "spin"@)
}

proof fn lemma_no_too_many_concat(a: Seq<SemErrV>, b: Seq<SemErrV>)
    requires
        no_too_many(a),
        no_too_many(b),
    ensures
        no_too_many(a + b),
{
    assert forall|i: int| 0 <= i < (a + b).len() implies !(#[trigger] (a + b)[i] is TooMany) by {
        if i < a.len() {
            assert((a + b)[i] == a[i]);
        } else {
            assert((a + b)[i] == b[i - a.len()]);
        }
    }
}

proof fn lemma_no_spin_concat(a: Seq<SemErrV>, b: Seq<SemErrV>)
    requires
        no_spin_too_many(a),
        no_spin_too_many(b),
    ensures
        no_spin_too_many(a + b),
{
    assert forall|i: int| 0 <= i < (a + b).len() implies !(#[trigger] (a + b)[i] matches SemErrV::TooMany(name, _, _, _) && name == "spin"@) by {
        if i < a.len() {
            assert((a + b)[i] == a[i]);
        } else {
            assert((a + b)[i] == b[i - a.len()]);
        }
    }
}

/// The list holds the error `x`.
pub open spec fn has_err(s: Seq<SemErrV>, x: SemErrV) -> bool {
    exists|i: int| 0 <= i < s.len() && #[trigger] s[i] == x
}

proof fn lemma_has_err_concat(a: Seq<SemErrV>, b: Seq<SemErrV>, x: SemErrV)
    ensures
        has_err(a + b, x) <==> (has_err(a, x) || has_err(b, x)),
{
    if has_err(a + b, x) {
        let i = choose|i: int| 0 <= i < (a + b).len() && #[trigger] (a + b)[i] == x;
        if i < a.len() {
            assert(a[i] == x);
        } else {
            assert(b[i - a.len()] == x);
        }
    }
    if has_err(a, x) {
        let i = choose|i: int| 0 <= i < a.len() && #[trigger] a[i] == x;
        assert((a + b)[i] == x);
    }
    if has_err(b, x) {
        let i = choose|i: int| 0 <= i < b.len() && #[trigger] b[i] == x;
        assert((a + b)[i + a.len()] == x);
    }
}

/// Among the count errors and errors that name no maximum, the one naming
/// too many spins is there exactly when the spins exceed their limit.
proof fn lemma_spin_count_errors(c: ElementCounts, r: RulesView, span: Span, de: Seq<SemErrV>)
    requires
        no_too_many(de),
    ensures
        ({
            let errs = count_errors(c, r, span) + de;
            match r.max_spins {
                Some(m) => has_err(errs, SemErrV::TooMany("spin"@, c.spins, m as usize, span)) <==> c.spins > m,
                None => no_spin_too_many(errs),
            }
        }),
{
    let jm = too_many("jump"@, c.jumps, r.max_jumps, span);
    let sp = too_many("spin"@, c.spins, r.max_spins, span);
    let f1 = too_few("step sequence"@, c.step_sequences, r.step_sequences, span);
    let f2 = too_few("lift"@, c.lifts, r.required_lifts, span);
    let f3 = too_few("throw"@, c.throws, r.required_throws, span);
    let f4 = too_few("twist"@, c.twists, r.required_twists, span);
    let f5 = too_few("death spiral"@, c.death_spirals, r.required_death_spirals, span);
    reveal_strlit("spin");
    reveal_strlit("jump");
    assert("spin"@ != "jump"@) by { assert("spin"@[0] != "jump"@[0]); }
    let a1 = jm + sp;
    let a2 = a1 + f1;
    let a3 = a2 + f2;
    let a4 = a3 + f3;
    let a5 = a4 + f4;
    let a6 = a5 + f5;
    let errs = a6 + de;
    assert(count_errors(c, r, span) == a6);
    assert(no_spin_too_many(jm));
    assert(no_too_many(f1));
    assert(no_too_many(f2));
    assert(no_too_many(f3));
    assert(no_too_many(f4));
    assert(no_too_many(f5));
    match r.max_spins {
        Some(m) => {
            let x = SemErrV::TooMany("spin"@, c.spins, m as usize, span);
            lemma_has_err_concat(jm, sp, x);
            lemma_has_err_concat(a1, f1, x);
            lemma_has_err_concat(a2, f2, x);
            lemma_has_err_concat(a3, f3, x);
            lemma_has_err_concat(a4, f4, x);
            lemma_has_err_concat(a5, f5, x);
            lemma_has_err_concat(a6, de, x);
            assert(!has_err(jm, x));
            assert(!has_err(f1, x));
            assert(!has_err(f2, x));
            assert(!has_err(f3, x));
            assert(!has_err(f4, x));
            assert(!has_err(f5, x));
            assert(!has_err(de, x));
            if c.spins > m {
                assert(sp[0] == x);
            }
        },
        None => {
            assert(no_spin_too_many(sp));
            lemma_no_too_many_concat(f1, f2);
            lemma_no_spin_concat(jm, sp);
            assert(no_spin_too_many(f1));
            assert(no_spin_too_many(f2));
            assert(no_spin_too_many(f3));
            assert(no_spin_too_many(f4));
            assert(no_spin_too_many(f5));
            assert(no_spin_too_many(de));
            lemma_no_spin_concat(a1, f1);
            lemma_no_spin_concat(a2, f2);
            lemma_no_spin_concat(a3, f3);
            lemma_no_spin_concat(a4, f4);
            lemma_no_spin_concat(a5, f5);
            lemma_no_spin_concat(a6, de);
        },
    }
}

/// A count of elements is at most their number.
proof fn lemma_count_kind_bound(es: Seq<Element>, p: spec_fn(ElementKind) -> bool)
    ensures
        count_kind(es, p) <= es.len(),
    decreases es.len(),
{
    if es.len() > 0 {
        lemma_count_kind_bound(es.drop_last(), p);
    }
}

/// The discipline errors name no maximum.
proof fn lemma_no_too_many_in_discipline(d: Discipline, es: Seq<Element>, span: Span)
    ensures
        no_too_many(discipline_errors(d, es, span)),
    decreases es.len(),
{
    if es.len() > 0 {
        lemma_no_too_many_in_discipline(d, es.drop_last(), span);
        let prev = discipline_errors(d, es.drop_last(), span);
        let last = discipline_error(d, es.last().kind, span);
        assert forall|i: int| 0 <= i < discipline_errors(d, es, span).len() implies !(#[trigger] discipline_errors(d, es, span)[i] is TooMany) by {
            if i < prev.len() {
                assert(discipline_errors(d, es, span)[i] == prev[i]);
            } else {
                assert(discipline_errors(d, es, span)[i] == last[i - prev.len()]);
            }
        }
    }
}

/// The errors validation reports for a program, segment by segment.
pub open spec fn program_errors(segs: Seq<Segment>, d: Discipline) -> Seq<SemErrV>
    decreases segs.len(),
{
    if segs.len() == 0 {
        Seq::empty()
    } else {
        program_errors(segs.drop_last(), d) + segment_errors(segs.last(), d)
    }
}

/// Validate one segment: its element counts against the rules of its kind,
/// then its elements against the discipline.
pub fn validate_segment(segment: &Segment, discipline: Discipline, result: &mut ValidationResult)
    ensures
        sem_views(final(result).errors@) == sem_views(old(result).errors@) + segment_errors(*segment, discipline),
        final(result).warnings@ == old(result).warnings@,
{
    let rules = discipline.segment_rules(segment.kind);
    let mut elements: Vec<&Element> = Vec::new();
    let ghost seqs = segment.sequences@.map_values(|s: crate::syntax::ast::Sequence| s.elements@);
    let mut i: usize = 0;
    assert(seqs.take(0).flatten() =~= Seq::<Element>::empty()) by {
        assert(seqs.take(0) =~= Seq::<Seq<Element>>::empty());
    }
    assert(elements@.map_values(|e: &Element| *e) =~= Seq::<Element>::empty());
    while i < segment.sequences.len()
        invariant
            i <= segment.sequences@.len(),
            seqs == segment.sequences@.map_values(|s: crate::syntax::ast::Sequence| s.elements@),
            elements@.map_values(|e: &Element| *e) == seqs.take(i as int).flatten(),
        decreases segment.sequences@.len() - i,
    {
        let seq = &segment.sequences[i];
        let mut j: usize = 0;
        let ghost base = elements@.map_values(|e: &Element| *e);
        while j < seq.elements.len()
            invariant
                j <= seq.elements@.len(),
                elements@.map_values(|e: &Element| *e) == base + seq.elements@.take(j as int),
            decreases seq.elements@.len() - j,
        {
            let ghost prev = elements@;
            elements.push(&seq.elements[j]);
            proof {
                assert(elements@.map_values(|e: &Element| *e) =~= prev.map_values(|e: &Element| *e).push(seq.elements@[j as int]));
                assert(seq.elements@.take(j + 1) =~= seq.elements@.take(j as int).push(seq.elements@[j as int]));
                assert(elements@.map_values(|e: &Element| *e) =~= base + seq.elements@.take(j + 1));
            }
            j = j + 1;
        }
        proof {
            assert(seq.elements@.take(j as int) =~= seq.elements@);
            let t = seqs.take(i + 1);
            assert(t.drop_last() =~= seqs.take(i as int));
            assert(t.last() == seq.elements@);
            assert(t =~= seqs.take(i as int).push(seq.elements@));
            seqs.take(i as int).lemma_flatten_push(seq.elements@);
        }
        i = i + 1;
    }
    proof {
        assert(seqs.take(i as int) =~= seqs);
    }
    let counts = count_elements(&elements);
    validate_element_counts(&counts, &rules, segment.span, result);
    validate_discipline_rules(&elements, discipline, segment.kind, segment.span, result);
}

/// Validate a program against the ISU rules with a given configuration.
pub fn validate_program_with_rules(program: &Program, discipline: Discipline, rules: &ISURules) -> (r: ValidationResult)
    ensures
        sem_views(r.errors@) == program_errors(program.segments@, discipline),
        r.warnings@.len() == 0,
{
    let mut result = ValidationResult::default();
    let mut i: usize = 0;
    assert(sem_views(result.errors@) =~= Seq::<SemErrV>::empty());
    assert(program.segments@.take(0) =~= Seq::<Segment>::empty());
    while i < program.segments.len()
        invariant
            i <= program.segments@.len(),
            sem_views(result.errors@) == program_errors(program.segments@.take(i as int), discipline),
            result.warnings@.len() == 0,
        decreases program.segments@.len() - i,
    {
        validate_segment(&program.segments[i], discipline, &mut result);
        proof {
            let t = program.segments@.take(i + 1);
            assert(t.drop_last() =~= program.segments@.take(i as int));
            assert(t.last() == program.segments@[i as int]);
        }
        i = i + 1;
    }
    assert(program.segments@.take(i as int) =~= program.segments@);
    result
}

/// Validate a program against the ISU rules.
pub fn validate_program(program: &Program, discipline: Discipline) -> (r: ValidationResult)
    ensures
        sem_views(r.errors@) == program_errors(program.segments@, discipline),
        r.warnings@.len() == 0,
{
    validate_program_with_rules(program, discipline, &ISURules::default())
}

} // verus!
