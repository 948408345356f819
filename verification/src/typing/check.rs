//! Type checking and inference for Anvomidav programs, in the style of
//! Hindley-Milner with the skating element types as subtypes of `Element`.
//!
//! The substitution is kept in solved form: no type it binds mentions a
//! variable it binds, so applying it once resolves every bound variable.

use vstd::prelude::*;
use std::collections::HashMap;
use crate::base::diagnostics::{Diagnostic, Diagnostics, ErrorCode};
use crate::base::skating::{edge_name, jump_entry_edge, Edge, JumpKind, Level};
use crate::base::source::{FileId, Span};
use crate::base::text::{decimal, push_signed_decimal, push_str, signed_decimal, str_eq, string_of};
use crate::syntax::ast::{
    BinOp, Element, ElementKind, Expr, FnDef, Ident, JumpElement, Param, PositionExpr, Program, Segment, Sequence,
    SpinElement, Spanned, Stmt, TimeExpr, Timing, TypeExpr, UnaryOp,
};
use crate::typing::env::{builtins, define_in, env_vars, lemma_lookup_push_empty, lookup_scopes, scheme_view, without, SchemeV, TypeDefV, TypeEnv};
use crate::typing::ty::{
    compatible, compose, element_kind, extends, lemma_extends_compatible, lemma_extends_compose, lemma_extends_refl,
    lemma_extends_trans, lemma_subst_compose, tvs_subst,
    field_views, free_of, idempotent, lemma_applied_free, lemma_field_views_index, lemma_fields_subst_index,
    lemma_subst_id, lemma_subst_vars, lemma_tviews_index, lemma_tvs_subst_index, subst_view, tv_subst,
    tv_vars, tviews, type_text, var_text, add_new, counter_after, instantiation, Type, TypeScheme, TypeV, TypeVar,
};

verus! {

broadcast use {
    vstd::std_specs::hash::group_hash_axioms,
    vstd::std_specs::vec::axiom_vec_decreases_to_view,
    vstd::std_specs::vec::axiom_vec_index_decreases,
};

/// A type error.
#[derive(Debug)]
pub struct TypeError {
    pub message: String,
    pub span: Span,
    pub expected: Option<Type>,
    pub found: Option<Type>,
}

/// The message of a type mismatch.
pub open spec fn mismatch_text(expected: TypeV, found: TypeV) -> Seq<char> {
    "type mismatch: expected "@ + type_text(expected) + ", found "@ + type_text(found)
}

/// Unification goes into the parts of two types of one form: functions of
/// as many parameters, tuples and records of as many parts, arrays,
/// optionals.
pub open spec fn unify_descends(a: TypeV, b: TypeV) -> bool {
    match (a, b) {
        (TypeV::Fn(p1, _), TypeV::Fn(p2, _)) => p1.len() == p2.len(),
        (TypeV::Tuple(t1), TypeV::Tuple(t2)) => t1.len() == t2.len(),
        (TypeV::Array(_), TypeV::Array(_)) => true,
        (TypeV::Optional(_), TypeV::Optional(_)) => true,
        (TypeV::Record(f1), TypeV::Record(f2)) => f1.len() == f2.len(),
        _ => false,
    }
}

/// Two different types that unification rejects at once: neither is a
/// variable or the error type, they are not an element kind against
/// `Element`, and they are not of one form whose parts it compares.
pub open spec fn clash(a: TypeV, b: TypeV) -> bool {
    &&& a != b
    &&& !(a is Var) && !(b is Var)
    &&& !(a is Error) && !(b is Error)
    &&& !(element_kind(a) && b is Element)
    &&& !unify_descends(a, b)
}

/// Unifying two types under the substitution `m`, with at most `fuel`
/// nested steps (`None` where that is not enough): nothing to do where they
/// are equal under `m`; a binding where one is a variable (an infinite type
/// where it occurs in the other); the parts in order for functions, tuples
/// and records of as many parts (records with the same field names), arrays
/// and optionals; nothing where an element kind meets `Element` or one is
/// the error type; a mismatch otherwise. The outcome and the substitution
/// afterwards.
pub open spec fn unify_full(m: Map<u32, TypeV>, t1: TypeV, t2: TypeV, fuel: nat) -> Option<(Result<(), Seq<char>>, Map<u32, TypeV>)>
    decreases fuel, 0int,
{
    if fuel == 0 {
        None
    } else {
        let a = tv_subst(t1, m);
        let b = tv_subst(t2, m);
        if a == b {
            Some((Ok(()), m))
        } else if a is Var {
            bind_outcome(m, a->Var_0, b)
        } else if b is Var {
            bind_outcome(m, b->Var_0, a)
        } else {
            match (a, b) {
                (TypeV::Fn(p1, r1), TypeV::Fn(p2, r2)) => if p1.len() != p2.len() {
                    Some((Err(mismatch_text(a, b)), m))
                } else {
                    match unify_seq(m, p1, p2, 0, (fuel - 1) as nat) {
                        Some((Ok(()), m1)) => unify_full(m1, *r1, *r2, (fuel - 1) as nat),
                        other => other,
                    }
                },
                (TypeV::Tuple(s1), TypeV::Tuple(s2)) => if s1.len() != s2.len() {
                    Some((Err(mismatch_text(a, b)), m))
                } else {
                    unify_seq(m, s1, s2, 0, (fuel - 1) as nat)
                },
                (TypeV::Array(e1), TypeV::Array(e2)) => unify_full(m, *e1, *e2, (fuel - 1) as nat),
                (TypeV::Optional(e1), TypeV::Optional(e2)) => unify_full(m, *e1, *e2, (fuel - 1) as nat),
                (TypeV::Record(f1), TypeV::Record(f2)) => if f1.len() != f2.len() {
                    Some((Err(mismatch_text(a, b)), m))
                } else {
                    unify_fields(m, f1, f2, 0, (fuel - 1) as nat)
                },
                _ => if (element_kind(a) && b is Element) || a is Error || b is Error {
                    Some((Ok(()), m))
                } else {
                    Some((Err(mismatch_text(a, b)), m))
                },
            }
        }
    }
}

/// Unifying two lists of types pairwise from the `i`-th on, until one fails.
pub open spec fn unify_seq(m: Map<u32, TypeV>, s1: Seq<TypeV>, s2: Seq<TypeV>, i: int, fuel: nat)
    -> Option<(Result<(), Seq<char>>, Map<u32, TypeV>)>
    decreases fuel, s1.len() - i,
{
    if i < 0 || i >= s1.len() || i >= s2.len() {
        Some((Ok(()), m))
    } else {
        match unify_full(m, s1[i], s2[i], fuel) {
            Some((Ok(()), m1)) => unify_seq(m1, s1, s2, i + 1, fuel),
            other => other,
        }
    }
}

/// Unifying the fields of two records from the `i`-th on: the names must
/// agree, then the types.
pub open spec fn unify_fields(m: Map<u32, TypeV>, f1: Seq<(Seq<char>, TypeV)>, f2: Seq<(Seq<char>, TypeV)>, i: int, fuel: nat)
    -> Option<(Result<(), Seq<char>>, Map<u32, TypeV>)>
    decreases fuel, f1.len() - i,
{
    if i < 0 || i >= f1.len() || i >= f2.len() {
        Some((Ok(()), m))
    } else if f1[i].0 != f2[i].0 {
        Some((Err("field name mismatch: "@ + f1[i].0 + " vs "@ + f2[i].0), m))
    } else {
        match unify_full(m, f1[i].1, f2[i].1, fuel) {
            Some((Ok(()), m1)) => unify_fields(m1, f1, f2, i + 1, fuel),
            other => other,
        }
    }
}

/// The outcome of a unification as values.
pub open spec fn unify_msg(r: Result<(), TypeError>) -> Result<(), Seq<char>> {
    match r {
        Ok(()) => Ok(()),
        Err(e) => Err(e.message@),
    }
}

/// From `f0` nested steps on, unification gives `res`.
pub open spec fn unify_settles(m: Map<u32, TypeV>, t1: TypeV, t2: TypeV, f0: nat, res: (Result<(), Seq<char>>, Map<u32, TypeV>)) -> bool {
    forall|f: nat| f >= f0 ==> #[trigger] unify_full(m, t1, t2, f) == Some(res)
}

/// What unifying two types under `m` gives: the outcome that enough
/// nested steps settle on.
pub open spec fn unify_spec(m: Map<u32, TypeV>, t1: TypeV, t2: TypeV) -> Option<(Result<(), Seq<char>>, Map<u32, TypeV>)> {
    if exists|f0: nat, res: (Result<(), Seq<char>>, Map<u32, TypeV>)| unify_settles(m, t1, t2, f0, res) {
        let (f0, res) = choose|f0: nat, res: (Result<(), Seq<char>>, Map<u32, TypeV>)| unify_settles(m, t1, t2, f0, res);
        Some(res)
    } else {
        None
    }
}

/// Unification looks at its types only under the substitution, so applying
/// it first changes nothing.
proof fn lemma_unify_full_applied(m: Map<u32, TypeV>, t1: TypeV, t2: TypeV, f: nat)
    requires
        idempotent(m),
    ensures
        unify_full(m, t1, t2, f) == unify_full(m, tv_subst(t1, m), tv_subst(t2, m), f),
{
    lemma_applied_free(t1, m);
    lemma_applied_free(t2, m);
    lemma_subst_id(tv_subst(t1, m), m);
    lemma_subst_id(tv_subst(t2, m), m);
}

/// For types without variables, unification does nothing where they are
/// equal and reports a mismatch where they clash.
proof fn lemma_unify_ground(m: Map<u32, TypeV>, a: TypeV, b: TypeV)
    requires
        ground(a),
        ground(b),
    ensures
        a == b ==> unify_spec(m, a, b) == Some((Ok::<(), Seq<char>>(()), m)),
        clash(a, b) ==> unify_spec(m, a, b) == Some((Err::<(), Seq<char>>(mismatch_text(a, b)), m)),
{
    lemma_ground_subst(a, m);
    lemma_ground_subst(b, m);
    if a == b {
        assert forall|f: nat| f >= 1 implies #[trigger] unify_full(m, a, b, f) == Some((Ok::<(), Seq<char>>(()), m)) by {}
        lemma_unify_spec(m, a, b, 1, (Ok::<(), Seq<char>>(()), m));
    }
    if clash(a, b) {
        assert forall|f: nat| f >= 1 implies #[trigger] unify_full(m, a, b, f)
            == Some((Err::<(), Seq<char>>(mismatch_text(a, b)), m)) by {}
        lemma_unify_spec(m, a, b, 1, (Err::<(), Seq<char>>(mismatch_text(a, b)), m));
    }
}

/// Settled unification outcomes agree.
proof fn lemma_unify_spec(m: Map<u32, TypeV>, t1: TypeV, t2: TypeV, f0: nat, res: (Result<(), Seq<char>>, Map<u32, TypeV>))
    requires
        unify_settles(m, t1, t2, f0, res),
    ensures
        unify_spec(m, t1, t2) == Some(res),
{
    let (g0, res2) = choose|f0: nat, res: (Result<(), Seq<char>>, Map<u32, TypeV>)| unify_settles(m, t1, t2, f0, res);
    let f = if f0 >= g0 { f0 } else { g0 };
    assert(unify_full(m, t1, t2, f) == Some(res));
    assert(unify_full(m, t1, t2, f) == Some(res2));
}

/// Binding a variable to a type: an infinite type where the variable occurs
/// in it, else the substitution extended by the binding.
pub open spec fn bind_outcome(m: Map<u32, TypeV>, v: TypeVar, t: TypeV) -> Option<(Result<(), Seq<char>>, Map<u32, TypeV>)> {
    if tv_vars(t).contains(v) {
        Some((Err("infinite type: "@ + var_text(v) + " ~ "@ + type_text(t)), m))
    } else {
        Some((Ok(()), compose(m, map![v.0 => t])))
    }
}

impl TypeError {
    /// An error with a message and no types.
    pub fn new(message: &str, span: Span) -> (e: TypeError)
        ensures
            e.message@ == message@,
            e.span == span,
            e.expected is None,
            e.found is None,
    {
        TypeError { message: string_of(message), span, expected: None, found: None }
    }

    /// A mismatch between an expected and a found type.
    pub fn mismatch(expected: Type, found: Type, span: Span) -> (e: TypeError)
        ensures
            e.message@ == mismatch_text(expected@, found@),
            e.span == span,
            e.expected == Some(expected),
            e.found == Some(found),
    {
        let mut message = string_of("type mismatch: expected ");
        push_str(&mut message, expected.to_string().as_str());
        push_str(&mut message, ", found ");
        push_str(&mut message, found.to_string().as_str());
        TypeError { message, span, expected: Some(expected), found: Some(found) }
    }

    /// A reference to a variable that is not in scope.
    pub fn undefined(name: &str, span: Span) -> (e: TypeError)
        ensures
            e.message@ == "undefined variable: "@ + name@,
            e.span == span,
            e.expected is None,
            e.found is None,
    {
        let mut message = string_of("undefined variable: ");
        push_str(&mut message, name);
        TypeError { message, span, expected: None, found: None }
    }

    /// The error as a diagnostic: a type mismatch when both types are known,
    /// else an undefined-variable error, labelled at the error's span, with
    /// the two types as notes when known.
    pub fn to_diagnostic(&self) -> (d: Diagnostic)
        ensures
            d.severity == crate::base::diagnostics::Severity::Error,
            d.message@ == self.message@,
            d.code matches Some(c) && c.0@ == (if self.expected is Some && self.found is Some {
                "E0100"@
            } else {
                "E0101"@
            }),
            d.labels@.len() == 1,
            d.labels@[0].span == self.span,
            d.labels@[0].message@ == "here"@,
            d.labels@[0].primary,
            match (self.expected, self.found) {
                (Some(e), Some(f)) => d.notes@ == seq![
                    crate::base::diagnostics::Note::Note(d.notes@[0]->Note_0),
                    crate::base::diagnostics::Note::Note(d.notes@[1]->Note_0),
                ] && d.notes@[0]->Note_0@ == "expected: "@ + type_text(e@)
                    && d.notes@[1]->Note_0@ == "   found: "@ + type_text(f@),
                _ => d.notes@.len() == 0,
            },
            diagnoses(d, *self),
    {
        proof {
            reveal_strlit("E0100");
            reveal_strlit("E0101");
        }
        let code = if self.expected.is_some() && self.found.is_some() {
            ErrorCode::TYPE_MISMATCH
        } else {
            ErrorCode::UNDEFINED_VARIABLE
        };
        let mut diag = Diagnostic::error(self.message.as_str()).with_code(code);
        diag = diag.with_label(self.span, "here");
        proof {
            assert(diag.labels@ =~= seq![diag.labels@[0]]);
        }
        match (&self.expected, &self.found) {
            (Some(expected), Some(found)) => {
                let mut e = string_of("expected: ");
                push_str(&mut e, expected.to_string().as_str());
                let mut f = string_of("   found: ");
                push_str(&mut f, found.to_string().as_str());
                diag = diag.with_note(e.as_str());
                diag = diag.with_note(f.as_str());
            },
            _ => {},
        }
        diag
    }
}

/// The name a jump kind is shown by in messages.
pub open spec fn jump_kind_name(k: JumpKind) -> Seq<char> {
    match k {
        JumpKind::Axel => "Axel"@,
        JumpKind::Lutz => "Lutz"@,
        JumpKind::Flip => "Flip"@,
        JumpKind::Loop => "Loop"@,
        JumpKind::Salchow => "Salchow"@,
        JumpKind::ToeLoop => "ToeLoop"@,
        JumpKind::Euler => "Euler"@,
    }
}

fn jump_kind_name_str(k: JumpKind) -> (r: &'static str)
    ensures
        r@ == jump_kind_name(k),
{
    proof {
        reveal_strlit("Axel");
        reveal_strlit("Lutz");
        reveal_strlit("Flip");
        reveal_strlit("Loop");
        reveal_strlit("Salchow");
        reveal_strlit("ToeLoop");
        reveal_strlit("Euler");
    }
    match k {
        JumpKind::Axel => "Axel",
        JumpKind::Lutz => "Lutz",
        JumpKind::Flip => "Flip",
        JumpKind::Loop => "Loop",
        JumpKind::Salchow => "Salchow",
        JumpKind::ToeLoop => "ToeLoop",
        JumpKind::Euler => "Euler",
    }
}

/// The message for a jump entered on the wrong edge.
pub open spec fn entry_edge_text(k: JumpKind, found: Edge) -> Seq<char> {
    "invalid entry edge for "@ + jump_kind_name(k) + ": expected "@ + edge_name(jump_entry_edge(k))
        + ", found "@ + edge_name(found)
}

/// The revolutions a spin of a level needs at least.
pub open spec fn required_revolutions(l: Level) -> i64 {
    match l {
        Level::L4 => 8,
        Level::L3 => 6,
        Level::L2 => 4,
        _ => 2,
    }
}

/// The message for a spin with too few revolutions for its level.
pub open spec fn revolutions_text(l: Level, required: i64, found: i64) -> Seq<char> {
    "insufficient revolutions for level "@ + crate::syntax::format::level_word(l) + ": requires "@
        + signed_decimal(required as int) + ", specified "@ + signed_decimal(found as int)
}

/// The errors a jump and its combination add: one for each jump, in order,
/// whose given entry edge is not the one its kind takes off from.
pub open spec fn jump_errors(j: JumpElement) -> Seq<Seq<char>>
    decreases j, 0nat,
{
    (match j.entry_edge {
        Some(e) => if e != jump_entry_edge(j.kind) { seq![entry_edge_text(j.kind, e)] } else { Seq::empty() },
        None => Seq::empty(),
    }) + jumps_errors(j.combination@)
}

/// The errors of the jumps of a combination, in order.
pub open spec fn jumps_errors(s: Seq<JumpElement>) -> Seq<Seq<char>>
    decreases s, 1nat,
{
    if s.len() == 0 {
        Seq::empty()
    } else {
        jumps_errors(s.subrange(0, s.len() - 1)) + jump_errors(s[s.len() - 1])
    }
}

/// The messages of a list of errors.
pub open spec fn messages(es: Seq<TypeError>) -> Seq<Seq<char>> {
    es.map_values(|e: TypeError| e.message@)
}

/// The errors from index `n` on are at `span` and carry no types.
pub open spec fn plain_from(es: Seq<TypeError>, n: int, span: Span) -> bool {
    forall|j: int| n <= j < es.len() ==> (#[trigger] es[j]).span == span && es[j].expected is None && es[j].found is None
}

/// The errors a spin adds: one when its level needs more revolutions than
/// the minimum it gives.
pub open spec fn spin_errors(s: SpinElement) -> Seq<Seq<char>> {
    match (s.level, s.min_revs) {
        (Some(l), Some(n)) => if n < required_revolutions(l) {
            seq![revolutions_text(l, required_revolutions(l), n)]
        } else {
            Seq::empty()
        },
        _ => Seq::empty(),
    }
}

/// The rule errors an element draws: those of a jump or of a spin.
pub open spec fn element_errors(e: Element) -> Seq<Seq<char>> {
    match e.kind {
        ElementKind::Jump(j) => jump_errors(j),
        ElementKind::Spin(s) => spin_errors(s),
        _ => Seq::empty(),
    }
}

/// The rule errors of a list of elements, in order.
pub open spec fn elements_errors(es: Seq<Element>) -> Seq<Seq<char>>
    decreases es.len(),
{
    if es.len() == 0 {
        Seq::empty()
    } else {
        elements_errors(es.drop_last()) + element_errors(es.last())
    }
}

/// The rule errors of the elements of a list of sequences, in order.
pub open spec fn sequences_errors(ss: Seq<Sequence>) -> Seq<Seq<char>>
    decreases ss.len(),
{
    if ss.len() == 0 {
        Seq::empty()
    } else {
        sequences_errors(ss.drop_last()) + elements_errors(ss.last().elements@)
    }
}

/// The element's timing and position, where it has them, are made of
/// literals.
pub open spec fn literal_element(e: Element) -> bool {
    &&& (e.timing matches Some(t) ==> timing_literal(t))
    &&& (e.position matches Some(p) ==> position_literal(p))
}

/// Every element of the segment has a literal timing and position, if any.
pub open spec fn literal_segment(seg: Segment) -> bool {
    forall|i: int, j: int| 0 <= i < seg.sequences@.len() && 0 <= j < seg.sequences@[i].elements@.len()
        ==> literal_element(#[trigger] seg.sequences@[i].elements@[j])
}

/// The lookup of names in the scopes `scopes`.
pub open spec fn lookup_fn(scopes: Seq<Map<Seq<char>, SchemeV>>) -> spec_fn(Seq<char>) -> Option<SchemeV> {
    |x: Seq<char>| lookup_scopes(scopes, x)
}

/// What checking the name `x` against the type `want` decides: an error
/// where the name is bound nowhere; where it is bound to a monomorphic type
/// without variables, nothing or a mismatch.
pub open spec fn name_against(look: spec_fn(Seq<char>) -> Option<SchemeV>, x: Seq<char>, want: TypeV) -> Option<Result<(), Seq<char>>> {
    match look(x) {
        None => Some(Err("undefined variable: "@ + x)),
        Some(s) => if s.0.len() == 0 && ground(s.1) {
            match unify_outcome(s.1, want) {
                Some(Ok(())) => Some(Ok(())),
                Some(Err(m)) => Some(Err(m)),
                None => None,
            }
        } else {
            None
        },
    }
}

/// What checking a time expression decides: its names, in order, must be
/// times.
pub open spec fn time_outcome(t: TimeExpr, look: spec_fn(Seq<char>) -> Option<SchemeV>) -> Option<Result<(), Seq<char>>>
    decreases t,
{
    match t {
        TimeExpr::Var(id) => name_against(look, id.node@, TypeV::Time),
        TimeExpr::BinOp(l, _, r) => match time_outcome(*l, look) {
            Some(Ok(())) => time_outcome(*r, look),
            other => other,
        },
        _ => Some(Ok(())),
    }
}

/// What checking a position expression decides: its name, if any, must be
/// a position.
pub open spec fn position_outcome(p: PositionExpr, look: spec_fn(Seq<char>) -> Option<SchemeV>) -> Option<Result<(), Seq<char>>>
    decreases p,
{
    match p {
        PositionExpr::Var(id) => name_against(look, id.node@, TypeV::Position),
        PositionExpr::Relative(b, _, _) => position_outcome(*b, look),
        _ => Some(Ok(())),
    }
}

/// What checking a timing decides.
pub open spec fn timing_outcome(t: Timing, look: spec_fn(Seq<char>) -> Option<SchemeV>) -> Option<Result<(), Seq<char>>> {
    match t {
        Timing::At(x) => time_outcome(x, look),
        Timing::Range(a, b) => match time_outcome(a, look) {
            Some(Ok(())) => time_outcome(b, look),
            other => other,
        },
        Timing::Duration(x) => time_outcome(x, look),
        Timing::Beat(_) => Some(Ok(())),
        Timing::After(x) => time_outcome(x, look),
    }
}

/// What checking an element's timing, then its position, decides.
pub open spec fn element_outcome(e: Element, look: spec_fn(Seq<char>) -> Option<SchemeV>) -> Option<Result<(), Seq<char>>> {
    let pos = match e.position {
        Some(p) => position_outcome(p, look),
        None => Some(Ok(())),
    };
    match e.timing {
        Some(t) => match timing_outcome(t, look) {
            Some(Ok(())) => pos,
            other => other,
        },
        None => pos,
    }
}

/// What checking the elements of a list in turn decides: the rule errors
/// found on the way, and the message of the error that stops it, if any.
pub open spec fn elements_outcome(es: Seq<Element>, look: spec_fn(Seq<char>) -> Option<SchemeV>)
    -> Option<(Seq<Seq<char>>, Option<Seq<char>>)>
    decreases es.len(),
{
    if es.len() == 0 {
        Some((Seq::empty(), None))
    } else {
        match elements_outcome(es.drop_last(), look) {
            Some((ms, None)) => match element_outcome(es.last(), look) {
                Some(Ok(())) => Some((ms + element_errors(es.last()), None)),
                Some(Err(m)) => Some((ms + element_errors(es.last()), Some(m))),
                None => None,
            },
            other => other,
        }
    }
}

/// A decided outcome of a list of elements is decided for each prefix.
proof fn lemma_elements_outcome_prefix(es: Seq<Element>, look: spec_fn(Seq<char>) -> Option<SchemeV>, i: int)
    requires
        0 <= i <= es.len(),
        elements_outcome(es, look) is Some,
    ensures
        elements_outcome(es.take(i), look) is Some,
    decreases es.len() - i,
{
    if i == es.len() {
        assert(es.take(i) =~= es);
    } else {
        lemma_elements_outcome_prefix(es, look, i + 1);
        assert(es.take(i + 1).drop_last() =~= es.take(i));
        if elements_outcome(es.take(i + 1).drop_last(), look) is None {
            assert(elements_outcome(es.take(i + 1), look) is None);
        }
    }
}

/// Once a prefix of a list of elements stops with an error, the list's
/// outcome is that of the prefix.
proof fn lemma_elements_outcome_stops(es: Seq<Element>, look: spec_fn(Seq<char>) -> Option<SchemeV>, i: int)
    requires
        0 <= i <= es.len(),
        elements_outcome(es.take(i), look) matches Some((_, err)) && err is Some,
    ensures
        elements_outcome(es, look) == elements_outcome(es.take(i), look),
    decreases es.len() - i,
{
    if i == es.len() {
        assert(es.take(i) =~= es);
    } else {
        assert(es.take(i + 1).drop_last() =~= es.take(i));
        lemma_elements_outcome_stops(es, look, i + 1);
    }
}

/// What checking the sequences of a list in turn decides, as for elements.
pub open spec fn sequences_outcome(ss: Seq<Sequence>, look: spec_fn(Seq<char>) -> Option<SchemeV>)
    -> Option<(Seq<Seq<char>>, Option<Seq<char>>)>
    decreases ss.len(),
{
    if ss.len() == 0 {
        Some((Seq::empty(), None))
    } else {
        match sequences_outcome(ss.drop_last(), look) {
            Some((ms, None)) => match elements_outcome(ss.last().elements@, look) {
                Some((ms2, err)) => Some((ms + ms2, err)),
                None => None,
            },
            other => other,
        }
    }
}

/// A decided outcome of a list of sequences is decided for each prefix.
proof fn lemma_sequences_outcome_prefix(ss: Seq<Sequence>, look: spec_fn(Seq<char>) -> Option<SchemeV>, i: int)
    requires
        0 <= i <= ss.len(),
        sequences_outcome(ss, look) is Some,
    ensures
        sequences_outcome(ss.take(i), look) is Some,
    decreases ss.len() - i,
{
    if i == ss.len() {
        assert(ss.take(i) =~= ss);
    } else {
        lemma_sequences_outcome_prefix(ss, look, i + 1);
        assert(ss.take(i + 1).drop_last() =~= ss.take(i));
    }
}

/// Once a prefix of a list of sequences stops with an error, the list's
/// outcome is that of the prefix.
proof fn lemma_sequences_outcome_stops(ss: Seq<Sequence>, look: spec_fn(Seq<char>) -> Option<SchemeV>, i: int)
    requires
        0 <= i <= ss.len(),
        sequences_outcome(ss.take(i), look) matches Some((_, err)) && err is Some,
    ensures
        sequences_outcome(ss, look) == sequences_outcome(ss.take(i), look),
    decreases ss.len() - i,
{
    if i == ss.len() {
        assert(ss.take(i) =~= ss);
    } else {
        assert(ss.take(i + 1).drop_last() =~= ss.take(i));
        lemma_sequences_outcome_stops(ss, look, i + 1);
    }
}

/// The messages that checking the segments of a list reports, where they
/// are decided: for each segment in turn, the rule errors found, then the
/// message of the error that stops the segment, if any.
pub open spec fn segments_outcome(segs: Seq<Segment>, look: spec_fn(Seq<char>) -> Option<SchemeV>) -> Option<Seq<Seq<char>>>
    decreases segs.len(),
{
    if segs.len() == 0 {
        Some(Seq::empty())
    } else {
        match (segments_outcome(segs.drop_last(), look), sequences_outcome(segs.last().sequences@, look)) {
            (Some(ms), Some((ms2, None))) => Some(ms + ms2),
            (Some(ms), Some((ms2, Some(m)))) => Some((ms + ms2).push(m)),
            _ => None,
        }
    }
}

/// A decided outcome of a list of segments is decided for each prefix.
proof fn lemma_segments_outcome_prefix(segs: Seq<Segment>, look: spec_fn(Seq<char>) -> Option<SchemeV>, i: int)
    requires
        0 <= i <= segs.len(),
        segments_outcome(segs, look) is Some,
    ensures
        segments_outcome(segs.take(i), look) is Some,
    decreases segs.len() - i,
{
    if i == segs.len() {
        assert(segs.take(i) =~= segs);
    } else {
        lemma_segments_outcome_prefix(segs, look, i + 1);
        assert(segs.take(i + 1).drop_last() =~= segs.take(i));
    }
}

/// What checking a function definition in the state `st` decides, where
/// its body's inference is decided: the state afterwards and the message of
/// its error, if it fails. Its parameters are bound in a scope of their own,
/// which a failing definition leaves in place; one that checks is bound,
/// with its type generalized, in the scopes around it.
pub open spec fn fn_outcome(f: FnDef, defs: Map<Seq<char>, TypeDefV>, st: InferState) -> Option<(InferState, Option<Seq<char>>)> {
    match params_bind(f.params@, defs, st.0.push(Map::empty()), st.2) {
        Err((msg, sc1, c1)) => Some(((sc1, st.1, c1), Some(msg))),
        Ok((inner, c1, ts)) => match infer_outcome(f.body, defs, (inner, st.1, c1)) {
            None => None,
            Some((Err(msg), st3)) => Some((st3, Some(msg))),
            Some((Ok(bt), st3)) => {
                let checked = match f.return_ty {
                    None => Some((Ok(()), st3.1)),
                    Some(te) => match resolve(te, defs) {
                        Err((n, _)) => Some((Err("unknown type: "@ + n), st3.1)),
                        Ok(rt) => unify_spec(st3.1, rt, bt),
                    },
                };
                match checked {
                    Some((Ok(()), m4)) => {
                        let t = TypeV::Fn(ts, Box::new(bt));
                        let sch = (without(add_new(Seq::empty(), tv_vars(t)), env_vars(st.0)), t);
                        Some(((define_in(st.0, f.name.node@, sch), m4, st3.2), None))
                    },
                    Some((Err(msg), m4)) => Some(((st3.0, m4, st3.2), Some(msg))),
                    None => None,
                }
            },
        },
    }
}

/// What checking the function definitions of a list in turn decides: the
/// state afterwards and the messages of the failing ones, in order.
pub open spec fn fns_outcome(fs: Seq<FnDef>, defs: Map<Seq<char>, TypeDefV>, st: InferState)
    -> Option<(InferState, Seq<Seq<char>>)>
    decreases fs.len(),
{
    if fs.len() == 0 {
        Some((st, Seq::empty()))
    } else {
        match fns_outcome(fs.drop_last(), defs, st) {
            Some((st1, ms)) => match fn_outcome(fs.last(), defs, st1) {
                Some((st2, err)) => Some((st2, match err {
                    Some(m) => ms.push(m),
                    None => ms,
                })),
                None => None,
            },
            None => None,
        }
    }
}

/// The messages of the errors that checking a program from the state `st`
/// reports, where they are decided: those of its failing function
/// definitions, in order, then those of its segments.
pub open spec fn program_outcome(p: Program, defs: Map<Seq<char>, TypeDefV>, st: InferState) -> Option<Seq<Seq<char>>> {
    match fns_outcome(p.functions@, defs, st) {
        Some((st1, ms)) => match segments_outcome(p.segments@, lookup_fn(st1.0)) {
            Some(ms2) => Some(ms + ms2),
            None => None,
        },
        None => None,
    }
}

/// The state a checker starts in: the built-in bindings, no substitution,
/// and the counter after the three variables the built-in operators take.
pub open spec fn initial_state() -> InferState {
    (seq![builtins(0)], Map::empty(), counter_after(0, 3))
}

/// `d` reports the type error `e`: an error with its message, the code of
/// a mismatch where it names both types and of an undefined name otherwise,
/// and one primary label "here" at its span.
pub open spec fn diagnoses(d: Diagnostic, e: TypeError) -> bool {
    &&& d.severity == crate::base::diagnostics::Severity::Error
    &&& d.message@ == e.message@
    &&& d.code matches Some(c) && c.0@ == (if e.expected is Some && e.found is Some { "E0100"@ } else { "E0101"@ })
    &&& d.labels@.len() == 1
    &&& d.labels@[0].span == e.span
    &&& d.labels@[0].message@ == "here"@
    &&& d.labels@[0].primary
}

/// The messages of a list of diagnostics.
pub open spec fn diag_messages(ds: Seq<Diagnostic>) -> Seq<Seq<char>> {
    ds.map_values(|d: Diagnostic| d.message@)
}

/// What type checking reports of a program, as the list of its diagnostics
/// (none when it accepts the program): it accepts no program that breaks a
/// jump or spin rule, and where the outcome is decided (starting from the
/// initial state, with no type definitions) its messages are exactly those
/// of the failing function definitions, then those of the segments; where
/// only the first function definitions are decided, their messages come
/// first.
pub open spec fn check_verdict(p: Program, ds: Seq<Diagnostic>) -> bool {
    &&& ds.len() == 0 ==> forall|k: int| 0 <= k < p.segments@.len()
        ==> #[trigger] sequences_errors(p.segments@[k].sequences@).len() == 0
    &&& program_outcome(p, Map::empty(), initial_state()) matches Some(ms) ==> diag_messages(ds) == ms
    &&& forall|k: int| 0 <= k <= p.functions@.len() ==> (
        #[trigger] fns_outcome(p.functions@.take(k), Map::empty(), initial_state()) matches Some((_, ms))
        ==> ms.is_prefix_of(diag_messages(ds)))
}

/// A prefix of a prefix is a prefix.
proof fn lemma_prefix_trans(a: Seq<Seq<char>>, b: Seq<Seq<char>>, c: Seq<Seq<char>>)
    requires
        a.is_prefix_of(b),
        b.is_prefix_of(c),
    ensures
        a.is_prefix_of(c),
{
    assert forall|j: int| 0 <= j < a.len() implies a[j] == c[j] by {
        assert(a[j] == b[j]);
    }
}

/// The messages of a prefix of a list of errors are a prefix of its
/// messages.
proof fn lemma_messages_prefix(a: Seq<TypeError>, b: Seq<TypeError>)
    requires
        a.is_prefix_of(b),
    ensures
        messages(a).is_prefix_of(messages(b)),
{
    assert forall|j: int| 0 <= j < a.len() implies messages(a)[j] == messages(b)[j] by {
        assert(a[j] == b[j]);
    }
}

/// A decided outcome of a list of definitions is decided for each prefix.
proof fn lemma_fns_outcome_prefix(fs: Seq<FnDef>, defs: Map<Seq<char>, TypeDefV>, st: InferState, i: int)
    requires
        0 <= i <= fs.len(),
        fns_outcome(fs, defs, st) is Some,
    ensures
        fns_outcome(fs.take(i), defs, st) is Some,
    decreases fs.len() - i,
{
    if i == fs.len() {
        assert(fs.take(i) =~= fs);
    } else {
        lemma_fns_outcome_prefix(fs, defs, st, i + 1);
        assert(fs.take(i + 1).drop_last() =~= fs.take(i));
    }
}

/// The type checker.
pub struct TypeChecker {
    /// Type environment.
    env: TypeEnv,
    /// Substitution, keyed by the number of the variable it binds.
    subst: HashMap<u32, Type>,
    /// The variables the substitution binds, in the order they were bound.
    bound: Vec<u32>,
    /// Collected errors.
    errors: Vec<TypeError>,
    /// Current file being checked.
    file_id: FileId,
    /// The source of fresh type variables.
    counter: u32,
}

/// The type of a literal expression, if it is one.
pub open spec fn literal_type(e: Expr) -> Option<TypeV> {
    match e {
        Expr::Int(_) => Some(TypeV::Int),
        Expr::Float(_) => Some(TypeV::Float),
        Expr::String(_) => Some(TypeV::Str),
        Expr::Bool(_) => Some(TypeV::Bool),
        _ => None,
    }
}

/// The state type inference works in: the scopes, the substitution and the
/// counter that fresh variables are drawn from.
pub type InferState = (Seq<Map<Seq<char>, SchemeV>>, Map<u32, TypeV>, u32);

/// The outcome of a step of inference: a type or the message of the error
/// that stops it, and the state afterwards; `None` where this account does
/// not decide it.
pub type InferOutcome = Option<(Result<TypeV, Seq<char>>, InferState)>;

/// A unification outcome turned into an inference outcome of type `t`.
pub open spec fn then_type(u: Option<(Result<(), Seq<char>>, Map<u32, TypeV>)>, st: InferState, t: TypeV) -> InferOutcome {
    match u {
        Some((Ok(()), m)) => Some((Ok(t), (st.0, m, st.2))),
        Some((Err(msg), m)) => Some((Err(msg), (st.0, m, st.2))),
        None => None,
    }
}

/// A binary operator on operands of the types `a` and `b`: the logical ones
/// unify each side with `Bool` in turn, the others the two sides; arithmetic
/// keeps the left type, the rest give `Bool`.
pub open spec fn binop_result(op: BinOp, a: TypeV, b: TypeV, st: InferState) -> InferOutcome {
    match op {
        BinOp::And | BinOp::Or => match unify_spec(st.1, a, TypeV::Bool) {
            Some((Ok(()), m1)) => then_type(unify_spec(m1, b, TypeV::Bool), st, TypeV::Bool),
            Some((Err(msg), m1)) => Some((Err(msg), (st.0, m1, st.2))),
            None => None,
        },
        BinOp::Add | BinOp::Sub | BinOp::Mul | BinOp::Div | BinOp::Mod => then_type(unify_spec(st.1, a, b), st, a),
        _ => then_type(unify_spec(st.1, a, b), st, TypeV::Bool),
    }
}

/// Unifying the types of two lists pairwise, in order, until one fails.
pub open spec fn unify_pairs(m: Map<u32, TypeV>, ps: Seq<TypeV>, ts: Seq<TypeV>) -> Option<(Result<(), Seq<char>>, Map<u32, TypeV>)>
    decreases ps.len(),
{
    if ps.len() == 0 || ts.len() == 0 {
        Some((Ok(()), m))
    } else {
        match unify_spec(m, ps[0], ts[0]) {
            Some((Ok(()), m1)) => unify_pairs(m1, ps.drop_first(), ts.drop_first()),
            other => other,
        }
    }
}

/// Calling a value of the type `ft` on arguments of the types `ts`: a
/// function of as many parameters unifies each parameter with its argument
/// and gives its result; a variable is unified with a function type whose
/// result is a fresh variable; anything else cannot be called.
pub open spec fn call_result(ft: TypeV, ts: Seq<TypeV>, st: InferState) -> InferOutcome {
    match ft {
        TypeV::Fn(ps, ret) => if ps.len() != ts.len() {
            Some((Err("function expects "@ + decimal(ps.len()) + " arguments, got "@ + decimal(ts.len())), st))
        } else {
            then_type(unify_pairs(st.1, ps, ts), st, *ret)
        },
        TypeV::Var(_) => {
            let r = TypeV::Var(TypeVar(st.2));
            let st1 = (st.0, st.1, counter_after(st.2, 1));
            then_type(unify_spec(st1.1, ft, TypeV::Fn(ts, Box::new(r))), st1, r)
        },
        _ => Some((Err("cannot call non-function type: "@ + type_text(ft)), (st.0, st.1, counter_after(st.2, 1)))),
    }
}

/// Binding parameters in turn in the scopes `sc`: an annotated one to the
/// type its annotation resolves to (an unknown type stops it), another to a
/// fresh variable. The scopes, counter and parameter types afterwards, or
/// the message, scopes and counter where it stops.
pub open spec fn params_bind(ps: Seq<Param>, defs: Map<Seq<char>, TypeDefV>, sc: Seq<Map<Seq<char>, SchemeV>>, c: u32)
    -> Result<(Seq<Map<Seq<char>, SchemeV>>, u32, Seq<TypeV>), (Seq<char>, Seq<Map<Seq<char>, SchemeV>>, u32)>
    decreases ps.len(),
{
    if ps.len() == 0 {
        Ok((sc, c, Seq::empty()))
    } else {
        match params_bind(ps.drop_last(), defs, sc, c) {
            Ok((sc1, c1, ts)) => {
                let p = ps.last();
                match p.ty {
                    Some(te) => match resolve(te, defs) {
                        Ok(t) => Ok((define_in(sc1, p.name.node@, (Seq::empty(), t)), c1, ts.push(t))),
                        Err((n, _)) => Err(("unknown type: "@ + n, sc1, c1)),
                    },
                    None => {
                        let t = TypeV::Var(TypeVar(c1));
                        Ok((define_in(sc1, p.name.node@, (Seq::empty(), t)), counter_after(c1, 1), ts.push(t)))
                    },
                }
            },
            Err(x) => Err(x),
        }
    }
}

/// Accessing the field `f` of a value of the type `base`: a record's first
/// field of that name, a fresh variable for a variable, an error otherwise.
pub open spec fn field_result(base: TypeV, f: Seq<char>, st: InferState) -> InferOutcome {
    match base {
        TypeV::Record(fs) => match first_field(fs, f) {
            Some(k) => Some((Ok(fs[k].1), st)),
            None => Some((Err("record has no field '"@ + f + "'"@), st)),
        },
        TypeV::Var(_) => Some((Ok(TypeV::Var(TypeVar(st.2))), (st.0, st.1, counter_after(st.2, 1)))),
        _ => Some((Err("cannot access field '"@ + f + "' on type "@ + type_text(base)), st)),
    }
}

/// Indexing into a value of the type `base`: an array's item type, a
/// tuple's first type (a fresh variable for the empty tuple), a fresh
/// variable for a variable, an error otherwise.
pub open spec fn index_result(base: TypeV, st: InferState) -> InferOutcome {
    let fresh = Some((Ok(TypeV::Var(TypeVar(st.2))), (st.0, st.1, counter_after(st.2, 1))));
    match base {
        TypeV::Array(e) => Some((Ok(*e), st)),
        TypeV::Tuple(es) => if es.len() == 0 { fresh } else { Some((Ok(es[0]), st)) },
        TypeV::Var(_) => fresh,
        _ => Some((Err("cannot index into type "@ + type_text(base)), st)),
    }
}

/// The items of a call's arguments, a tuple or an array.
pub open spec fn items_of(e: Expr) -> Seq<Spanned<Expr>> {
    match e {
        Expr::Call(_, args) => args@,
        Expr::Tuple(es) => es@,
        Expr::Array(es) => es@,
        _ => Seq::empty(),
    }
}

/// What inferring an expression in the state `st` gives, where this account
/// decides it: its type or the message of the error that stops it, and the
/// state afterwards. A successful inference leaves the scopes as it found
/// them. Inline elements, time and position expressions naming
/// other than monomorphic types without variables, and statements other
/// than expressions are not decided here.
pub open spec fn infer_outcome(e: Expr, defs: Map<Seq<char>, TypeDefV>, st: InferState) -> InferOutcome
    decreases e, 2nat, 0int,
{
    match e {
        Expr::Var(id) => match lookup_scopes(st.0, id.node@) {
            None => Some((Err("undefined variable: "@ + id.node@), st)),
            Some(s) => Some((Ok(tv_subst(s.1, instantiation(s.0, st.2))), (st.0, st.1, counter_after(st.2, s.0.len())))),
        },
        Expr::BinOp(l, op, r) => match infer_outcome(l.node, defs, st) {
            Some((Ok(a), st1)) => match infer_outcome(r.node, defs, st1) {
                Some((Ok(b), st2)) => binop_result(op, a, b, st2),
                other => other,
            },
            other => other,
        },
        Expr::UnaryOp(op, x) => match infer_outcome(x.node, defs, st) {
            Some((Ok(a), st1)) => match op {
                UnaryOp::Neg => Some((Ok(a), st1)),
                UnaryOp::Not => then_type(unify_spec(st1.1, a, TypeV::Bool), st1, TypeV::Bool),
            },
            other => other,
        },
        Expr::If(c, a, b) => match infer_outcome(c.node, defs, st) {
            Some((Ok(ct), st1)) => match unify_spec(st1.1, ct, TypeV::Bool) {
                Some((Ok(()), m2)) => match infer_outcome(a.node, defs, (st1.0, m2, st1.2)) {
                    Some((Ok(at), st3)) => match b {
                        None => Some((Ok(TypeV::Unit), st3)),
                        Some(bb) => match infer_outcome(bb.node, defs, st3) {
                            Some((Ok(bt), st4)) => then_type(unify_spec(st4.1, at, bt), st4, at),
                            other => other,
                        },
                    },
                    other => other,
                },
                Some((Err(msg), m2)) => Some((Err(msg), (st1.0, m2, st1.2))),
                None => None,
            },
            other => other,
        },
        Expr::Let(n, ann, v, b) => match infer_outcome(v.node, defs, st) {
            Some((Ok(vt), st1)) => {
                let checked = match ann {
                    None => Some((Ok(()), st1.1)),
                    Some(te) => match resolve(te, defs) {
                        Ok(at) => unify_spec(st1.1, vt, at),
                        Err((nm, _)) => Some((Err("unknown type: "@ + nm), st1.1)),
                    },
                };
                match checked {
                    Some((Ok(()), m2)) => {
                        let pushed = st1.0.push(Map::empty());
                        let inner = define_in(pushed, n.node@, (without(add_new(Seq::empty(), tv_vars(vt)), env_vars(pushed)), vt));
                        match infer_outcome(b.node, defs, (inner, m2, st1.2)) {
                            Some((Ok(bt), st3)) => Some((Ok(bt), (st.0, st3.1, st3.2))),
                            other => other,
                        }
                    },
                    Some((Err(msg), m2)) => Some((Err(msg), (st1.0, m2, st1.2))),
                    None => None,
                }
            },
            other => other,
        },
        Expr::Lambda(ps, body) => match params_bind(ps@, defs, st.0.push(Map::empty()), st.2) {
            Ok((inner, c1, ts)) => match infer_outcome(body.node, defs, (inner, st.1, c1)) {
                Some((Ok(bt), st3)) => Some((Ok(TypeV::Fn(ts, Box::new(bt))), (st.0, st3.1, st3.2))),
                other => other,
            },
            Err((msg, sc1, c1)) => Some((Err(msg), (sc1, st.1, c1))),
        },
        Expr::Call(f, _) => match infer_outcome(f.node, defs, st) {
            Some((Ok(ft), st1)) => match list_outcome(e, 0, defs, st1) {
                Some((Ok(ts), st2)) => call_result(ft, ts, st2),
                Some((Err(msg), st2)) => Some((Err(msg), st2)),
                None => None,
            },
            other => other,
        },
        Expr::Tuple(_) => match list_outcome(e, 0, defs, st) {
            Some((Ok(ts), st2)) => Some((Ok(TypeV::Tuple(ts)), st2)),
            Some((Err(msg), st2)) => Some((Err(msg), st2)),
            None => None,
        },
        Expr::Array(es) => if es@.len() == 0 {
            Some((Ok(TypeV::Array(Box::new(TypeV::Var(TypeVar(st.2))))), (st.0, st.1, counter_after(st.2, 1))))
        } else {
            match infer_outcome(es@[0].node, defs, st) {
                Some((Ok(t0), st1)) => match array_outcome(e, 1, t0, defs, st1) {
                    Some((Ok(_), st2)) => Some((Ok(TypeV::Array(Box::new(t0))), st2)),
                    other => other,
                },
                other => other,
            }
        },
        Expr::Block(ss) => match block_outcome(e, 0, TypeV::Unit, defs, (st.0.push(Map::empty()), st.1, st.2)) {
            Some((Ok(t), st2)) => Some((Ok(t), (st.0, st2.1, st2.2))),
            other => other,
        },
        Expr::Match(_, _) => Some((Ok(TypeV::Var(TypeVar(st.2))), (st.0, st.1, counter_after(st.2, 1)))),
        Expr::Record(_) => match record_outcome(e, 0, defs, st) {
            Some((Ok(fs), st2)) => Some((Ok(TypeV::Record(fs)), st2)),
            Some((Err(msg), st2)) => Some((Err(msg), st2)),
            None => None,
        },
        Expr::Field(b, f) => match infer_outcome(b.node, defs, st) {
            Some((Ok(bt), st1)) => field_result(bt, f.node@, st1),
            other => other,
        },
        Expr::Index(b, x) => match infer_outcome(b.node, defs, st) {
            Some((Ok(bt), st1)) => match infer_outcome(x.node, defs, st1) {
                Some((Ok(_), st2)) => index_result(bt, st2),
                other => other,
            },
            other => other,
        },
        Expr::Time(t) => match time_outcome(t, lookup_fn(st.0)) {
            Some(Ok(())) => Some((Ok(TypeV::Time), st)),
            Some(Err(m)) => Some((Err(m), st)),
            None => None,
        },
        Expr::Position(p) => match position_outcome(p, lookup_fn(st.0)) {
            Some(Ok(())) => Some((Ok(TypeV::Position), st)),
            Some(Err(m)) => Some((Err(m), st)),
            None => None,
        },
        _ => match literal_type(e) {
            Some(t) => Some((Ok(t), st)),
            None => None,
        },
    }
}

/// Inferring the items of a call, tuple or array from the `i`-th on, in
/// turn: their types, or the message of the first error.
pub open spec fn list_outcome(e: Expr, i: int, defs: Map<Seq<char>, TypeDefV>, st: InferState)
    -> Option<(Result<Seq<TypeV>, Seq<char>>, InferState)>
    decreases e, 1nat, items_of(e).len() - i,
{
    if i < 0 || i >= items_of(e).len() {
        Some((Ok(Seq::empty()), st))
    } else {
        match infer_outcome(items_of(e)[i].node, defs, st) {
            Some((Ok(t), st1)) => match list_outcome(e, i + 1, defs, st1) {
                Some((Ok(ts), st2)) => Some((Ok(seq![t] + ts), st2)),
                Some((Err(msg), st2)) => Some((Err(msg), st2)),
                None => None,
            },
            Some((Err(msg), st1)) => Some((Err(msg), st1)),
            None => None,
        }
    }
}

/// Inferring the fields of a record from the `i`-th on, in turn: their
/// names and types, or the message of the first error.
pub open spec fn record_outcome(e: Expr, i: int, defs: Map<Seq<char>, TypeDefV>, st: InferState)
    -> Option<(Result<Seq<(Seq<char>, TypeV)>, Seq<char>>, InferState)>
    decreases e, 1nat, (match e { Expr::Record(fs) => fs@.len() as int, _ => 0int }) - i,
{
    match e {
        Expr::Record(fs) => if i < 0 || i >= fs@.len() {
            Some((Ok(Seq::empty()), st))
        } else {
            match infer_outcome(fs@[i].1.node, defs, st) {
                Some((Ok(t), st1)) => match record_outcome(e, i + 1, defs, st1) {
                    Some((Ok(ts), st2)) => Some((Ok(seq![(fs@[i].0.node@, t)] + ts), st2)),
                    Some((Err(msg), st2)) => Some((Err(msg), st2)),
                    None => None,
                },
                Some((Err(msg), st1)) => Some((Err(msg), st1)),
                None => None,
            }
        },
        _ => None,
    }
}

/// Inferring the items of an array from the `i`-th on, each unified with
/// the first item's type `t0`.
pub open spec fn array_outcome(e: Expr, i: int, t0: TypeV, defs: Map<Seq<char>, TypeDefV>, st: InferState) -> InferOutcome
    decreases e, 1nat, items_of(e).len() - i,
{
    if i < 0 || i >= items_of(e).len() {
        Some((Ok(t0), st))
    } else {
        match infer_outcome(items_of(e)[i].node, defs, st) {
            Some((Ok(t), st1)) => match unify_spec(st1.1, t0, t) {
                Some((Ok(()), m2)) => array_outcome(e, i + 1, t0, defs, (st1.0, m2, st1.2)),
                Some((Err(msg), m2)) => Some((Err(msg), (st1.0, m2, st1.2))),
                None => None,
            },
            other => other,
        }
    }
}

/// Checking the statements of a block from the `i`-th on, each an
/// expression: the type of the last one (`last` where none is left).
pub open spec fn block_outcome(e: Expr, i: int, last: TypeV, defs: Map<Seq<char>, TypeDefV>, st: InferState) -> InferOutcome
    decreases e, 1nat, (match e { Expr::Block(ss) => ss@.len() as int, _ => 0int }) - i,
{
    match e {
        Expr::Block(ss) => if i < 0 || i >= ss@.len() {
            Some((Ok(last), st))
        } else {
            match ss@[i].node {
                Stmt::Expr(x) => match infer_outcome(x, defs, st) {
                    Some((Ok(t), st1)) => block_outcome(e, i + 1, t, defs, st1),
                    other => other,
                },
                _ => None,
            }
        },
        _ => None,
    }
}

/// An outcome of inferring the fields of a record, with fields `ps` put
/// first.
pub open spec fn prepend_fields(ps: Seq<(Seq<char>, TypeV)>, o: Option<(Result<Seq<(Seq<char>, TypeV)>, Seq<char>>, InferState)>)
    -> Option<(Result<Seq<(Seq<char>, TypeV)>, Seq<char>>, InferState)>
{
    match o {
        Some((Ok(ts), st)) => Some((Ok(ps + ts), st)),
        other => other,
    }
}

/// An outcome of inferring a list of items, with types `ps` put first.
pub open spec fn prepend_types(ps: Seq<TypeV>, o: Option<(Result<Seq<TypeV>, Seq<char>>, InferState)>)
    -> Option<(Result<Seq<TypeV>, Seq<char>>, InferState)>
{
    match o {
        Some((Ok(ts), st)) => Some((Ok(ps + ts), st)),
        other => other,
    }
}

/// The values of a list of types with one more at the end.
proof fn lemma_tviews_push(s: Seq<Type>, t: Type)
    ensures
        tviews(s.push(t)) == tviews(s).push(t@),
{
    lemma_tviews_index(s);
    lemma_tviews_index(s.push(t));
    assert(tviews(s.push(t)) =~= tviews(s).push(t@));
}

/// Binding parameters changes only the innermost scope.
proof fn lemma_params_bind_frame(ps: Seq<Param>, defs: Map<Seq<char>, TypeDefV>, sc: Seq<Map<Seq<char>, SchemeV>>, c: u32)
    requires
        sc.len() >= 1,
    ensures
        params_bind(ps, defs, sc, c) matches Ok((sc2, _, ts)) ==> (sc2.len() == sc.len()
            && sc2.drop_last() == sc.drop_last() && ts.len() == ps.len()),
    decreases ps.len(),
{
    if ps.len() > 0 {
        lemma_params_bind_frame(ps.drop_last(), defs, sc, c);
        match params_bind(ps.drop_last(), defs, sc, c) {
            Ok((sc1, c1, ts)) => {
                let p = ps.last();
                let t = match p.ty {
                    Some(te) => resolve(te, defs)->Ok_0,
                    None => TypeV::Var(TypeVar(c1)),
                };
                assert(define_in(sc1, p.name.node@, (Seq::empty(), t)).drop_last() =~= sc1.drop_last());
            },
            Err(_) => {},
        }
    }
}

/// Binding parameters gives each annotated one the type its annotation
/// resolves to and each other one a variable, and stops where an
/// annotation names an unknown type.
proof fn lemma_params_bind_types(ps: Seq<Param>, defs: Map<Seq<char>, TypeDefV>, sc: Seq<Map<Seq<char>, SchemeV>>, c: u32)
    ensures
        params_bind(ps, defs, sc, c) matches Ok((_, _, ts)) ==> (ts.len() == ps.len()
            && forall|j: int| 0 <= j < ps.len() ==> (match #[trigger] ps[j].ty {
                Some(te) => resolve(te, defs) == Ok::<TypeV, (Seq<char>, Span)>(ts[j]),
                None => ts[j] is Var,
            })),
        (exists|j: int| 0 <= j < ps.len() && (#[trigger] ps[j].ty matches Some(te) && resolve(te, defs) is Err))
            ==> params_bind(ps, defs, sc, c) is Err,
    decreases ps.len(),
{
    if ps.len() > 0 {
        let q = ps.drop_last();
        lemma_params_bind_types(q, defs, sc, c);
        assert forall|j: int| 0 <= j < q.len() implies #[trigger] q[j] == ps[j] by {}
        match params_bind(q, defs, sc, c) {
            Ok((sc1, c1, tq)) => {
                match params_bind(ps, defs, sc, c) {
                    Ok((_, _, ts)) => {
                        assert forall|j: int| 0 <= j < ps.len() implies (match #[trigger] ps[j].ty {
                            Some(te) => resolve(te, defs) == Ok::<TypeV, (Seq<char>, Span)>(ts[j]),
                            None => ts[j] is Var,
                        }) by {
                            if j < q.len() {
                                assert(ts[j] == tq[j]);
                                assert(q[j] == ps[j]);
                            }
                        }
                    },
                    Err(_) => {},
                }
            },
            Err(_) => {},
        }
        if exists|j: int| 0 <= j < ps.len() && (#[trigger] ps[j].ty matches Some(te) && resolve(te, defs) is Err) {
            let j = choose|j: int| 0 <= j < ps.len() && (#[trigger] ps[j].ty matches Some(te) && resolve(te, defs) is Err);
            if j < q.len() {
                assert(q[j] == ps[j]);
            }
        }
    }
}

/// Once binding a prefix of the parameters stops, binding all of them
/// stops the same way.
proof fn lemma_params_bind_stops(ps: Seq<Param>, defs: Map<Seq<char>, TypeDefV>, sc: Seq<Map<Seq<char>, SchemeV>>, c: u32, j: int)
    requires
        0 <= j <= ps.len(),
        params_bind(ps.take(j), defs, sc, c) is Err,
    ensures
        params_bind(ps, defs, sc, c) == params_bind(ps.take(j), defs, sc, c),
    decreases ps.len() - j,
{
    if j < ps.len() {
        assert(ps.take(j + 1).drop_last() =~= ps.take(j));
        lemma_params_bind_stops(ps, defs, sc, c, j + 1);
    } else {
        assert(ps.take(j) =~= ps);
    }
}

/// The condition of a conditional must be a `Bool`. Where the condition
/// infers to a type without variables that is neither `Bool` nor the error
/// type, the conditional fails with the mismatch between that type and
/// `Bool`, in the state the condition left; and a conditional succeeds only
/// where its condition's type unifies with `Bool`.
pub proof fn law_if_condition_is_bool(e: Expr, defs: Map<Seq<char>, TypeDefV>, st: InferState)
    requires
        e is If,
    ensures
        match e {
            Expr::If(c, _, _) => {
                &&& match infer_outcome(c.node, defs, st) {
                    Some((Ok(ct), st1)) => (ground(ct) && ct != TypeV::Bool && !(ct is Error)) ==>
                        infer_outcome(e, defs, st) == Some((Err::<TypeV, Seq<char>>(mismatch_text(ct, TypeV::Bool)), st1)),
                    _ => true,
                }
                &&& (infer_outcome(e, defs, st) matches Some((Ok(_), _))) ==> match infer_outcome(c.node, defs, st) {
                    Some((Ok(ct), st1)) => unify_spec(st1.1, ct, TypeV::Bool) matches Some((Ok(()), _)),
                    _ => false,
                }
            },
            _ => true,
        },
{
    match e {
        Expr::If(c, _, _) => {
            match infer_outcome(c.node, defs, st) {
                Some((Ok(ct), st1)) => {
                    if ground(ct) && ct != TypeV::Bool && !(ct is Error) {
                        if ct is Var {
                            assert(tv_vars(ct) == seq![ct->Var_0]);
                        }
                        assert(clash(ct, TypeV::Bool));
                        assert(ground(TypeV::Bool));
                        lemma_unify_ground(st1.1, ct, TypeV::Bool);
                    }
                },
                _ => {},
            }
        },
        _ => {},
    }
}

/// A type with no type variables.
pub open spec fn ground(t: TypeV) -> bool {
    tv_vars(t).len() == 0
}

/// What unifying two types decides: nothing to do where they are equal, a
/// mismatch where they clash; otherwise nothing is decided here.
pub open spec fn unify_outcome(a: TypeV, b: TypeV) -> Option<Result<(), Seq<char>>> {
    if a == b {
        Some(Ok(()))
    } else if clash(a, b) {
        Some(Err(mismatch_text(a, b)))
    } else {
        None
    }
}

/// A substitution leaves a type without variables as it is.
proof fn lemma_ground_subst(t: TypeV, m: Map<u32, TypeV>)
    ensures
        ground(t) ==> tv_subst(t, m) == t,
{
    if ground(t) {
        assert forall|v: TypeVar| #[trigger] tv_vars(t).contains(v) implies !m.contains_key(v.0) by {
            assert(tv_vars(t).len() == 0);
        }
        lemma_subst_id(t, m);
    }
}

/// A list of distinct 32-bit numbers has at most 2^32 items.
proof fn lemma_distinct_u32_len(s: Seq<u32>)
    requires
        s.no_duplicates(),
    ensures
        s.len() <= 0x1_0000_0000,
{
    let t = s.map_values(|k: u32| k as int);
    assert(t.no_duplicates()) by {
        assert forall|i: int, j: int| 0 <= i < t.len() && 0 <= j < t.len() && i != j implies t[i] != t[j] by {
            assert(s[i] != s[j]);
        }
    }
    t.unique_seq_to_set();
    vstd::set_lib::lemma_int_range(0, 0x1_0000_0000);
    assert(t.to_set().subset_of(vstd::set_lib::set_int_range(0, 0x1_0000_0000)));
    vstd::set_lib::lemma_len_subset(t.to_set(), vstd::set_lib::set_int_range(0, 0x1_0000_0000));
}

/// The checker went from `before` to `after` returning `r` as the outcome
/// `o` says, where it decides: the state it names, the same type
/// definitions and errors, and its type or error message.
spec fn realizes(o: InferOutcome, r: Result<Type, TypeError>, before: TypeChecker, after: TypeChecker) -> bool {
    match o {
        Some((res, st)) => {
            &&& after.istate() == st
            &&& after.type_defs() == before.type_defs()
            &&& after.errors_v() == before.errors_v()
            &&& match res {
                Ok(t) => (r matches Ok(x) && x@ == t),
                Err(msg) => (r matches Err(x) && x.message@ == msg),
            }
        },
        None => true,
    }
}

impl TypeChecker {
    /// The substitution as a map from variable numbers to type values.
    pub closed spec fn m(&self) -> Map<u32, TypeV> {
        subst_view(self.subst@)
    }

    /// The errors collected so far.
    pub closed spec fn errors_v(&self) -> Seq<TypeError> {
        self.errors@
    }

    /// The type definitions in scope.
    pub closed spec fn type_defs(&self) -> Map<Seq<char>, TypeDefV> {
        self.env.type_defs()
    }

    /// The scopes of bindings, outermost first.
    pub closed spec fn scopes(&self) -> Seq<Map<Seq<char>, SchemeV>> {
        self.env.scopes()
    }

    /// The state inference works in: scopes, substitution and counter.
    pub closed spec fn istate(&self) -> InferState {
        (self.env.scopes(), self.m(), self.counter)
    }

    /// Well-formedness: a well-formed environment, and a substitution in
    /// solved form whose bound variables are listed once each.
    pub closed spec fn wf(&self) -> bool {
        &&& self.env.wf()
        &&& self.bound@.no_duplicates()
        &&& forall|k: u32| #[trigger] self.subst@.contains_key(k) <==> self.bound@.contains(k)
        &&& idempotent(self.m())
    }

    /// Everything but the substitution is as in `other`.
    pub closed spec fn same_context(&self, other: &TypeChecker) -> bool {
        &&& self.env == other.env
        &&& self.errors == other.errors
        &&& self.file_id == other.file_id
        &&& self.counter == other.counter
    }

    /// Create a new type checker.
    pub fn new(file_id: FileId) -> (c: TypeChecker)
        ensures
            c.wf(),
            c.errors_v().len() == 0,
            c.type_defs() == Map::<Seq<char>, TypeDefV>::empty(),
            c.scopes() == seq![builtins(0)],
            c.istate() == initial_state(),
    {
        let mut counter: u32 = 0;
        let env = TypeEnv::new(&mut counter);
        let c = TypeChecker { env, subst: HashMap::new(), bound: Vec::new(), errors: Vec::new(), file_id, counter };
        proof {
            assert(c.m() =~= Map::empty());
        }
        c
    }

    /// Apply the current substitution to a type.
    fn apply_subst(&self, ty: &Type) -> (r: Type)
        requires
            self.wf(),
        ensures
            r@ == tv_subst(ty@, self.m()),
            free_of(r@, self.m()),
    {
        proof {
            lemma_applied_free(ty@, self.m());
        }
        ty.substitute(&self.subst)
    }

    /// A fresh type variable.
    fn fresh(&mut self) -> (t: Type)
        requires
            old(self).wf(),
        ensures
            final(self).wf(),
            final(self).env == old(self).env,
            final(self).errors == old(self).errors,
            final(self).subst == old(self).subst,
            final(self).bound == old(self).bound,
            t is Var,
            t@ == TypeV::Var(TypeVar(old(self).counter)),
            final(self).counter == counter_after(old(self).counter, 1),
    {
        Type::Var(TypeVar::fresh(&mut self.counter))
    }

    /// Bind `v` to `t`, keeping the substitution in solved form: `t` replaces
    /// `v` in every type bound so far.
    fn bind(&mut self, v: TypeVar, t: Type)
        requires
            old(self).wf(),
            !old(self).m().contains_key(v.0),
            free_of(t@, old(self).m()),
            !tv_vars(t@).contains(v),
        ensures
            final(self).wf(),
            final(self).same_context(old(self)),
            final(self).bound@ == old(self).bound@.push(v.0),
            final(self).m() == compose(old(self).m(), map![v.0 => t@]),
    {
        let ghost m0 = self.m();
        let mut single: HashMap<u32, Type> = HashMap::new();
        single.insert(v.0, t.deep_clone());
        let ghost one = subst_view(single@);
        assert(one =~= map![v.0 => t@]);
        let mut i: usize = 0;
        while i < self.bound.len()
            invariant
                i <= self.bound@.len(),
                self.bound@ == old(self).bound@,
                self.same_context(old(self)),
                self.bound@.no_duplicates(),
                forall|k: u32| #[trigger] self.subst@.contains_key(k) <==> self.bound@.contains(k),
                one == map![v.0 => t@],
                subst_view(single@) == one,
                m0 == subst_view(old(self).subst@),
                forall|j: int| 0 <= j < i ==> #[trigger] self.m()[self.bound@[j]] == tv_subst(m0[self.bound@[j]], one),
                forall|j: int| i <= j < self.bound@.len() ==> #[trigger] self.m()[self.bound@[j]] == m0[self.bound@[j]],
            decreases self.bound@.len() - i,
        {
            let k = self.bound[i];
            assert(self.subst@.contains_key(k)) by { assert(self.bound@.contains(k)); }
            let ghost before = self.m();
            assert(self.m()[self.bound@[i as int]] == m0[self.bound@[i as int]]);
            assert(self.m()[k] == self.subst@[k]@);
            let r = match self.subst.get(&k) {
                Some(old_t) => old_t.substitute(&single),
                None => Type::Error,
            };
            assert(r@ == tv_subst(m0[k], one));
            self.subst.insert(k, r);
            proof {
                assert(self.m() =~= before.insert(k, r@));
                assert forall|j: int| 0 <= j < self.bound@.len() && j != i implies self.bound@[j] != k by {}
            }
            i = i + 1;
        }
        let ghost before = self.m();
        let ghost tv = t@;
        self.subst.insert(v.0, t);
        self.bound.push(v.0);
        proof {
            let m1 = self.m();
            assert(m1 =~= before.insert(v.0, tv));
            assert forall|j: int| 0 <= j < old(self).bound@.len() implies #[trigger] m1[old(self).bound@[j]] == tv_subst(m0[old(self).bound@[j]], one) by {
                assert(old(self).bound@[j] != v.0) by { assert(old(self).bound@.contains(old(self).bound@[j])); }
                assert(self.bound@[j] == old(self).bound@[j]);
            }
            assert(forall|j: int| 0 <= j < old(self).bound@.len() ==> self.bound@[j] == old(self).bound@[j]);
            assert forall|k: u32| #[trigger] self.subst@.contains_key(k) <==> self.bound@.contains(k) by {
                if self.bound@.contains(k) && k != v.0 {
                    let j = choose|j: int| 0 <= j < self.bound@.len() && self.bound@[j] == k;
                    assert(old(self).bound@.contains(k)) by { assert(old(self).bound@[j] == k); }
                }
                if self.subst@.contains_key(k) && k != v.0 {
                    assert(old(self).bound@.contains(k));
                    let j = choose|j: int| 0 <= j < old(self).bound@.len() && old(self).bound@[j] == k;
                    assert(self.bound@[j] == k);
                }
                if k == v.0 {
                    assert(self.bound@[self.bound@.len() - 1] == k);
                }
            }
            assert(!old(self).bound@.contains(v.0));
            assert(self.bound@.no_duplicates()) by {
                assert forall|a: int, b: int| 0 <= a < self.bound@.len() && 0 <= b < self.bound@.len() && a != b
                    implies self.bound@[a] != self.bound@[b] by {
                    if a < old(self).bound@.len() && b < old(self).bound@.len() {
                        assert(old(self).bound@[a] != old(self).bound@[b]);
                    } else if a < old(self).bound@.len() {
                        assert(old(self).bound@.contains(self.bound@[a]));
                    } else if b < old(self).bound@.len() {
                        assert(old(self).bound@.contains(self.bound@[b]));
                    }
                }
            }
            assert forall|k: u32| #[trigger] m1.contains_key(k) implies free_of(m1[k], m1) by {
                assert forall|x: TypeVar| #[trigger] tv_vars(m1[k]).contains(x) implies !m1.contains_key(x.0) by {
                    if k == v.0 {
                        assert(m1[k] == t@);
                        assert(!m0.contains_key(x.0));
                        assert(x != v);
                    } else {
                        let j = choose|j: int| 0 <= j < old(self).bound@.len() && old(self).bound@[j] == k;
                        assert(m1[old(self).bound@[j]] == tv_subst(m0[old(self).bound@[j]], one));
                        assert(m1[k] == tv_subst(m0[k], one));
                        lemma_subst_vars(m0[k], one, x);
                        assert(old(self).subst@.contains_key(k));
                        assert(m0.contains_key(k));
                        assert(free_of(m0[k], m0));
                        if tv_vars(m0[k]).contains(x) && !one.contains_key(x.0) {
                            assert(!m0.contains_key(x.0));
                        } else {
                            let w = choose|w: TypeVar| #[trigger] tv_vars(m0[k]).contains(w) && one.contains_key(w.0)
                                && tv_vars(one[w.0]).contains(x);
                            assert(one[w.0] == t@);
                            assert(!m0.contains_key(x.0));
                            assert(x != v);
                        }
                    }
                }
            }
            let c = compose(m0, one);
            assert forall|k: u32| #[trigger] m1.contains_key(k) <==> c.contains_key(k) by {
                if m1.contains_key(k) && k != v.0 {
                    assert(self.bound@.contains(k));
                    let j = choose|j: int| 0 <= j < self.bound@.len() && self.bound@[j] == k;
                    assert(j < old(self).bound@.len());
                    assert(old(self).bound@.contains(k)) by { assert(old(self).bound@[j] == k); }
                }
                if m0.contains_key(k) {
                    assert(old(self).bound@.contains(k));
                    let j = choose|j: int| 0 <= j < old(self).bound@.len() && old(self).bound@[j] == k;
                    assert(self.bound@[j] == k);
                    assert(self.bound@.contains(k));
                }
                if k == v.0 {
                    assert(self.bound@[self.bound@.len() - 1] == k);
                    assert(self.bound@.contains(k));
                }
            }
            assert forall|k: u32| #[trigger] m1.contains_key(k) implies m1[k] == c[k] by {
                if k == v.0 {
                    assert(m1[k] == t@);
                } else {
                    assert(old(self).bound@.contains(k)) by {
                        let j = choose|j: int| 0 <= j < self.bound@.len() && self.bound@[j] == k;
                        assert(old(self).bound@[j] == k);
                    }
                    let j = choose|j: int| 0 <= j < old(self).bound@.len() && old(self).bound@[j] == k;
                    assert(m1[old(self).bound@[j]] == tv_subst(m0[old(self).bound@[j]], one));
                    assert(m0.contains_key(k));
                }
            }
            assert(m1 =~= c);
        }
    }

    /// Bind a variable to a type unless the type mentions it.
    fn bind_var(&mut self, v: TypeVar, t: &Type, span: Span) -> (r: Result<(), TypeError>)
        requires
            old(self).wf(),
            !old(self).m().contains_key(v.0),
            free_of(t@, old(self).m()),
        ensures
            final(self).wf(),
            final(self).same_context(old(self)),
            match r {
                Ok(()) => !tv_vars(t@).contains(v) && final(self).bound@ == old(self).bound@.push(v.0)
                    && final(self).m() == compose(old(self).m(), map![v.0 => t@]),
                Err(e) => tv_vars(t@).contains(v) && final(self).subst == old(self).subst
                    && final(self).bound == old(self).bound
                    && e.message@ == "infinite type: "@ + var_text(v) + " ~ "@ + type_text(t@)
                    && e.span == span && e.expected is None && e.found is None,
            },
    {
        let vars = t.free_vars();
        proof {
            crate::typing::ty::law_free_vars_distinct_and_complete(t@);
        }
        if crate::typing::ty::vec_contains(&vars, &v) {
            let mut message = string_of("infinite type: ");
            push_str(&mut message, v.to_string().as_str());
            push_str(&mut message, " ~ ");
            push_str(&mut message, t.to_string().as_str());
            Err(TypeError { message, span, expected: None, found: None })
        } else {
            self.bind(v, t.deep_clone());
            Ok(())
        }
    }

    /// Unify two types under the current substitution, extending it. On
    /// success the two types, under the new substitution, are compatible.
    /// Unify two function types of as many parameters: their parts in order.
    #[verifier::rlimit(100)]
    #[verifier::spinoff_prover]
    fn unify_fns(&mut self, a: &Type, b: &Type, span: Span) -> (r: Result<(), TypeError>)
        requires
            old(self).wf(),
            a@ is Fn && b@ is Fn,
            a@ != b@,
            tv_subst(a@, old(self).m()) == a@,
            tv_subst(b@, old(self).m()) == b@,
        ensures
            final(self).wf(),
            final(self).same_context(old(self)),
            final(self).bound@.len() >= old(self).bound@.len(),
            final(self).bound@.len() == old(self).bound@.len() ==> final(self).subst == old(self).subst,
            extends(final(self).m(), old(self).m()),
            r is Ok ==> compatible(tv_subst(a@, final(self).m()), tv_subst(b@, final(self).m())),
            exists|f0: nat| unify_settles(old(self).m(), a@, b@, f0, (unify_msg(r), final(self).m())),
        decreases 0x1_0000_0000 - old(self).bound@.len(), a@, 0nat,
    {
        let ghost n0 = self.bound@.len();
        let ghost s0 = self.subst;
        let ghost m0 = self.m();
        proof {
            lemma_distinct_u32_len(self.bound@);
            lemma_extends_refl(m0);
        }
        match (a, b) {
            (Type::Fn(p1, r1), Type::Fn(p2, r2)) => {
                if p1.len() != p2.len() {
                    let e = TypeError::mismatch(a.deep_clone(), b.deep_clone(), span);
                    proof {
                        lemma_tviews_index(p1@);
                        lemma_tviews_index(p2@);
                        assert forall|f: nat| f >= 1 implies #[trigger] unify_full(m0, a@, b@, f)
                            == Some((Err::<(), Seq<char>>(e.message@), m0)) by {}
                        assert(unify_settles(m0, a@, b@, 1, (Err::<(), Seq<char>>(e.message@), m0)));
                    }
                    return Err(e);
                }
                proof {
                    lemma_tviews_index(p1@);
                    lemma_tviews_index(p2@);
                    lemma_tvs_subst_index(tviews(p1@), m0);
                }
                let mut i: usize = 0;
                let ghost mut fmax: nat = 0;
                while i < p1.len()
                    invariant
                        forall|f: nat| f >= fmax ==> #[trigger] unify_seq(m0, tviews(p1@), tviews(p2@), 0, f)
                            == unify_seq(self.m(), tviews(p1@), tviews(p2@), i as int, f),
                        i <= p1@.len(),
                        p1@.len() == p2@.len(),
                        self.wf(),
                        self.same_context(old(self)),
                        self.bound@.len() >= n0,
                        self.bound@.len() == n0 ==> self.subst == s0,
                        m0 == subst_view(s0@),
                        a@ == TypeV::Fn(tviews(p1@), Box::new(r1@)),
                        b@ == TypeV::Fn(tviews(p2@), Box::new(r2@)),
                        tv_subst(a@, m0) == a@,
                        tv_subst(b@, m0) == b@,
                        a@ != b@,
                        s0 == old(self).subst,
                        tviews(p1@).len() == p1@.len(),
                        tviews(p2@).len() == p2@.len(),
                        forall|j: int| 0 <= j < p1@.len() ==> #[trigger] tviews(p1@)[j] == p1@[j]@,
                        forall|j: int| 0 <= j < p2@.len() ==> #[trigger] tviews(p2@)[j] == p2@[j]@,
                        forall|j: int| 0 <= j < p1@.len() ==> #[trigger] tv_subst(tviews(p1@)[j], m0) == tviews(p1@)[j],
                        n0 == old(self).bound@.len(),
                        m0 == old(self).m(),
                        extends(self.m(), m0),
                        forall|j: int| 0 <= j < i ==> compatible(tv_subst(#[trigger] tviews(p1@)[j], self.m()),
                            tv_subst(tviews(p2@)[j], self.m())),
                    decreases p1@.len() - i,
                {
                    proof {
                        lemma_distinct_u32_len(self.bound@);
                        assert(tv_subst(p1@[i as int]@, m0) == tviews(p1@)[i as int]);
                        assert(decreases_to!(a@ => tviews(p1@)[i as int]));
                    }
                    let ghost mb = self.m();
                    let r = self.unify(&p1[i], &p2[i], span);
                    let ghost fi = choose|f0: nat| unify_settles(mb, p1@[i as int]@, p2@[i as int]@, f0, (unify_msg(r), self.m()));
                    let ghost fnew: nat = if fi > fmax { fi } else { fmax };
                    proof {
                        assert forall|f: nat| f >= fnew implies #[trigger] unify_seq(m0, tviews(p1@), tviews(p2@), 0, f)
                            == (match r {
                                Ok(()) => unify_seq(self.m(), tviews(p1@), tviews(p2@), i + 1, f),
                                Err(e) => Some((Err::<(), Seq<char>>(e.message@), self.m())),
                            }) by {
                            assert(unify_full(mb, p1@[i as int]@, p2@[i as int]@, f) == Some((unify_msg(r), self.m())));
                            assert(tviews(p1@)[i as int] == p1@[i as int]@);
                            assert(tviews(p2@)[i as int] == p2@[i as int]@);
                        }
                    }
                    proof {
                        lemma_extends_trans(self.m(), mb, m0);
                        assert forall|j: int| 0 <= j < i implies compatible(tv_subst(#[trigger] tviews(p1@)[j], self.m()),
                            tv_subst(tviews(p2@)[j], self.m())) by {
                            lemma_extends_compatible(tviews(p1@)[j], tviews(p2@)[j], mb, self.m());
                        }
                    }
                    match r {
                        Ok(()) => {},
                        Err(e) => {
                            proof {
                                assert forall|f: nat| f >= fnew + 1 implies #[trigger] unify_full(m0, a@, b@, f)
                                    == Some((Err::<(), Seq<char>>(e.message@), self.m())) by {
                                    assert((f - 1) as nat >= fnew);
                                    assert(!(a@ is Var) && !(b@ is Var));
                                    assert(unify_seq(m0, tviews(p1@), tviews(p2@), 0, (f - 1) as nat) == Some((Err::<(), Seq<char>>(e.message@), self.m())));
                                }
                                assert(unify_settles(m0, a@, b@, fnew + 1, (Err::<(), Seq<char>>(e.message@), self.m())));
                            }
                            return Err(e);
                        },
                    }
                    proof {
                        fmax = fnew;
                    }
                    i = i + 1;
                }
                proof {
                    lemma_distinct_u32_len(self.bound@);
                    assert(tv_subst(r1@, m0) == r1@);
                    assert(decreases_to!(a@ => r1@));
                }
                let ghost mb = self.m();
                let res = self.unify(r1, r2, span);
                proof {
                    let mf = self.m();
                    let fr = choose|f0: nat| unify_settles(mb, r1@, r2@, f0, (unify_msg(res), mf));
                    let ft: nat = if fr > fmax { fr } else { fmax };
                    assert forall|f: nat| f >= ft + 1 implies #[trigger] unify_full(m0, a@, b@, f) == Some((unify_msg(res), mf)) by {
                        assert(unify_seq(m0, tviews(p1@), tviews(p2@), 0, (f - 1) as nat) == Some((Ok::<(), Seq<char>>(()), mb)));
                        assert(unify_full(mb, r1@, r2@, (f - 1) as nat) == Some((unify_msg(res), mf)));
                    }
                    assert(unify_settles(m0, a@, b@, ft + 1, (unify_msg(res), mf)));
                }
                proof {
                    let mf = self.m();
                    lemma_extends_trans(mf, mb, m0);
                    if res is Ok {
                        let ps1 = tviews(p1@);
                        let ps2 = tviews(p2@);
                        lemma_tvs_subst_index(ps1, mf);
                        lemma_tvs_subst_index(ps2, mf);
                        assert forall|j: int| 0 <= j < ps1.len() implies
                            compatible(tv_subst(#[trigger] ps1[j], mf), tv_subst(ps2[j], mf)) by {
                            lemma_extends_compatible(ps1[j], ps2[j], mb, mf);
                        }
                        let q1 = tvs_subst(ps1, mf);
                        let q2 = tvs_subst(ps2, mf);
                        assert(tv_subst(a@, mf) == TypeV::Fn(q1, Box::new(tv_subst(r1@, mf))));
                        assert(tv_subst(b@, mf) == TypeV::Fn(q2, Box::new(tv_subst(r2@, mf))));
                        assert forall|j: int| #![trigger q1[j]] 0 <= j < q1.len() implies compatible(q1[j], q2[j]) by {
                            assert(compatible(tv_subst(ps1[j], mf), tv_subst(ps2[j], mf)));
                        }
                        assert(compatible(tv_subst(a@, mf), tv_subst(b@, mf)));
                    }
                }
                res
            },
            _ => Ok(()),
        }
    }

    /// Unify two tuple types: their parts in order.
    #[verifier::rlimit(100)]
    #[verifier::spinoff_prover]
    fn unify_tuples(&mut self, a: &Type, b: &Type, span: Span) -> (r: Result<(), TypeError>)
        requires
            old(self).wf(),
            a@ is Tuple && b@ is Tuple,
            a@ != b@,
            tv_subst(a@, old(self).m()) == a@,
            tv_subst(b@, old(self).m()) == b@,
        ensures
            final(self).wf(),
            final(self).same_context(old(self)),
            final(self).bound@.len() >= old(self).bound@.len(),
            final(self).bound@.len() == old(self).bound@.len() ==> final(self).subst == old(self).subst,
            extends(final(self).m(), old(self).m()),
            r is Ok ==> compatible(tv_subst(a@, final(self).m()), tv_subst(b@, final(self).m())),
            exists|f0: nat| unify_settles(old(self).m(), a@, b@, f0, (unify_msg(r), final(self).m())),
        decreases 0x1_0000_0000 - old(self).bound@.len(), a@, 0nat,
    {
        let ghost n0 = self.bound@.len();
        let ghost s0 = self.subst;
        let ghost m0 = self.m();
        proof {
            lemma_distinct_u32_len(self.bound@);
            lemma_extends_refl(m0);
        }
        match (a, b) {
            (Type::Tuple(ts1), Type::Tuple(ts2)) => {
                if ts1.len() != ts2.len() {
                    let e = TypeError::mismatch(a.deep_clone(), b.deep_clone(), span);
                    proof {
                        lemma_tviews_index(ts1@);
                        lemma_tviews_index(ts2@);
                        assert forall|f: nat| f >= 1 implies #[trigger] unify_full(m0, a@, b@, f)
                            == Some((Err::<(), Seq<char>>(e.message@), m0)) by {}
                        assert(unify_settles(m0, a@, b@, 1, (Err::<(), Seq<char>>(e.message@), m0)));
                    }
                    return Err(e);
                }
                proof {
                    lemma_tviews_index(ts1@);
                    lemma_tviews_index(ts2@);
                    lemma_tvs_subst_index(tviews(ts1@), m0);
                }
                let mut i: usize = 0;
                let ghost mut fmax: nat = 0;
                while i < ts1.len()
                    invariant
                        forall|f: nat| f >= fmax ==> #[trigger] unify_seq(m0, tviews(ts1@), tviews(ts2@), 0, f)
                            == unify_seq(self.m(), tviews(ts1@), tviews(ts2@), i as int, f),
                        i <= ts1@.len(),
                        ts1@.len() == ts2@.len(),
                        self.wf(),
                        self.same_context(old(self)),
                        self.bound@.len() >= n0,
                        self.bound@.len() == n0 ==> self.subst == s0,
                        m0 == subst_view(s0@),
                        a@ == TypeV::Tuple(tviews(ts1@)),
                        b@ == TypeV::Tuple(tviews(ts2@)),
                        tv_subst(a@, m0) == a@,
                        tv_subst(b@, m0) == b@,
                        a@ != b@,
                        s0 == old(self).subst,
                        tviews(ts1@).len() == ts1@.len(),
                        tviews(ts2@).len() == ts2@.len(),
                        forall|j: int| 0 <= j < ts1@.len() ==> #[trigger] tviews(ts1@)[j] == ts1@[j]@,
                        forall|j: int| 0 <= j < ts2@.len() ==> #[trigger] tviews(ts2@)[j] == ts2@[j]@,
                        forall|j: int| 0 <= j < ts1@.len() ==> #[trigger] tv_subst(tviews(ts1@)[j], m0) == tviews(ts1@)[j],
                        n0 == old(self).bound@.len(),
                        m0 == old(self).m(),
                        extends(self.m(), m0),
                        forall|j: int| 0 <= j < i ==> compatible(tv_subst(#[trigger] tviews(ts1@)[j], self.m()),
                            tv_subst(tviews(ts2@)[j], self.m())),
                    decreases ts1@.len() - i,
                {
                    proof {
                        lemma_distinct_u32_len(self.bound@);
                        assert(tv_subst(ts1@[i as int]@, m0) == tviews(ts1@)[i as int]);
                        assert(decreases_to!(a@ => tviews(ts1@)[i as int]));
                    }
                    let ghost mb = self.m();
                    let r = self.unify(&ts1[i], &ts2[i], span);
                    let ghost fi = choose|f0: nat| unify_settles(mb, ts1@[i as int]@, ts2@[i as int]@, f0, (unify_msg(r), self.m()));
                    let ghost fnew: nat = if fi > fmax { fi } else { fmax };
                    proof {
                        assert forall|f: nat| f >= fnew implies #[trigger] unify_seq(m0, tviews(ts1@), tviews(ts2@), 0, f)
                            == (match r {
                                Ok(()) => unify_seq(self.m(), tviews(ts1@), tviews(ts2@), i + 1, f),
                                Err(e) => Some((Err::<(), Seq<char>>(e.message@), self.m())),
                            }) by {
                            assert(unify_full(mb, ts1@[i as int]@, ts2@[i as int]@, f) == Some((unify_msg(r), self.m())));
                            assert(tviews(ts1@)[i as int] == ts1@[i as int]@);
                            assert(tviews(ts2@)[i as int] == ts2@[i as int]@);
                        }
                    }
                    proof {
                        lemma_extends_trans(self.m(), mb, m0);
                        assert forall|j: int| 0 <= j < i implies compatible(tv_subst(#[trigger] tviews(ts1@)[j], self.m()),
                            tv_subst(tviews(ts2@)[j], self.m())) by {
                            lemma_extends_compatible(tviews(ts1@)[j], tviews(ts2@)[j], mb, self.m());
                        }
                    }
                    match r {
                        Ok(()) => {},
                        Err(e) => {
                            proof {
                                assert forall|f: nat| f >= fnew + 1 implies #[trigger] unify_full(m0, a@, b@, f)
                                    == Some((Err::<(), Seq<char>>(e.message@), self.m())) by {
                                    assert((f - 1) as nat >= fnew);
                                    assert(!(a@ is Var) && !(b@ is Var));
                                    assert(tv_subst(a@, m0) == a@);
                                    assert(a@ == TypeV::Tuple(tviews(ts1@)));
                                    assert(unify_seq(m0, tviews(ts1@), tviews(ts2@), 0, (f - 1) as nat) == Some((Err::<(), Seq<char>>(e.message@), self.m())));
                                    assert(unify_full(m0, a@, b@, f) == unify_seq(m0, tviews(ts1@), tviews(ts2@), 0, (f - 1) as nat));
                                    assert(unify_seq(m0, tviews(ts1@), tviews(ts2@), 0, (f - 1) as nat) == Some((Err::<(), Seq<char>>(e.message@), self.m())));
                                }
                                assert(unify_settles(m0, a@, b@, fnew + 1, (Err::<(), Seq<char>>(e.message@), self.m())));
                            }
                            return Err(e);
                        },
                    }
                    proof {
                        fmax = fnew;
                    }
                    i = i + 1;
                }
                proof {
                    let mf = self.m();
                    let ps1 = tviews(ts1@);
                    let ps2 = tviews(ts2@);
                    lemma_tvs_subst_index(ps1, mf);
                    lemma_tvs_subst_index(ps2, mf);
                    let q1 = tvs_subst(ps1, mf);
                    let q2 = tvs_subst(ps2, mf);
                    assert(tv_subst(a@, mf) == TypeV::Tuple(q1));
                    assert(tv_subst(b@, mf) == TypeV::Tuple(q2));
                    assert forall|j: int| #![trigger q1[j]] 0 <= j < q1.len() implies compatible(q1[j], q2[j]) by {
                        assert(compatible(tv_subst(ps1[j], mf), tv_subst(ps2[j], mf)));
                    }
                    assert(compatible(tv_subst(a@, mf), tv_subst(b@, mf)));
                    assert forall|f: nat| f >= fmax + 1 implies #[trigger] unify_full(m0, a@, b@, f) == Some((Ok::<(), Seq<char>>(()), mf)) by {
                        assert(unify_seq(m0, tviews(ts1@), tviews(ts2@), 0, (f - 1) as nat) == Some((Ok::<(), Seq<char>>(()), mf)));
                    }
                    assert(unify_settles(m0, a@, b@, fmax + 1, (Ok::<(), Seq<char>>(()), mf)));
                }
                Ok(())
            },
            _ => Ok(()),
        }
    }

    /// Unify two record types: their parts in order.
    #[verifier::rlimit(100)]
    #[verifier::spinoff_prover]
    fn unify_records(&mut self, a: &Type, b: &Type, span: Span) -> (r: Result<(), TypeError>)
        requires
            old(self).wf(),
            a@ is Record && b@ is Record,
            a@ != b@,
            tv_subst(a@, old(self).m()) == a@,
            tv_subst(b@, old(self).m()) == b@,
        ensures
            final(self).wf(),
            final(self).same_context(old(self)),
            final(self).bound@.len() >= old(self).bound@.len(),
            final(self).bound@.len() == old(self).bound@.len() ==> final(self).subst == old(self).subst,
            extends(final(self).m(), old(self).m()),
            r is Ok ==> compatible(tv_subst(a@, final(self).m()), tv_subst(b@, final(self).m())),
            exists|f0: nat| unify_settles(old(self).m(), a@, b@, f0, (unify_msg(r), final(self).m())),
        decreases 0x1_0000_0000 - old(self).bound@.len(), a@, 0nat,
    {
        let ghost n0 = self.bound@.len();
        let ghost s0 = self.subst;
        let ghost m0 = self.m();
        proof {
            lemma_distinct_u32_len(self.bound@);
            lemma_extends_refl(m0);
        }
        match (a, b) {
            (Type::Record(f1), Type::Record(f2)) => {
                if f1.len() != f2.len() {
                    let e = TypeError::mismatch(a.deep_clone(), b.deep_clone(), span);
                    proof {
                        lemma_field_views_index(f1@);
                        lemma_field_views_index(f2@);
                        assert forall|f: nat| f >= 1 implies #[trigger] unify_full(m0, a@, b@, f)
                            == Some((Err::<(), Seq<char>>(e.message@), m0)) by {}
                        assert(unify_settles(m0, a@, b@, 1, (Err::<(), Seq<char>>(e.message@), m0)));
                    }
                    return Err(e);
                }
                proof {
                    lemma_field_views_index(f1@);
                    lemma_field_views_index(f2@);
                    lemma_fields_subst_index(field_views(f1@), m0);
                }
                let mut i: usize = 0;
                let ghost mut fmax: nat = 0;
                while i < f1.len()
                    invariant
                        forall|f: nat| f >= fmax ==> #[trigger] unify_fields(m0, field_views(f1@), field_views(f2@), 0, f)
                            == unify_fields(self.m(), field_views(f1@), field_views(f2@), i as int, f),
                        i <= f1@.len(),
                        f1@.len() == f2@.len(),
                        self.wf(),
                        self.same_context(old(self)),
                        self.bound@.len() >= n0,
                        self.bound@.len() == n0 ==> self.subst == s0,
                        m0 == subst_view(s0@),
                        a@ == TypeV::Record(field_views(f1@)),
                        b@ == TypeV::Record(field_views(f2@)),
                        tv_subst(a@, m0) == a@,
                        tv_subst(b@, m0) == b@,
                        a@ != b@,
                        s0 == old(self).subst,
                        field_views(f1@).len() == f1@.len(),
                        field_views(f2@).len() == f2@.len(),
                        forall|j: int| 0 <= j < f1@.len() ==> #[trigger] field_views(f1@)[j] == (f1@[j].0@, f1@[j].1@),
                        forall|j: int| 0 <= j < f2@.len() ==> #[trigger] field_views(f2@)[j] == (f2@[j].0@, f2@[j].1@),
                        forall|j: int| 0 <= j < f1@.len() ==> #[trigger] tv_subst(field_views(f1@)[j].1, m0) == field_views(f1@)[j].1,
                        n0 == old(self).bound@.len(),
                        m0 == old(self).m(),
                        extends(self.m(), m0),
                        forall|j: int| 0 <= j < i ==> (#[trigger] field_views(f1@)[j]).0 == field_views(f2@)[j].0
                            && compatible(tv_subst(field_views(f1@)[j].1, self.m()), tv_subst(field_views(f2@)[j].1, self.m())),
                    decreases f1@.len() - i,
                {
                    if !str_eq(f1[i].0.as_str(), f2[i].0.as_str()) {
                        let mut message = string_of("field name mismatch: ");
                        push_str(&mut message, f1[i].0.as_str());
                        push_str(&mut message, " vs ");
                        push_str(&mut message, f2[i].0.as_str());
                        proof {
                            assert(field_views(f1@)[i as int].0 != field_views(f2@)[i as int].0);
                            assert forall|f: nat| f >= fmax + 1 implies #[trigger] unify_full(m0, a@, b@, f)
                                == Some((Err::<(), Seq<char>>(message@), self.m())) by {
                                assert((f - 1) as nat >= fmax);
                                assert(!(a@ is Var) && !(b@ is Var));
                                assert(unify_fields(m0, field_views(f1@), field_views(f2@), 0, (f - 1) as nat)
                                    == Some((Err::<(), Seq<char>>(message@), self.m())));
                            }
                            assert(unify_settles(m0, a@, b@, fmax + 1, (Err::<(), Seq<char>>(message@), self.m())));
                        }
                        return Err(TypeError { message, span, expected: None, found: None });
                    }
                    proof {
                        lemma_distinct_u32_len(self.bound@);
                        assert(tv_subst(f1@[i as int].1@, m0) == field_views(f1@)[i as int].1);
                        assert(decreases_to!(a@ => field_views(f1@)[i as int].1));
                    }
                    let ghost mb = self.m();
                    let r = self.unify(&f1[i].1, &f2[i].1, span);
                    let ghost fi = choose|f0: nat| unify_settles(mb, f1@[i as int].1@, f2@[i as int].1@, f0, (unify_msg(r), self.m()));
                    let ghost fnew: nat = if fi > fmax { fi } else { fmax };
                    proof {
                        assert forall|f: nat| f >= fnew implies #[trigger] unify_fields(m0, field_views(f1@), field_views(f2@), 0, f)
                            == (match r {
                                Ok(()) => unify_fields(self.m(), field_views(f1@), field_views(f2@), i + 1, f),
                                Err(e) => Some((Err::<(), Seq<char>>(e.message@), self.m())),
                            }) by {
                            assert(unify_full(mb, f1@[i as int].1@, f2@[i as int].1@, f) == Some((unify_msg(r), self.m())));
                            assert(field_views(f1@)[i as int] == (f1@[i as int].0@, f1@[i as int].1@));
                            assert(field_views(f2@)[i as int] == (f2@[i as int].0@, f2@[i as int].1@));
                        }
                    }
                    proof {
                        lemma_extends_trans(self.m(), mb, m0);
                        assert forall|j: int| 0 <= j < i implies (#[trigger] field_views(f1@)[j]).0 == field_views(f2@)[j].0
                            && compatible(tv_subst(field_views(f1@)[j].1, self.m()), tv_subst(field_views(f2@)[j].1, self.m())) by {
                            lemma_extends_compatible(field_views(f1@)[j].1, field_views(f2@)[j].1, mb, self.m());
                        }
                        assert(field_views(f1@)[i as int].0 == field_views(f2@)[i as int].0);
                    }
                    match r {
                        Ok(()) => {},
                        Err(e) => {
                            proof {
                                assert forall|f: nat| f >= fnew + 1 implies #[trigger] unify_full(m0, a@, b@, f)
                                    == Some((Err::<(), Seq<char>>(e.message@), self.m())) by {
                                    assert((f - 1) as nat >= fnew);
                                    assert(!(a@ is Var) && !(b@ is Var));
                                    assert(unify_fields(m0, field_views(f1@), field_views(f2@), 0, (f - 1) as nat) == Some((Err::<(), Seq<char>>(e.message@), self.m())));
                                }
                                assert(unify_settles(m0, a@, b@, fnew + 1, (Err::<(), Seq<char>>(e.message@), self.m())));
                            }
                            return Err(e);
                        },
                    }
                    proof {
                        fmax = fnew;
                    }
                    i = i + 1;
                }
                proof {
                    let mf = self.m();
                    let g1 = field_views(f1@);
                    let g2 = field_views(f2@);
                    lemma_fields_subst_index(g1, mf);
                    lemma_fields_subst_index(g2, mf);
                    let q1 = crate::typing::ty::fields_subst(g1, mf);
                    let q2 = crate::typing::ty::fields_subst(g2, mf);
                    assert(tv_subst(a@, mf) == TypeV::Record(q1));
                    assert(tv_subst(b@, mf) == TypeV::Record(q2));
                    assert forall|j: int| #![trigger q1[j]] 0 <= j < q1.len() implies q1[j].0 == q2[j].0
                        && compatible(q1[j].1, q2[j].1) by {
                        assert(g1[j].0 == g2[j].0 && compatible(tv_subst(g1[j].1, mf), tv_subst(g2[j].1, mf)));
                    }
                    assert(compatible(tv_subst(a@, mf), tv_subst(b@, mf)));
                    assert forall|f: nat| f >= fmax + 1 implies #[trigger] unify_full(m0, a@, b@, f) == Some((Ok::<(), Seq<char>>(()), mf)) by {
                        assert(unify_fields(m0, field_views(f1@), field_views(f2@), 0, (f - 1) as nat) == Some((Ok::<(), Seq<char>>(()), mf)));
                    }
                    assert(unify_settles(m0, a@, b@, fmax + 1, (Ok::<(), Seq<char>>(()), mf)));
                }
                Ok(())
            },
            _ => Ok(()),
        }
    }

    /// Unify two array types, or two optional types: their item types.
    #[verifier::rlimit(100)]
    #[verifier::spinoff_prover]
    fn unify_boxes(&mut self, a: &Type, b: &Type, span: Span) -> (r: Result<(), TypeError>)
        requires
            old(self).wf(),
            (a@ is Array && b@ is Array) || (a@ is Optional && b@ is Optional),
            a@ != b@,
            tv_subst(a@, old(self).m()) == a@,
            tv_subst(b@, old(self).m()) == b@,
        ensures
            final(self).wf(),
            final(self).same_context(old(self)),
            final(self).bound@.len() >= old(self).bound@.len(),
            final(self).bound@.len() == old(self).bound@.len() ==> final(self).subst == old(self).subst,
            extends(final(self).m(), old(self).m()),
            r is Ok ==> compatible(tv_subst(a@, final(self).m()), tv_subst(b@, final(self).m())),
            exists|f0: nat| unify_settles(old(self).m(), a@, b@, f0, (unify_msg(r), final(self).m())),
        decreases 0x1_0000_0000 - old(self).bound@.len(), a@, 0nat,
    {
        let ghost m0 = self.m();
        proof {
            lemma_distinct_u32_len(self.bound@);
        }
        match (a, b) {
            (Type::Array(e1), Type::Array(e2)) => {
                assert(tv_subst(e1@, m0) == e1@);
                assert(decreases_to!(a@ => e1@));
                let res = self.unify(e1, e2, span);
                proof {
                    let mf = self.m();
                    if res is Ok {
                        assert(tv_subst(a@, mf) == TypeV::Array(Box::new(tv_subst(e1@, mf))));
                        assert(tv_subst(b@, mf) == TypeV::Array(Box::new(tv_subst(e2@, mf))));
                        assert(compatible(tv_subst(a@, mf), tv_subst(b@, mf)));
                    }
                }
                proof {
                    let mf = self.m();
                    let fr = choose|f0: nat| unify_settles(m0, e1@, e2@, f0, (unify_msg(res), mf));
                    assert forall|f: nat| f >= fr + 1 implies #[trigger] unify_full(m0, a@, b@, f) == Some((unify_msg(res), mf)) by {
                        assert(unify_full(m0, e1@, e2@, (f - 1) as nat) == Some((unify_msg(res), mf)));
                    }
                    assert(unify_settles(m0, a@, b@, fr + 1, (unify_msg(res), mf)));
                }
                res
            },
            (Type::Optional(e1), Type::Optional(e2)) => {
                assert(tv_subst(e1@, m0) == e1@);
                assert(decreases_to!(a@ => e1@));
                let res = self.unify(e1, e2, span);
                proof {
                    let mf = self.m();
                    if res is Ok {
                        assert(tv_subst(a@, mf) == TypeV::Optional(Box::new(tv_subst(e1@, mf))));
                        assert(tv_subst(b@, mf) == TypeV::Optional(Box::new(tv_subst(e2@, mf))));
                        assert(compatible(tv_subst(a@, mf), tv_subst(b@, mf)));
                    }
                }
                proof {
                    let mf = self.m();
                    let fr = choose|f0: nat| unify_settles(m0, e1@, e2@, f0, (unify_msg(res), mf));
                    assert forall|f: nat| f >= fr + 1 implies #[trigger] unify_full(m0, a@, b@, f) == Some((unify_msg(res), mf)) by {
                        assert(unify_full(m0, e1@, e2@, (f - 1) as nat) == Some((unify_msg(res), mf)));
                    }
                    assert(unify_settles(m0, a@, b@, fr + 1, (unify_msg(res), mf)));
                }
                res
            },
            _ => Ok(()),
        }
    }

    /// Unify two types under the current substitution, extending it: the
    /// outcome `unify_spec` gives. On success the two types, under the new
    /// substitution, are compatible.
    fn unify(&mut self, t1: &Type, t2: &Type, span: Span) -> (r: Result<(), TypeError>)
        requires
            old(self).wf(),
        ensures
            final(self).wf(),
            final(self).same_context(old(self)),
            final(self).bound@.len() >= old(self).bound@.len(),
            final(self).bound@.len() == old(self).bound@.len() ==> final(self).subst == old(self).subst,
            extends(final(self).m(), old(self).m()),
            r is Ok ==> compatible(tv_subst(t1@, final(self).m()), tv_subst(t2@, final(self).m())),
            tv_subst(t1@, old(self).m()) == tv_subst(t2@, old(self).m())
                ==> (r is Ok && final(self).subst == old(self).subst && final(self).bound == old(self).bound),
            (tv_subst(t1@, old(self).m()) is Error || tv_subst(t2@, old(self).m()) is Error) ==> r is Ok,
            (element_kind(tv_subst(t1@, old(self).m())) && tv_subst(t2@, old(self).m()) is Element) ==> r is Ok,
            (tv_subst(t1@, old(self).m()) matches TypeV::Var(v) && !tv_vars(tv_subst(t2@, old(self).m())).contains(v))
                ==> r is Ok,
            (tv_subst(t2@, old(self).m()) matches TypeV::Var(v) && !tv_vars(tv_subst(t1@, old(self).m())).contains(v))
                ==> r is Ok,
            exists|f0: nat| unify_settles(old(self).m(), t1@, t2@, f0, (unify_msg(r), final(self).m())),
            unify_spec(old(self).m(), t1@, t2@) == Some((unify_msg(r), final(self).m())),
        decreases 0x1_0000_0000 - old(self).bound@.len(), tv_subst(t1@, old(self).m()), 2nat,
    {
        let r = self.unify_core(t1, t2, span);
        proof {
            let f0 = choose|f0: nat| unify_settles(old(self).m(), t1@, t2@, f0, (unify_msg(r), self.m()));
            lemma_unify_spec(old(self).m(), t1@, t2@, f0, (unify_msg(r), self.m()));
        }
        r
    }

    #[verifier::rlimit(100)]
    #[verifier::spinoff_prover]
    fn unify_core(&mut self, t1: &Type, t2: &Type, span: Span) -> (r: Result<(), TypeError>)
        requires
            old(self).wf(),
        ensures
            final(self).wf(),
            final(self).same_context(old(self)),
            final(self).bound@.len() >= old(self).bound@.len(),
            final(self).bound@.len() == old(self).bound@.len() ==> final(self).subst == old(self).subst,
            extends(final(self).m(), old(self).m()),
            r is Ok ==> compatible(tv_subst(t1@, final(self).m()), tv_subst(t2@, final(self).m())),
            tv_subst(t1@, old(self).m()) == tv_subst(t2@, old(self).m())
                ==> (r is Ok && final(self).subst == old(self).subst && final(self).bound == old(self).bound),
            (tv_subst(t1@, old(self).m()) is Error || tv_subst(t2@, old(self).m()) is Error) ==> r is Ok,
            (element_kind(tv_subst(t1@, old(self).m())) && tv_subst(t2@, old(self).m()) is Element) ==> r is Ok,
            (tv_subst(t1@, old(self).m()) matches TypeV::Var(v) && !tv_vars(tv_subst(t2@, old(self).m())).contains(v))
                ==> r is Ok,
            (tv_subst(t2@, old(self).m()) matches TypeV::Var(v) && !tv_vars(tv_subst(t1@, old(self).m())).contains(v))
                ==> r is Ok,
            exists|f0: nat| unify_settles(old(self).m(), t1@, t2@, f0, (unify_msg(r), final(self).m())),
        decreases 0x1_0000_0000 - old(self).bound@.len(), tv_subst(t1@, old(self).m()), 1nat,
    {
        let ghost n0 = self.bound@.len();
        let ghost s0 = self.subst;
        let ghost m0 = self.m();
        proof {
            lemma_distinct_u32_len(self.bound@);
            lemma_extends_refl(m0);
        }
        let a = self.apply_subst(t1);
        let b = self.apply_subst(t2);
        proof {
            lemma_subst_id(a@, m0);
            lemma_subst_id(b@, m0);
        }
        if a.equals(&b) {
            proof {
                assert forall|f: nat| f >= 1 implies #[trigger] unify_full(m0, t1@, t2@, f) == Some((Ok::<(), Seq<char>>(()), m0)) by {}
                assert(unify_settles(m0, t1@, t2@, 1, (Ok::<(), Seq<char>>(()), m0)));
            }
            return Ok(());
        }
        if let Type::Var(v) = &a {
            assert(tv_vars(a@).contains(*v)) by { assert(tv_vars(a@)[0] == *v); }
            let r = self.bind_var(*v, &b, span);
            proof {
                if r is Ok {
                    let one = map![v.0 => b@];
                    let m1 = self.m();
                    lemma_extends_compose(m0, one);
                    lemma_subst_compose(t1@, m0, one);
                    lemma_subst_compose(t2@, m0, one);
                    assert(free_of(b@, one)) by {
                        assert forall|w: TypeVar| #[trigger] tv_vars(b@).contains(w) implies !one.contains_key(w.0) by {
                            if w.0 == v.0 {
                                assert(w == *v);
                            }
                        }
                    }
                    lemma_subst_id(b@, one);
                    assert(tv_subst(t1@, m1) == b@);
                    assert(tv_subst(t2@, m1) == b@);
                }
            }
            proof {
                assert forall|f: nat| f >= 1 implies #[trigger] unify_full(m0, t1@, t2@, f) == Some((unify_msg(r), self.m())) by {}
                assert(unify_settles(m0, t1@, t2@, 1, (unify_msg(r), self.m())));
            }
            return r;
        }
        if let Type::Var(v) = &b {
            assert(tv_vars(b@).contains(*v)) by { assert(tv_vars(b@)[0] == *v); }
            let r = self.bind_var(*v, &a, span);
            proof {
                if r is Ok {
                    let one = map![v.0 => a@];
                    let m1 = self.m();
                    lemma_extends_compose(m0, one);
                    lemma_subst_compose(t1@, m0, one);
                    lemma_subst_compose(t2@, m0, one);
                    assert(free_of(a@, one)) by {
                        assert forall|w: TypeVar| #[trigger] tv_vars(a@).contains(w) implies !one.contains_key(w.0) by {
                            if w.0 == v.0 {
                                assert(w == *v);
                            }
                        }
                    }
                    lemma_subst_id(a@, one);
                    assert(tv_subst(t1@, m1) == a@);
                    assert(tv_subst(t2@, m1) == a@);
                }
            }
            proof {
                assert forall|f: nat| f >= 1 implies #[trigger] unify_full(m0, t1@, t2@, f) == Some((unify_msg(r), self.m())) by {}
                assert(unify_settles(m0, t1@, t2@, 1, (unify_msg(r), self.m())));
            }
            return r;
        }
        match (&a, &b) {
            (Type::Fn(_, _), Type::Fn(_, _)) => {
                let r = self.unify_fns(&a, &b, span);
                proof {
                    let mf = self.m();
                    assert(tv_subst(tv_subst(t1@, m0), mf) == tv_subst(t1@, mf));
                    assert(tv_subst(tv_subst(t2@, m0), mf) == tv_subst(t2@, mf));
                    let f0 = choose|f0: nat| unify_settles(m0, a@, b@, f0, (unify_msg(r), mf));
                    assert forall|f: nat| f >= f0 implies #[trigger] unify_full(m0, t1@, t2@, f) == Some((unify_msg(r), mf)) by {
                        assert(unify_full(m0, a@, b@, f) == Some((unify_msg(r), mf)));
                        lemma_unify_full_applied(m0, t1@, t2@, f);
                    }
                    assert(unify_settles(m0, t1@, t2@, f0, (unify_msg(r), mf)));
                }
                r
            },
            (Type::Tuple(_), Type::Tuple(_)) => {
                let r = self.unify_tuples(&a, &b, span);
                proof {
                    let mf = self.m();
                    assert(tv_subst(tv_subst(t1@, m0), mf) == tv_subst(t1@, mf));
                    assert(tv_subst(tv_subst(t2@, m0), mf) == tv_subst(t2@, mf));
                    let f0 = choose|f0: nat| unify_settles(m0, a@, b@, f0, (unify_msg(r), mf));
                    assert forall|f: nat| f >= f0 implies #[trigger] unify_full(m0, t1@, t2@, f) == Some((unify_msg(r), mf)) by {
                        assert(unify_full(m0, a@, b@, f) == Some((unify_msg(r), mf)));
                        lemma_unify_full_applied(m0, t1@, t2@, f);
                    }
                    assert(unify_settles(m0, t1@, t2@, f0, (unify_msg(r), mf)));
                }
                r
            },
            (Type::Array(_), Type::Array(_)) | (Type::Optional(_), Type::Optional(_)) => {
                let r = self.unify_boxes(&a, &b, span);
                proof {
                    let mf = self.m();
                    assert(tv_subst(tv_subst(t1@, m0), mf) == tv_subst(t1@, mf));
                    assert(tv_subst(tv_subst(t2@, m0), mf) == tv_subst(t2@, mf));
                    let f0 = choose|f0: nat| unify_settles(m0, a@, b@, f0, (unify_msg(r), mf));
                    assert forall|f: nat| f >= f0 implies #[trigger] unify_full(m0, t1@, t2@, f) == Some((unify_msg(r), mf)) by {
                        assert(unify_full(m0, a@, b@, f) == Some((unify_msg(r), mf)));
                        lemma_unify_full_applied(m0, t1@, t2@, f);
                    }
                    assert(unify_settles(m0, t1@, t2@, f0, (unify_msg(r), mf)));
                }
                r
            },
            (Type::Record(_), Type::Record(_)) => {
                let r = self.unify_records(&a, &b, span);
                proof {
                    let mf = self.m();
                    assert(tv_subst(tv_subst(t1@, m0), mf) == tv_subst(t1@, mf));
                    assert(tv_subst(tv_subst(t2@, m0), mf) == tv_subst(t2@, mf));
                    let f0 = choose|f0: nat| unify_settles(m0, a@, b@, f0, (unify_msg(r), mf));
                    assert forall|f: nat| f >= f0 implies #[trigger] unify_full(m0, t1@, t2@, f) == Some((unify_msg(r), mf)) by {
                        assert(unify_full(m0, a@, b@, f) == Some((unify_msg(r), mf)));
                        lemma_unify_full_applied(m0, t1@, t2@, f);
                    }
                    assert(unify_settles(m0, t1@, t2@, f0, (unify_msg(r), mf)));
                }
                r
            },
            (Type::Jump, Type::Element) | (Type::Spin, Type::Element) | (Type::StepSequence, Type::Element)
            | (Type::Lift, Type::Element) | (Type::Throw, Type::Element) | (Type::Twist, Type::Element)
            | (Type::DeathSpiral, Type::Element) | (Type::Transition, Type::Element)
            | (Type::Choreographic, Type::Element) => {
                proof {
                    assert forall|f: nat| f >= 1 implies #[trigger] unify_full(m0, t1@, t2@, f) == Some((Ok::<(), Seq<char>>(()), m0)) by {}
                    assert(unify_settles(m0, t1@, t2@, 1, (Ok::<(), Seq<char>>(()), m0)));
                }
                Ok(())
            },
            (Type::Error, _) | (_, Type::Error) => {
                proof {
                    assert forall|f: nat| f >= 1 implies #[trigger] unify_full(m0, t1@, t2@, f) == Some((Ok::<(), Seq<char>>(()), m0)) by {}
                    assert(unify_settles(m0, t1@, t2@, 1, (Ok::<(), Seq<char>>(()), m0)));
                }
                Ok(())
            },
            _ => {
                let e = TypeError::mismatch(a.deep_clone(), b.deep_clone(), span);
                proof {
                    assert forall|f: nat| f >= 1 implies #[trigger] unify_full(m0, t1@, t2@, f)
                        == Some((Err::<(), Seq<char>>(e.message@), m0)) by {}
                    assert(unify_settles(m0, t1@, t2@, 1, (Err::<(), Seq<char>>(e.message@), m0)));
                }
                Err(e)
            },
        }
    }
}


/// The index of the first field named `name` at or after `i`, if any.
pub open spec fn first_field_from(fs: Seq<(Seq<char>, TypeV)>, name: Seq<char>, i: int) -> Option<int>
    decreases fs.len() - i,
{
    if i < 0 || i >= fs.len() {
        None
    } else if fs[i].0 == name {
        Some(i)
    } else {
        first_field_from(fs, name, i + 1)
    }
}

/// The index of the first field named `name`, if any.
pub open spec fn first_field(fs: Seq<(Seq<char>, TypeV)>, name: Seq<char>) -> Option<int> {
    first_field_from(fs, name, 0)
}

/// A time expression built from literal times alone (no variables).
pub open spec fn time_literal(t: TimeExpr) -> bool
    decreases t,
{
    match t {
        TimeExpr::Literal(_) => true,
        TimeExpr::Formatted(_) => true,
        TimeExpr::Var(_) => false,
        TimeExpr::BinOp(l, _, r) => time_literal(*l) && time_literal(*r),
    }
}

/// A position expression built from literal and named positions alone (no
/// variables).
pub open spec fn position_literal(p: PositionExpr) -> bool
    decreases p,
{
    match p {
        PositionExpr::Literal(_, _) => true,
        PositionExpr::Named(_) => true,
        PositionExpr::Var(_) => false,
        PositionExpr::Relative(b, _, _) => position_literal(*b),
    }
}

/// A timing whose times are all literal (a beat timing has none).
pub open spec fn timing_literal(t: Timing) -> bool {
    match t {
        Timing::At(x) => time_literal(x),
        Timing::Range(a, b) => time_literal(a) && time_literal(b),
        Timing::Duration(x) => time_literal(x),
        Timing::Beat(_) => true,
        Timing::After(x) => time_literal(x),
    }
}

/// The built-in type a name denotes, if any, as a value.
pub open spec fn builtin_of(name: Seq<char>) -> Option<TypeV> {
    if name == "Int"@ { Some(TypeV::Int) }
    else if name == "Float"@ { Some(TypeV::Float) }
    else if name == "Bool"@ { Some(TypeV::Bool) }
    else if name == "String"@ { Some(TypeV::Str) }
    else if name == "Time"@ { Some(TypeV::Time) }
    else if name == "Duration"@ { Some(TypeV::Duration) }
    else if name == "Position"@ { Some(TypeV::Position) }
    else if name == "Position3"@ { Some(TypeV::Position3) }
    else if name == "Angle"@ { Some(TypeV::Angle) }
    else if name == "Velocity"@ { Some(TypeV::Velocity) }
    else if name == "Beat"@ { Some(TypeV::Beat) }
    else if name == "Edge"@ { Some(TypeV::Edge) }
    else if name == "Level"@ { Some(TypeV::Level) }
    else if name == "Jump"@ { Some(TypeV::Jump) }
    else if name == "Spin"@ { Some(TypeV::Spin) }
    else if name == "StepSequence"@ { Some(TypeV::StepSequence) }
    else if name == "Lift"@ { Some(TypeV::Lift) }
    else if name == "Throw"@ { Some(TypeV::Throw) }
    else if name == "Twist"@ { Some(TypeV::Twist) }
    else if name == "DeathSpiral"@ { Some(TypeV::DeathSpiral) }
    else if name == "Transition"@ { Some(TypeV::Transition) }
    else if name == "Choreographic"@ { Some(TypeV::Choreographic) }
    else if name == "Element"@ { Some(TypeV::Element) }
    else if name == "Sequence"@ { Some(TypeV::Sequence) }
    else if name == "Segment"@ { Some(TypeV::Segment) }
    else if name == "Program"@ { Some(TypeV::Program) }
    else { None }
}

/// The type a type expression denotes, given the defined types: a built-in
/// name, a defined name, or a compound form of such; a refinement stands
/// for its base. Otherwise the first unknown name, with its span.
pub open spec fn resolve(te: TypeExpr, defs: Map<Seq<char>, TypeDefV>) -> Result<TypeV, (Seq<char>, Span)>
    decreases te,
{
    match te {
        TypeExpr::Named(id) => match builtin_of(id.node@) {
            Some(t) => Ok(t),
            None => if defs.contains_key(id.node@) { Ok(TypeV::Named(id.node@)) } else { Err((id.node@, id.span)) },
        },
        TypeExpr::Fn(ps, r) => match resolve_all(ps@, defs) {
            Ok(pv) => match resolve(*r, defs) {
                Ok(rv) => Ok(TypeV::Fn(pv, Box::new(rv))),
                Err(e) => Err(e),
            },
            Err(e) => Err(e),
        },
        TypeExpr::Tuple(ts) => match resolve_all(ts@, defs) {
            Ok(v) => Ok(TypeV::Tuple(v)),
            Err(e) => Err(e),
        },
        TypeExpr::Array(e) => match resolve(*e, defs) {
            Ok(t) => Ok(TypeV::Array(Box::new(t))),
            Err(x) => Err(x),
        },
        TypeExpr::Optional(e) => match resolve(*e, defs) {
            Ok(t) => Ok(TypeV::Optional(Box::new(t))),
            Err(x) => Err(x),
        },
        TypeExpr::App(b, args) => match resolve(*b, defs) {
            Ok(bv) => match resolve_all(args@, defs) {
                Ok(av) => Ok(TypeV::App(Box::new(bv), av)),
                Err(e) => Err(e),
            },
            Err(e) => Err(e),
        },
        TypeExpr::Refinement { base, .. } => resolve(*base, defs),
    }
}

/// The types a list of type expressions denotes, in order, or the first
/// unknown name among them.
pub open spec fn resolve_all(ts: Seq<TypeExpr>, defs: Map<Seq<char>, TypeDefV>) -> Result<Seq<TypeV>, (Seq<char>, Span)>
    decreases ts,
{
    if ts.len() == 0 {
        Ok(Seq::empty())
    } else {
        match resolve_all(ts.subrange(0, ts.len() - 1), defs) {
            Ok(v) => match resolve(ts[ts.len() - 1], defs) {
                Ok(t) => Ok(v.push(t)),
                Err(e) => Err(e),
            },
            Err(e) => Err(e),
        }
    }
}

/// Once a prefix of a list fails to resolve, the whole list fails the same way.
proof fn lemma_resolve_all_prefix(ts: Seq<TypeExpr>, defs: Map<Seq<char>, TypeDefV>, k: int)
    requires
        0 <= k <= ts.len(),
        resolve_all(ts.take(k), defs) is Err,
    ensures
        resolve_all(ts, defs) == resolve_all(ts.take(k), defs),
    decreases ts.len() - k,
{
    if k < ts.len() {
        let t = ts.take(k + 1);
        assert(t.subrange(0, t.len() - 1) =~= ts.take(k));
        lemma_resolve_all_prefix(ts, defs, k + 1);
    } else {
        assert(ts.take(k) =~= ts);
    }
}

/// The built-in type a name denotes, if any.
fn builtin_type(name: &str) -> (r: Option<Type>)
    ensures
        match builtin_of(name@) {
            Some(t) => r matches Some(x) && x@ == t,
            None => r is None,
        },
{
    if str_eq(name, "Int") { Some(Type::Int) }
    else if str_eq(name, "Float") { Some(Type::Float) }
    else if str_eq(name, "Bool") { Some(Type::Bool) }
    else if str_eq(name, "String") { Some(Type::String) }
    else if str_eq(name, "Time") { Some(Type::Time) }
    else if str_eq(name, "Duration") { Some(Type::Duration) }
    else if str_eq(name, "Position") { Some(Type::Position) }
    else if str_eq(name, "Position3") { Some(Type::Position3) }
    else if str_eq(name, "Angle") { Some(Type::Angle) }
    else if str_eq(name, "Velocity") { Some(Type::Velocity) }
    else if str_eq(name, "Beat") { Some(Type::Beat) }
    else if str_eq(name, "Edge") { Some(Type::Edge) }
    else if str_eq(name, "Level") { Some(Type::Level) }
    else if str_eq(name, "Jump") { Some(Type::Jump) }
    else if str_eq(name, "Spin") { Some(Type::Spin) }
    else if str_eq(name, "StepSequence") { Some(Type::StepSequence) }
    else if str_eq(name, "Lift") { Some(Type::Lift) }
    else if str_eq(name, "Throw") { Some(Type::Throw) }
    else if str_eq(name, "Twist") { Some(Type::Twist) }
    else if str_eq(name, "DeathSpiral") { Some(Type::DeathSpiral) }
    else if str_eq(name, "Transition") { Some(Type::Transition) }
    else if str_eq(name, "Choreographic") { Some(Type::Choreographic) }
    else if str_eq(name, "Element") { Some(Type::Element) }
    else if str_eq(name, "Sequence") { Some(Type::Sequence) }
    else if str_eq(name, "Segment") { Some(Type::Segment) }
    else if str_eq(name, "Program") { Some(Type::Program) }
    else { None }
}

/// Copies of a list of types.
fn clone_types(ts: &Vec<Type>) -> (r: Vec<Type>)
    ensures
        r@.len() == ts@.len(),
        forall|i: int| 0 <= i < ts@.len() ==> #[trigger] r@[i]@ == ts@[i]@,
{
    let mut r: Vec<Type> = Vec::new();
    let mut i: usize = 0;
    while i < ts.len()
        invariant
            i <= ts@.len(),
            r@.len() == i,
            forall|j: int| 0 <= j < i ==> #[trigger] r@[j]@ == ts@[j]@,
        decreases ts@.len() - i,
    {
        r.push(ts[i].deep_clone());
        i = i + 1;
    }
    r
}

impl TypeChecker {
    /// Check a program: every function definition, then every segment. The
    /// errors collected on the way are handed back, and the checker's list
    /// is left empty.
    #[verifier::rlimit(80)]
    pub fn check_program(&mut self, program: &Program) -> (r: Result<(), Vec<TypeError>>)
        requires
            old(self).wf(),
        ensures
            final(self).wf(),
            match r {
                Ok(()) => final(self).errors_v().len() == 0 && old(self).errors_v().len() == 0,
                Err(es) => es@.len() > 0 && final(self).errors_v().len() == 0
                    && old(self).errors_v().is_prefix_of(es@),
            },
            r is Ok ==> forall|k: int| 0 <= k < program.segments@.len()
                ==> #[trigger] sequences_errors(program.segments@[k].sequences@).len() == 0,
            old(self).errors_v().len() == 0 ==> match program_outcome(*program, old(self).type_defs(), old(self).istate()) {
                Some(ms) => match r {
                    Ok(()) => ms.len() == 0,
                    Err(es) => messages(es@) == ms,
                },
                None => true,
            },
            old(self).errors_v().len() == 0 ==> forall|k: int| 0 <= k <= program.functions@.len() ==> (
                #[trigger] fns_outcome(program.functions@.take(k), old(self).type_defs(), old(self).istate()) matches Some((_, ms))
                ==> match r {
                    Ok(()) => ms.len() == 0,
                    Err(es) => ms.is_prefix_of(messages(es@)),
                }),
    {
        let ghost e0 = self.errors@;
        let ghost defs = self.env.type_defs();
        let ghost st0 = self.istate();
        let ghost decided = e0.len() == 0 && program_outcome(*program, defs, st0) is Some;
        let ghost fs = program.functions@;
        proof {
            if decided {
                lemma_fns_outcome_prefix(fs, defs, st0, 0);
            }
            assert(fs.take(0) =~= Seq::<FnDef>::empty());
        }
        let mut i: usize = 0;
        while i < program.functions.len()
            invariant
                i <= fs.len(),
                fs == program.functions@,
                self.wf(),
                e0.is_prefix_of(self.errors@),
                decided == (e0.len() == 0 && program_outcome(*program, defs, st0) is Some),
                decided ==> fns_outcome(fs.take(i as int), defs, st0) is Some,
                e0.len() == 0 ==> (fns_outcome(fs.take(i as int), defs, st0) matches Some((st, ms))
                    ==> (self.env.type_defs() == defs && self.istate() == st && messages(self.errors@) == ms)),
                e0.len() == 0 ==> forall|j: int| 0 <= j <= i ==> (
                    #[trigger] fns_outcome(fs.take(j), defs, st0) matches Some((_, ms)) ==> ms.is_prefix_of(messages(self.errors@))),
            decreases fs.len() - i,
        {
            let ghost before = self.errors@;
            let ghost t = fs.take(i + 1);
            proof {
                if decided {
                    lemma_fns_outcome_prefix(fs, defs, st0, i + 1);
                }
                assert(t.drop_last() =~= fs.take(i as int));
                assert(t.last() == fs[i as int]);
            }
            let r = self.check_fn_def(&program.functions[i]);
            let ghost mid = self.errors@;
            match r {
                Ok(_) => {},
                Err(e) => { self.errors.push(e); },
            }
            proof {
                assert(before.is_prefix_of(self.errors@)) by {
                    assert(forall|j: int| 0 <= j < before.len() ==> self.errors@[j] == mid[j]);
                }
                assert(e0.is_prefix_of(self.errors@)) by { assert(forall|j: int| 0 <= j < e0.len() ==> self.errors@[j] == before[j]); }
                lemma_messages_prefix(before, self.errors@);
                if e0.len() == 0 {
                    if fns_outcome(t, defs, st0) is Some {
                        assert(messages(self.errors@) =~= (match r {
                            Ok(_) => messages(before),
                            Err(e) => messages(before).push(e.message@),
                        }));
                    }
                    assert forall|j: int| 0 <= j <= i + 1 implies (
                        #[trigger] fns_outcome(fs.take(j), defs, st0) matches Some((_, ms)) ==> ms.is_prefix_of(messages(self.errors@))) by {
                        if j <= i {
                            match fns_outcome(fs.take(j), defs, st0) {
                                Some((_, ms)) => {
                                    lemma_prefix_trans(ms, messages(before), messages(self.errors@));
                                },
                                None => {},
                            }
                        } else {
                            assert(fs.take(j) == t);
                        }
                    }
                }
            }
            i = i + 1;
        }
        let ghost ms_f = messages(self.errors@);
        let ghost look = lookup_fn(self.env.scopes());
        let ghost segs = program.segments@;
        let mut k: usize = 0;
        proof {
            assert(segs.take(0) =~= Seq::<Segment>::empty());
            assert(fs.take(i as int) =~= fs);
            if decided {
                lemma_segments_outcome_prefix(segs, look, 0);
            }
        }
        while k < program.segments.len()
            invariant
                k <= program.segments@.len(),
                self.wf(),
                e0.is_prefix_of(self.errors@),
                decided == (e0.len() == 0 && program_outcome(*program, defs, st0) is Some),
                decided ==> (fns_outcome(fs, defs, st0) matches Some((_, ms)) && ms == ms_f),
                segs == program.segments@,
                decided ==> (fns_outcome(fs, defs, st0) matches Some((sf, _)) && look == lookup_fn(sf.0)),
                decided ==> lookup_fn(self.env.scopes()) == look,
                decided ==> segments_outcome(segs, look) is Some,
                decided ==> (segments_outcome(segs.take(k as int), look) matches Some(ms2)
                    && messages(self.errors@) == ms_f + ms2),
                e0.len() == 0 ==> forall|j: int| 0 <= j <= fs.len() ==> (
                    #[trigger] fns_outcome(fs.take(j), defs, st0) matches Some((_, ms)) ==> ms.is_prefix_of(messages(self.errors@))),
                self.errors@.len() == e0.len() ==> forall|j: int| 0 <= j < k
                    ==> #[trigger] sequences_errors(program.segments@[j].sequences@).len() == 0,
            decreases program.segments@.len() - k,
        {
            let ghost before = self.errors@;
            let ghost sc_before = self.env.scopes();
            proof {
                if decided {
                    lemma_segments_outcome_prefix(segs, look, k + 1);
                    let t = segs.take(k + 1);
                    assert(t.drop_last() =~= segs.take(k as int));
                    assert(t.last() == segs[k as int]);
                }
            }
            let r = self.check_segment(&program.segments[k]);
            let ghost after = self.errors@;
            match r {
                Ok(_) => {},
                Err(e) => { self.errors.push(e); },
            }
            proof {
                assert(e0.is_prefix_of(self.errors@)) by { assert(forall|j: int| 0 <= j < e0.len() ==> self.errors@[j] == before[j]); }
                assert(before.is_prefix_of(self.errors@)) by {
                    assert(forall|j: int| 0 <= j < before.len() ==> self.errors@[j] == after[j]);
                }
                lemma_messages_prefix(before, self.errors@);
                if e0.len() == 0 {
                    assert forall|j: int| 0 <= j <= fs.len() implies (
                        #[trigger] fns_outcome(fs.take(j), defs, st0) matches Some((_, ms)) ==> ms.is_prefix_of(messages(self.errors@))) by {
                        match fns_outcome(fs.take(j), defs, st0) {
                            Some((_, ms)) => {
                                lemma_prefix_trans(ms, messages(before), messages(self.errors@));
                            },
                            None => {},
                        }
                    }
                }
                assert(messages(before).len() == before.len());
                assert(messages(after).len() == after.len());
                if r is Ok {
                    assert(after.len() == before.len() + sequences_errors(program.segments@[k as int].sequences@).len());
                }
                if self.errors@.len() == e0.len() {
                    assert(r is Ok);
                    assert(before.len() >= e0.len());
                    assert(sequences_errors(program.segments@[k as int].sequences@).len() == 0);
                }
                if decided {
                    let t = segs.take(k + 1);
                    assert forall|x: Seq<char>| #[trigger] lookup_fn(self.env.scopes())(x) == look(x) by {
                        lemma_lookup_push_empty(sc_before, x);
                    }
                    assert(lookup_fn(self.env.scopes()) =~= look);
                    let prev = segments_outcome(segs.take(k as int), look)->Some_0;
                    let so = sequences_outcome(segs[k as int].sequences@, look);
                    assert(lookup_fn(sc_before) == look);
                    assert(so is Some);
                    let ms3 = so->Some_0.0;
                    assert(messages(after) == messages(before) + ms3);
                    if r is Ok {
                        assert(segments_outcome(t, look) == Some(prev + ms3));
                        assert(messages(self.errors@) =~= ms_f + (prev + ms3));
                    } else {
                        let m = r->Err_0.message@;
                        assert(self.errors@ =~= after.push(r->Err_0));
                        assert(messages(self.errors@) =~= messages(after).push(m));
                        assert(segments_outcome(t, look) == Some((prev + ms3).push(m)));
                        assert(messages(self.errors@) =~= ms_f + (prev + ms3).push(m));
                    }
                }
            }
            k = k + 1;
        }
        proof {
            assert(program.segments@.take(k as int) =~= program.segments@);
        }
        if self.errors.len() == 0 {
            Ok(())
        } else {
            let mut es: Vec<TypeError> = Vec::new();
            std::mem::swap(&mut es, &mut self.errors);
            Err(es)
        }
    }

    /// Check a function definition and bind its name to its generalized type.
    fn check_fn_def(&mut self, func: &FnDef) -> (r: Result<Type, TypeError>)
        requires
            old(self).wf(),
        ensures
            final(self).wf(),
            old(self).errors_v().is_prefix_of(final(self).errors_v()),
            final(self).type_defs() == old(self).type_defs(),
            r matches Ok(t) ==> (t is Fn && t->Fn_0@.len() == func.params@.len()
                && (forall|j: int| 0 <= j < func.params@.len() ==> (match #[trigger] func.params@[j].ty {
                    Some(te) => resolve(te, old(self).env.type_defs()) == Ok::<TypeV, (Seq<char>, Span)>(t->Fn_0@[j]@),
                    None => t->Fn_0@[j] is Var,
                }))
                && (lookup_scopes(final(self).env.scopes(), func.name.node@) matches Some(s) && s.1 == t@)),
            (exists|j: int| 0 <= j < func.params@.len() && (#[trigger] func.params@[j].ty matches Some(te)
                && resolve(te, old(self).env.type_defs()) is Err)) ==> r is Err,
            fn_outcome(*func, old(self).type_defs(), old(self).istate()) matches Some((st, err)) ==> (
                final(self).istate() == st && final(self).errors_v() == old(self).errors_v()
                && match err {
                    None => r is Ok,
                    Some(m) => (r matches Err(e) && e.message@ == m),
                }),
    {
        let ghost defs = self.type_defs();
        let ghost sc0 = self.env.scopes();
        let ghost st0 = self.istate();
        self.env.push_scope();
        proof {
            lemma_params_bind_frame(func.params@, defs, self.env.scopes(), self.counter);
            lemma_params_bind_types(func.params@, defs, self.env.scopes(), self.counter);
            assert(self.env.scopes().drop_last() =~= sc0);
        }
        let param_types = match self.bind_params(&func.params) {
            Ok(ts) => ts,
            Err(e) => { return Err(e); },
        };
        proof {
            lemma_tviews_index(param_types@);
        }
        let body_ty = match self.infer_expr(&func.body) {
            Ok(t) => t,
            Err(e) => { return Err(e); },
        };
        match &func.return_ty {
            Some(te) => {
                let ret_ty = match self.resolve_type_expr(te) {
                    Ok(t) => t,
                    Err(e) => { return Err(e); },
                };
                match self.unify(&ret_ty, &body_ty, func.span) {
                    Ok(()) => {},
                    Err(e) => { return Err(e); },
                }
            },
            None => {},
        }
        let ghost inner = self.env.scopes();
        self.env.pop_scope();
        proof {
            assert(self.env.scopes() == inner.drop_last());
            assert(self.env.scopes() =~= sc0);
        }
        let fn_ty = Type::Fn(param_types, Box::new(body_ty));
        let scheme = self.env.generalize(&fn_ty);
        self.env.define(func.name.node.as_str(), scheme);
        Ok(fn_ty)
    }

    /// Check a segment: each of its sequences in a scope of its own.
    fn check_segment(&mut self, segment: &Segment) -> (r: Result<Type, TypeError>)
        requires
            old(self).wf(),
        ensures
            final(self).wf(),
            old(self).errors_v().is_prefix_of(final(self).errors_v()),
            r is Ok ==> messages(final(self).errors_v()) == messages(old(self).errors_v()) + sequences_errors(segment.sequences@),
            literal_segment(*segment) ==> r is Ok,
            final(self).env.type_defs() == old(self).env.type_defs(),
            sequences_outcome(segment.sequences@, lookup_fn(old(self).env.scopes())) matches Some((ms, err)) ==> (
                messages(final(self).errors_v()) == messages(old(self).errors_v()) + ms
                && match err {
                    None => (r is Ok && final(self).env.scopes() == old(self).env.scopes()),
                    Some(m) => (r matches Err(e) && e.message@ == m
                        && final(self).env.scopes() == old(self).env.scopes().push(Map::empty())),
                }),
    {
        let ghost ss = segment.sequences@;
        let ghost look = lookup_fn(self.env.scopes());
        self.env.push_scope();
        proof {
            let sc = old(self).env.scopes();
            assert forall|x: Seq<char>| #[trigger] lookup_fn(self.env.scopes())(x) == look(x) by {
                lemma_lookup_push_empty(sc, x);
            }
            assert(lookup_fn(self.env.scopes()) =~= look);
        }
        let mut i: usize = 0;
        assert(ss.take(0) =~= Seq::<Sequence>::empty());
        while i < segment.sequences.len()
            invariant
                i <= ss.len(),
                ss == segment.sequences@,
                self.wf(),
                old(self).errors_v().is_prefix_of(self.errors_v()),
                messages(self.errors_v()) == messages(old(self).errors_v()) + sequences_errors(ss.take(i as int)),
                self.env.scopes() == old(self).env.scopes().push(Map::empty()),
                self.env.type_defs() == old(self).env.type_defs(),
                look == lookup_fn(old(self).env.scopes()),
                lookup_fn(self.env.scopes()) == look,
                sequences_outcome(ss.take(i as int), look) is Some ==> (sequences_outcome(ss.take(i as int), look) matches Some((ms, err))
                    && err is None && messages(self.errors_v()) == messages(old(self).errors_v()) + ms),
                sequences_outcome(ss, look) is Some ==> sequences_outcome(ss.take(i as int), look) is Some,
            decreases segment.sequences@.len() - i,
        {
            let ghost before = self.errors_v();
            proof {
                let t = ss.take(i + 1);
                assert(t.drop_last() =~= ss.take(i as int));
                assert(t.last() == ss[i as int]);
                if sequences_outcome(ss, look) is Some {
                    lemma_sequences_outcome_prefix(ss, look, i + 1);
                }
            }
            proof {
                if literal_segment(*segment) {
                    assert forall|j: int| 0 <= j < ss[i as int].elements@.len() implies literal_element(#[trigger] ss[i as int].elements@[j]) by {
                        assert(segment.sequences@[i as int].elements@[j] == ss[i as int].elements@[j]);
                    }
                }
            }
            let r = self.check_sequence(&segment.sequences[i]);
            proof {
                let t = ss.take(i + 1);
                assert(t.drop_last() =~= ss.take(i as int));
                assert(t.last() == ss[i as int]);
                assert(old(self).errors_v().is_prefix_of(self.errors_v())) by {
                    assert(forall|j: int| 0 <= j < old(self).errors_v().len() ==> self.errors_v()[j] == before[j]);
                }
            }
            match r {
                Ok(_) => {},
                Err(e) => {
                    proof {
                        if sequences_outcome(ss, look) is Some {
                            lemma_sequences_outcome_stops(ss, look, i + 1);
                        }
                    }
                    return Err(e);
                },
            }
            i = i + 1;
        }
        proof {
            assert(ss.take(i as int) =~= ss);
        }
        self.env.pop_scope();
        Ok(Type::Segment)
    }

    /// Check a sequence: each of its elements, until one fails.
    fn check_sequence(&mut self, sequence: &Sequence) -> (r: Result<Type, TypeError>)
        requires
            old(self).wf(),
        ensures
            final(self).wf(),
            old(self).errors_v().is_prefix_of(final(self).errors_v()),
            r is Ok ==> messages(final(self).errors_v()) == messages(old(self).errors_v()) + elements_errors(sequence.elements@),
            (forall|j: int| 0 <= j < sequence.elements@.len() ==> literal_element(#[trigger] sequence.elements@[j])) ==> r is Ok,
            final(self).env == old(self).env,
            elements_outcome(sequence.elements@, lookup_fn(old(self).env.scopes())) matches Some((ms, err)) ==> (
                messages(final(self).errors_v()) == messages(old(self).errors_v()) + ms
                && match err {
                    None => r is Ok,
                    Some(m) => (r matches Err(e) && e.message@ == m),
                }),
    {
        let ghost es = sequence.elements@;
        let ghost look = lookup_fn(self.env.scopes());
        let mut i: usize = 0;
        assert(es.take(0) =~= Seq::<Element>::empty());
        while i < sequence.elements.len()
            invariant
                i <= es.len(),
                es == sequence.elements@,
                self.wf(),
                old(self).errors_v().is_prefix_of(self.errors_v()),
                messages(self.errors_v()) == messages(old(self).errors_v()) + elements_errors(es.take(i as int)),
                self.env == old(self).env,
                look == lookup_fn(old(self).env.scopes()),
                elements_outcome(es.take(i as int), look) is Some ==> (elements_outcome(es.take(i as int), look) matches Some((ms, err))
                    && err is None && messages(self.errors_v()) == messages(old(self).errors_v()) + ms),
                elements_outcome(es, look) is Some ==> elements_outcome(es.take(i as int), look) is Some,
            decreases sequence.elements@.len() - i,
        {
            let ghost before = self.errors_v();
            let ghost t = es.take(i + 1);
            proof {
                assert(t.drop_last() =~= es.take(i as int));
                assert(t.last() == es[i as int]);
                if elements_outcome(es, look) is Some {
                    lemma_elements_outcome_prefix(es, look, i + 1);
                }
            }
            let r = self.check_element(&sequence.elements[i]);
            proof {
                assert(old(self).errors_v().is_prefix_of(self.errors_v())) by {
                    assert(forall|j: int| 0 <= j < old(self).errors_v().len() ==> self.errors_v()[j] == before[j]);
                }
            }
            match r {
                Ok(_) => {},
                Err(e) => {
                    proof {
                        if elements_outcome(es, look) is Some {
                            lemma_elements_outcome_stops(es, look, i + 1);
                        }
                    }
                    return Err(e);
                },
            }
            i = i + 1;
        }
        proof {
            assert(es.take(i as int) =~= es);
        }
        Ok(Type::Sequence)
    }

    /// Check an element: its kind, then its timing and position.
    fn check_element(&mut self, element: &Element) -> (r: Result<Type, TypeError>)
        requires
            old(self).wf(),
        ensures
            final(self).wf(),
            old(self).errors_v().is_prefix_of(final(self).errors_v()),
            messages(final(self).errors_v()) == messages(old(self).errors_v()) + element_errors(*element),
            literal_element(*element) ==> r is Ok,
            final(self).env == old(self).env,
            element_outcome(*element, lookup_fn(old(self).env.scopes())) matches Some(o) ==> match o {
                Ok(()) => r is Ok,
                Err(m) => (r matches Err(e) && e.message@ == m),
            },
    {
        let ty = match &element.kind {
            ElementKind::Jump(jump) => self.check_jump(jump, element.span),
            ElementKind::Spin(spin) => self.check_spin(spin, element.span),
            ElementKind::StepSequence(_) => Type::StepSequence,
            ElementKind::Lift(_) => Type::Lift,
            ElementKind::DeathSpiral(_) => Type::DeathSpiral,
            ElementKind::Throw(_) => Type::Throw,
            ElementKind::Twist(_) => Type::Twist,
            ElementKind::Transition(_) => Type::Transition,
            ElementKind::Choreographic(_) => Type::Choreographic,
            ElementKind::Pattern(_) => Type::Element,
            ElementKind::Parallel(_) => Type::Element,
            ElementKind::Sync(_) => Type::Element,
        };
        match &element.timing {
            Some(timing) => {
                match self.check_timing(timing) {
                    Ok(_) => {},
                    Err(e) => { return Err(e); },
                }
            },
            None => {},
        }
        match &element.position {
            Some(position) => {
                match self.check_position_expr(position) {
                    Ok(_) => {},
                    Err(e) => { return Err(e); },
                }
            },
            None => {},
        }
        Ok(ty)
    }

    /// Check a jump: an error for each jump of it and of its combination
    /// entered on another edge than its kind takes off from.
    fn check_jump(&mut self, jump: &JumpElement, span: Span) -> (t: Type)
        requires
            old(self).wf(),
        ensures
            final(self).wf(),
            old(self).errors_v().is_prefix_of(final(self).errors_v()),
            messages(final(self).errors_v()) == messages(old(self).errors_v()) + jump_errors(*jump),
            plain_from(final(self).errors_v(), old(self).errors_v().len() as int, span),
            final(self).env == old(self).env,
            t is Jump,
        decreases jump,
    {
        let ghost e0 = self.errors@;
        match jump.entry_edge {
            Some(entry_edge) => {
                let required = jump.kind.required_entry_edge();
                if entry_edge != required {
                    let mut message = string_of("invalid entry edge for ");
                    push_str(&mut message, jump_kind_name_str(jump.kind));
                    push_str(&mut message, ": expected ");
                    push_str(&mut message, required.to_string().as_str());
                    push_str(&mut message, ", found ");
                    push_str(&mut message, entry_edge.to_string().as_str());
                    self.errors.push(TypeError { message, span, expected: None, found: None });
                }
            },
            None => {},
        }
        let ghost head = messages(self.errors@);
        assert(head == messages(e0) + (match jump.entry_edge {
            Some(e) => if e != jump_entry_edge(jump.kind) { seq![entry_edge_text(jump.kind, e)] } else { Seq::<Seq<char>>::empty() },
            None => Seq::<Seq<char>>::empty(),
        }));
        let mut i: usize = 0;
        assert(jump.combination@.take(0) =~= Seq::<JumpElement>::empty());
        while i < jump.combination.len()
            invariant
                i <= jump.combination@.len(),
                self.wf(),
                e0.is_prefix_of(self.errors_v()),
                messages(self.errors_v()) == head + jumps_errors(jump.combination@.take(i as int)),
                plain_from(self.errors_v(), e0.len() as int, span),
                self.env == old(self).env,
            decreases jump.combination@.len() - i,
        {
            let ghost before = self.errors@;
            self.check_jump(&jump.combination[i], span);
            proof {
                let t = jump.combination@.take(i + 1);
                assert(t.subrange(0, t.len() - 1) =~= jump.combination@.take(i as int));
                assert(t[t.len() - 1] == jump.combination@[i as int]);
                assert(e0.is_prefix_of(self.errors_v())) by {
                    assert(forall|j: int| 0 <= j < e0.len() ==> self.errors@[j] == before[j]);
                }
                assert forall|j: int| e0.len() <= j < self.errors_v().len()
                    implies (#[trigger] self.errors_v()[j]).span == span && self.errors_v()[j].expected is None && self.errors_v()[j].found is None by {
                    if j < before.len() {
                        assert(self.errors@[j] == before[j]);
                    }
                }
            }
            i = i + 1;
        }
        proof {
            assert(jump.combination@.take(i as int) =~= jump.combination@);
        }
        Type::Jump
    }

    /// Check a spin: an error when its level needs more revolutions than the
    /// minimum it gives.
    fn check_spin(&mut self, spin: &SpinElement, span: Span) -> (t: Type)
        requires
            old(self).wf(),
        ensures
            final(self).wf(),
            old(self).errors_v().is_prefix_of(final(self).errors_v()),
            messages(final(self).errors_v()) == messages(old(self).errors_v()) + spin_errors(*spin),
            plain_from(final(self).errors_v(), old(self).errors_v().len() as int, span),
            final(self).env == old(self).env,
            t is Spin,
    {
        match (spin.level, spin.min_revs) {
            (Some(level), Some(min_revs)) => {
                let required: i64 = match level {
                    Level::L4 => 8,
                    Level::L3 => 6,
                    Level::L2 => 4,
                    _ => 2,
                };
                if min_revs < required {
                    let mut message = string_of("insufficient revolutions for level ");
                    push_str(&mut message, crate::syntax::format::level_str(level));
                    push_str(&mut message, ": requires ");
                    push_signed_decimal(&mut message, required);
                    push_str(&mut message, ", specified ");
                    push_signed_decimal(&mut message, min_revs);
                    self.errors.push(TypeError { message, span, expected: None, found: None });
                }
            },
            _ => {},
        }
        Type::Spin
    }
}


impl TypeChecker {
    /// Resolve a type expression to a type: the built-in names, the names of
    /// defined types, and the compound forms; a refinement stands for its base.
    #[verifier::loop_isolation(false)]
    fn resolve_type_expr(&mut self, ty_expr: &TypeExpr) -> (r: Result<Type, TypeError>)
        requires
            old(self).wf(),
        ensures
            final(self).wf(),
            final(self).errors_v() == old(self).errors_v(),
            *final(self) == *old(self),
            match resolve(*ty_expr, old(self).env.type_defs()) {
                Ok(t) => r matches Ok(x) && x@ == t,
                Err((n, sp)) => (r matches Err(e) && e.message@ == "unknown type: "@ + n && e.span == sp
                    && e.expected is None && e.found is None),
            },
        decreases ty_expr,
    {
        let ghost defs = self.env.type_defs();
        match ty_expr {
            TypeExpr::Named(ident) => {
                match builtin_type(ident.node.as_str()) {
                    Some(t) => Ok(t),
                    None => {
                        if self.env.lookup_type(ident.node.as_str()).is_some() {
                            Ok(Type::Named(ident.node.clone()))
                        } else {
                            let mut message = string_of("unknown type: ");
                            push_str(&mut message, ident.node.as_str());
                            Err(TypeError { message, span: ident.span, expected: None, found: None })
                        }
                    },
                }
            },
            TypeExpr::Fn(params, ret) => {
                let mut param_types: Vec<Type> = Vec::new();
                let mut i: usize = 0;
                assert(params@.take(0) =~= Seq::<TypeExpr>::empty());
                while i < params.len()
                    invariant
                        i <= params@.len(),
                        self.wf(),
                        *self == *old(self),
                        defs == self.env.type_defs(),
                        resolve_all(params@.take(i as int), defs) == Ok::<Seq<TypeV>, (Seq<char>, Span)>(tviews(param_types@)),
                        param_types@.len() == i,
                    decreases params@.len() - i,
                {
                    proof {
                        let t = params@.take(i + 1);
                        assert(t.subrange(0, t.len() - 1) =~= params@.take(i as int));
                        assert(t[t.len() - 1] == params@[i as int]);
                    }
                    match self.resolve_type_expr(&params[i]) {
                        Ok(t) => {
                            let ghost before = param_types@;
                            param_types.push(t);
                            proof {
                                lemma_tviews_index(param_types@);
                                lemma_tviews_index(before);
                                assert(tviews(param_types@) =~= tviews(before).push(param_types@[i as int]@));
                            }
                        },
                        Err(e) => {
                            proof {
                                lemma_resolve_all_prefix(params@, defs, i + 1);
                            }
                            return Err(e);
                        },
                    }
                    i = i + 1;
                }
                assert(params@.take(i as int) =~= params@);
                let ret_type = self.resolve_type_expr(ret)?;
                Ok(Type::Fn(param_types, Box::new(ret_type)))
            },
            TypeExpr::Tuple(types) => {
                let mut ts: Vec<Type> = Vec::new();
                let mut i: usize = 0;
                assert(types@.take(0) =~= Seq::<TypeExpr>::empty());
                while i < types.len()
                    invariant
                        i <= types@.len(),
                        self.wf(),
                        *self == *old(self),
                        defs == self.env.type_defs(),
                        resolve_all(types@.take(i as int), defs) == Ok::<Seq<TypeV>, (Seq<char>, Span)>(tviews(ts@)),
                        ts@.len() == i,
                    decreases types@.len() - i,
                {
                    proof {
                        let t = types@.take(i + 1);
                        assert(t.subrange(0, t.len() - 1) =~= types@.take(i as int));
                        assert(t[t.len() - 1] == types@[i as int]);
                    }
                    match self.resolve_type_expr(&types[i]) {
                        Ok(t) => {
                            let ghost before = ts@;
                            ts.push(t);
                            proof {
                                lemma_tviews_index(ts@);
                                lemma_tviews_index(before);
                                assert(tviews(ts@) =~= tviews(before).push(ts@[i as int]@));
                            }
                        },
                        Err(e) => {
                            proof {
                                lemma_resolve_all_prefix(types@, defs, i + 1);
                            }
                            return Err(e);
                        },
                    }
                    i = i + 1;
                }
                assert(types@.take(i as int) =~= types@);
                Ok(Type::Tuple(ts))
            },
            TypeExpr::Array(elem) => {
                let elem_type = self.resolve_type_expr(elem)?;
                Ok(Type::Array(Box::new(elem_type)))
            },
            TypeExpr::Optional(inner) => {
                let inner_type = self.resolve_type_expr(inner)?;
                Ok(Type::Optional(Box::new(inner_type)))
            },
            TypeExpr::App(base, args) => {
                let base_type = self.resolve_type_expr(base)?;
                let mut arg_types: Vec<Type> = Vec::new();
                let mut i: usize = 0;
                assert(args@.take(0) =~= Seq::<TypeExpr>::empty());
                while i < args.len()
                    invariant
                        i <= args@.len(),
                        self.wf(),
                        *self == *old(self),
                        defs == self.env.type_defs(),
                        resolve_all(args@.take(i as int), defs) == Ok::<Seq<TypeV>, (Seq<char>, Span)>(tviews(arg_types@)),
                        arg_types@.len() == i,
                    decreases args@.len() - i,
                {
                    proof {
                        let t = args@.take(i + 1);
                        assert(t.subrange(0, t.len() - 1) =~= args@.take(i as int));
                        assert(t[t.len() - 1] == args@[i as int]);
                    }
                    match self.resolve_type_expr(&args[i]) {
                        Ok(t) => {
                            let ghost before = arg_types@;
                            arg_types.push(t);
                            proof {
                                lemma_tviews_index(arg_types@);
                                lemma_tviews_index(before);
                                assert(tviews(arg_types@) =~= tviews(before).push(arg_types@[i as int]@));
                            }
                        },
                        Err(e) => {
                            proof {
                                lemma_resolve_all_prefix(args@, defs, i + 1);
                            }
                            return Err(e);
                        },
                    }
                    i = i + 1;
                }
                assert(args@.take(i as int) =~= args@);
                Ok(Type::App(Box::new(base_type), arg_types))
            },
            TypeExpr::Refinement { base, .. } => self.resolve_type_expr(base),
        }
    }

    /// Check an element's timing.
    fn check_timing(&mut self, timing: &Timing) -> (r: Result<Type, TypeError>)
        requires
            old(self).wf(),
        ensures
            final(self).wf(),
            final(self).errors_v() == old(self).errors_v(),
            timing is Beat ==> (r matches Ok(t) && t is Beat),
            (!(timing is Beat) && r is Ok) ==> (r matches Ok(t) && t is Time),
            timing_literal(*timing) ==> r is Ok,
            final(self).env == old(self).env,
            timing_outcome(*timing, lookup_fn(old(self).env.scopes())) matches Some(o) ==> match o {
                Ok(()) => r is Ok,
                Err(m) => (r matches Err(e) && e.message@ == m),
            },
    {
        match timing {
            Timing::At(time) => self.check_time_expr(time),
            Timing::Range(start, end) => {
                match self.check_time_expr(start) {
                    Ok(_) => {},
                    Err(e) => { return Err(e); },
                }
                self.check_time_expr(end)
            },
            Timing::Duration(dur) => self.check_time_expr(dur),
            Timing::Beat(_) => Ok(Type::Beat),
            Timing::After(time) => self.check_time_expr(time),
        }
    }

    /// Check a time expression: a variable must be in scope and unify with `Time`.
    fn check_time_expr(&mut self, time: &TimeExpr) -> (r: Result<Type, TypeError>)
        requires
            old(self).wf(),
        ensures
            final(self).wf(),
            final(self).errors_v() == old(self).errors_v(),
            final(self).env == old(self).env,
            r is Ok ==> (r matches Ok(t) && t is Time),
            time_literal(*time) ==> r is Ok,
            time matches TimeExpr::Var(id) ==> match lookup_scopes(old(self).env.scopes(), id.node@) {
                None => (r matches Err(e) && e.message@ == "undefined variable: "@ + id.node@ && e.span == id.span
                    && e.expected is None && e.found is None),
                Some(sch) => sch.1 is Time ==> r is Ok,
            },
            time_outcome(*time, lookup_fn(old(self).env.scopes())) matches Some(o) ==> match o {
                Ok(()) => r is Ok,
                Err(m) => (r matches Err(e) && e.message@ == m),
            },
            time_outcome(*time, lookup_fn(old(self).env.scopes())) is Some ==> (final(self).m() == old(self).m()
                && final(self).counter == old(self).counter),
            r is Ok ==> (r matches Ok(t) && t@ == TypeV::Time),
        decreases time,
    {
        match time {
            TimeExpr::Literal(_) => Ok(Type::Time),
            TimeExpr::Formatted(_) => Ok(Type::Time),
            TimeExpr::Var(ident) => {
                let ty = match self.env.lookup(ident.node.as_str()) {
                    Some(scheme) => {
                        let ghost c0 = self.counter;
                        let t = scheme.instantiate(&mut self.counter);
                        proof {
                            if scheme.vars@.len() == 0 {
                                assert(instantiation(scheme.vars@, c0) == Map::<u32, TypeV>::empty());
                                lemma_subst_id(scheme.ty@, Map::<u32, TypeV>::empty());
                            }
                        }
                        Some(t)
                    },
                    None => None,
                };
                match ty {
                    Some(ty) => {
                        proof {
                            lemma_ground_subst(ty@, self.m());
                            assert(tv_subst(TypeV::Time, self.m()) == TypeV::Time);
                            if ground(ty@) {
                                lemma_unify_ground(self.m(), ty@, TypeV::Time);
                            }
                        }
                        match self.unify(&ty, &Type::Time, ident.span) {
                            Ok(()) => Ok(Type::Time),
                            Err(e) => Err(e),
                        }
                    },
                    None => Err(TypeError::undefined(ident.node.as_str(), ident.span)),
                }
            },
            TimeExpr::BinOp(left, _, right) => {
                match self.check_time_expr(left) {
                    Ok(_) => {},
                    Err(e) => { return Err(e); },
                }
                match self.check_time_expr(right) {
                    Ok(_) => {},
                    Err(e) => { return Err(e); },
                }
                Ok(Type::Time)
            },
        }
    }

    /// Check a position expression: a variable must be in scope and unify
    /// with `Position`.
    fn check_position_expr(&mut self, pos: &PositionExpr) -> (r: Result<Type, TypeError>)
        requires
            old(self).wf(),
        ensures
            final(self).wf(),
            final(self).errors_v() == old(self).errors_v(),
            final(self).env == old(self).env,
            r is Ok ==> (r matches Ok(t) && t is Position),
            position_literal(*pos) ==> r is Ok,
            pos matches PositionExpr::Var(id) ==> match lookup_scopes(old(self).env.scopes(), id.node@) {
                None => (r matches Err(e) && e.message@ == "undefined variable: "@ + id.node@ && e.span == id.span
                    && e.expected is None && e.found is None),
                Some(sch) => sch.1 is Position ==> r is Ok,
            },
            position_outcome(*pos, lookup_fn(old(self).env.scopes())) matches Some(o) ==> match o {
                Ok(()) => r is Ok,
                Err(m) => (r matches Err(e) && e.message@ == m),
            },
            position_outcome(*pos, lookup_fn(old(self).env.scopes())) is Some ==> (final(self).m() == old(self).m()
                && final(self).counter == old(self).counter),
            r is Ok ==> (r matches Ok(t) && t@ == TypeV::Position),
        decreases pos,
    {
        match pos {
            PositionExpr::Literal(_, _) => Ok(Type::Position),
            PositionExpr::Named(_) => Ok(Type::Position),
            PositionExpr::Var(ident) => {
                let ty = match self.env.lookup(ident.node.as_str()) {
                    Some(scheme) => {
                        let ghost c0 = self.counter;
                        let t = scheme.instantiate(&mut self.counter);
                        proof {
                            if scheme.vars@.len() == 0 {
                                assert(instantiation(scheme.vars@, c0) == Map::<u32, TypeV>::empty());
                                lemma_subst_id(scheme.ty@, Map::<u32, TypeV>::empty());
                            }
                        }
                        Some(t)
                    },
                    None => None,
                };
                match ty {
                    Some(ty) => {
                        proof {
                            lemma_ground_subst(ty@, self.m());
                            assert(tv_subst(TypeV::Position, self.m()) == TypeV::Position);
                            if ground(ty@) {
                                lemma_unify_ground(self.m(), ty@, TypeV::Position);
                            }
                        }
                        match self.unify(&ty, &Type::Position, ident.span) {
                            Ok(()) => Ok(Type::Position),
                            Err(e) => Err(e),
                        }
                    },
                    None => Err(TypeError::undefined(ident.node.as_str(), ident.span)),
                }
            },
            PositionExpr::Relative(base, _, _) => {
                match self.check_position_expr(base) {
                    Ok(_) => Ok(Type::Position),
                    Err(e) => Err(e),
                }
            },
        }
    }

    /// Infer the type of an expression.
    #[verifier::loop_isolation(false)]
    #[verifier::rlimit(80)]
    fn infer_expr(&mut self, expr: &Expr) -> (r: Result<Type, TypeError>)
        requires
            old(self).wf(),
        ensures
            final(self).wf(),
            old(self).errors_v().is_prefix_of(final(self).errors_v()),
            literal_type(*expr) matches Some(lt) ==> (r matches Ok(t) && t@ == lt && *final(self) == *old(self)),
            final(self).type_defs() == old(self).type_defs(),
            r is Ok ==> final(self).env.scopes() == old(self).env.scopes(),
            (expr is Record && r is Ok) ==> (r matches Ok(t) && t is Record && t->Record_0@.len() == expr->Record_0@.len()
                && forall|j: int| 0 <= j < expr->Record_0@.len() ==> (#[trigger] t->Record_0@[j]).0@ == expr->Record_0@[j].0.node@),
            realizes(infer_outcome(*expr, old(self).type_defs(), old(self).istate()), r, *old(self), *final(self)),
        decreases expr, 3nat,
    {
        match expr {
            Expr::Int(_) => Ok(Type::Int),
            Expr::Float(_) => Ok(Type::Float),
            Expr::String(_) => Ok(Type::String),
            Expr::Bool(_) => Ok(Type::Bool),
            Expr::Time(time) => self.check_time_expr(time),
            Expr::Position(pos) => self.check_position_expr(pos),
            Expr::Var(ident) => self.infer_var(ident),
            Expr::BinOp(_, _, _) => self.infer_binop(expr),
            Expr::UnaryOp(_, _) => self.infer_unaryop(expr),
            Expr::Call(_, _) => self.infer_call(expr),
            Expr::Field(base, field) => {
                let base_ty = match self.infer_expr(&base.node) {
                    Ok(t) => t,
                    Err(e) => { return Err(e); },
                };
                self.check_field_access(&base_ty, field.node.as_str(), field.span)
            },
            Expr::Index(base, index) => {
                let base_ty = match self.infer_expr(&base.node) {
                    Ok(t) => t,
                    Err(e) => { return Err(e); },
                };
                let _index_ty = match self.infer_expr(&index.node) {
                    Ok(t) => t,
                    Err(e) => { return Err(e); },
                };
                self.check_index(&base_ty, base.span)
            },
            Expr::If(_, _, _) => self.infer_if(expr),
            Expr::Let(_, _, _, _) => self.infer_let(expr),
            Expr::Block(_) => self.infer_block(expr),
            Expr::Lambda(_, _) => self.infer_lambda(expr),
            Expr::Tuple(_) => self.infer_tuple(expr),
            Expr::Array(_) => self.infer_array(expr),
            Expr::Record(fields) => {
                let mut field_types: Vec<(String, Type)> = Vec::new();
                let mut i: usize = 0;
                let ghost defs = self.type_defs();
                let ghost full = record_outcome(*expr, 0, defs, self.istate());
                proof {
                    assert(field_views(field_types@) =~= Seq::<(Seq<char>, TypeV)>::empty());
                    match full {
                        Some((Ok(ts), st)) => { assert(Seq::<(Seq<char>, TypeV)>::empty() + ts =~= ts); },
                        _ => {},
                    }
                }
                while i < fields.len()
                    invariant
                        full == record_outcome(*expr, 0, defs, old(self).istate()),
                        defs == old(self).type_defs(),
                        full is Some ==> self.errors_v() == old(self).errors_v(),
                        full is Some ==> full == prepend_fields(field_views(field_types@), record_outcome(*expr, i as int, defs, self.istate())),
                        self.wf(),
                        old(self).errors_v().is_prefix_of(self.errors_v()),
                        field_types@.len() == i,
                        i <= fields@.len(),
                        forall|j: int| 0 <= j < i ==> (#[trigger] field_types@[j]).0@ == fields@[j].0.node@,
                        self.env.scopes() == old(self).env.scopes(),
                        self.type_defs() == old(self).type_defs(),
                    decreases fields@.len() - i,
                {
                    let ty = match self.infer_expr(&fields[i].1.node) {
                        Ok(t) => t,
                        Err(e) => { return Err(e); },
                    };
                    let ghost prev = field_types@;
                    let name = fields[i].0.node.clone();
                    field_types.push((name, ty));
                    proof {
                        lemma_field_views_index(prev);
                        lemma_field_views_index(field_types@);
                        assert(field_views(field_types@) =~= field_views(prev).push((fields@[i as int].0.node@, ty@)));
                        if full is Some {
                            match record_outcome(*expr, i + 1, defs, self.istate()) {
                                Some((Ok(ts), st)) => {
                                    assert(field_views(prev) + (seq![(fields@[i as int].0.node@, ty@)] + ts)
                                        =~= field_views(prev).push((fields@[i as int].0.node@, ty@)) + ts);
                                },
                                _ => {},
                            }
                        }
                    }
                    i = i + 1;
                }
                proof {
                    match full {
                        Some((Ok(ts), st)) => { assert(field_views(field_types@) + Seq::<(Seq<char>, TypeV)>::empty() =~= field_views(field_types@)); },
                        _ => {},
                    }
                }
                Ok(Type::Record(field_types))
            },
            Expr::Element(element) => self.check_element(element),
            Expr::Match(_, _) => Ok(self.fresh()),
        }
    }

    /// Infer the type of a name: its scheme, instantiated.
    fn infer_var(&mut self, ident: &Ident) -> (r: Result<Type, TypeError>)
        requires
            old(self).wf(),
        ensures
            final(self).wf(),
            final(self).errors_v() == old(self).errors_v(),
            final(self).env == old(self).env,
            realizes(infer_outcome(Expr::Var(*ident), old(self).type_defs(), old(self).istate()), r, *old(self), *final(self)),
    {
        match self.env.lookup(ident.node.as_str()) {
            Some(scheme) => Ok(scheme.instantiate(&mut self.counter)),
            None => Err(TypeError::undefined(ident.node.as_str(), ident.span)),
        }
    }

    /// Infer the type of a binary operation.
    fn infer_binop(&mut self, expr: &Expr) -> (r: Result<Type, TypeError>)
        requires
            old(self).wf(),
            expr is BinOp,
        ensures
            final(self).wf(),
            old(self).errors_v().is_prefix_of(final(self).errors_v()),
            final(self).type_defs() == old(self).type_defs(),
            r is Ok ==> final(self).env.scopes() == old(self).env.scopes(),
            realizes(infer_outcome(*expr, old(self).type_defs(), old(self).istate()), r, *old(self), *final(self)),
        decreases expr, 2nat,
    {
        match expr {
            Expr::BinOp(left, op, right) => {
                let left_ty = match self.infer_expr(&left.node) {
                    Ok(t) => t,
                    Err(e) => { return Err(e); },
                };
                let right_ty = match self.infer_expr(&right.node) {
                    Ok(t) => t,
                    Err(e) => { return Err(e); },
                };
                self.check_binop(*op, &left_ty, &right_ty, left.span)
            },
            _ => Ok(Type::Unit),
        }
    }

    /// Infer the type of a unary operation.
    fn infer_unaryop(&mut self, expr: &Expr) -> (r: Result<Type, TypeError>)
        requires
            old(self).wf(),
            expr is UnaryOp,
        ensures
            final(self).wf(),
            old(self).errors_v().is_prefix_of(final(self).errors_v()),
            final(self).type_defs() == old(self).type_defs(),
            r is Ok ==> final(self).env.scopes() == old(self).env.scopes(),
            realizes(infer_outcome(*expr, old(self).type_defs(), old(self).istate()), r, *old(self), *final(self)),
        decreases expr, 2nat,
    {
        match expr {
            Expr::UnaryOp(op, operand) => {
                let operand_ty = match self.infer_expr(&operand.node) {
                    Ok(t) => t,
                    Err(e) => { return Err(e); },
                };
                self.check_unaryop(*op, &operand_ty, operand.span)
            },
            _ => Ok(Type::Unit),
        }
    }

    /// Infer the types of the items of a call, a tuple or an array, in turn.
    #[verifier::loop_isolation(false)]
    fn infer_items(&mut self, expr: &Expr, items: &Vec<Spanned<Expr>>) -> (r: Result<Vec<Type>, TypeError>)
        requires
            old(self).wf(),
            items@ == items_of(*expr),
        ensures
            final(self).wf(),
            old(self).errors_v().is_prefix_of(final(self).errors_v()),
            final(self).type_defs() == old(self).type_defs(),
            r is Ok ==> final(self).env.scopes() == old(self).env.scopes(),
            list_outcome(*expr, 0, old(self).type_defs(), old(self).istate()) matches Some((res, st)) ==> (
                final(self).istate() == st && final(self).type_defs() == old(self).type_defs()
                && final(self).errors_v() == old(self).errors_v()
                && match res {
                    Ok(ts) => (r matches Ok(v) && tviews(v@) == ts),
                    Err(msg) => (r matches Err(x) && x.message@ == msg),
                }),
        decreases expr, 1nat,
    {
        let ghost defs = self.type_defs();
        let ghost full = list_outcome(*expr, 0, defs, self.istate());
        let mut types: Vec<Type> = Vec::new();
        let mut i: usize = 0;
        proof {
            assert(tviews(types@) =~= Seq::<TypeV>::empty());
            assert(full is Some ==> full == prepend_types(tviews(types@), list_outcome(*expr, 0, defs, self.istate()))) by {
                match full {
                    Some((Ok(ts), st)) => { assert(Seq::<TypeV>::empty() + ts =~= ts); },
                    _ => {},
                }
            }
        }
        while i < items.len()
            invariant
                i <= items@.len(),
                items@ == items_of(*expr),
                self.wf(),
                old(self).errors_v().is_prefix_of(self.errors_v()),
                self.env.scopes() == old(self).env.scopes(),
                self.type_defs() == defs,
                defs == old(self).type_defs(),
                full == list_outcome(*expr, 0, defs, old(self).istate()),
                full is Some ==> self.errors_v() == old(self).errors_v(),
                full is Some ==> full == prepend_types(tviews(types@), list_outcome(*expr, i as int, defs, self.istate())),
            decreases items@.len() - i,
        {
            let ghost before = *self;
            let t = match self.infer_expr(&items[i].node) {
                Ok(t) => t,
                Err(e) => { return Err(e); },
            };
            let ghost ps = tviews(types@);
            let ghost prev = types@;
            types.push(t);
            proof {
                lemma_tviews_push(prev, t);
                assert(types@ == prev.push(t));
                if full is Some {
                    match list_outcome(*expr, i + 1, defs, self.istate()) {
                        Some((Ok(ts), st)) => {
                            assert(ps + (seq![t@] + ts) =~= ps.push(t@) + ts);
                        },
                        _ => {},
                    }
                }
            }
            i = i + 1;
        }
        proof {
            if full is Some {
                match full {
                    Some((Ok(ts), st)) => { assert(tviews(types@) + Seq::<TypeV>::empty() =~= tviews(types@)); },
                    _ => {},
                }
            }
        }
        Ok(types)
    }

    /// Infer the type of a call: the function's, then the arguments', then
    /// the call itself.
    fn infer_call(&mut self, expr: &Expr) -> (r: Result<Type, TypeError>)
        requires
            old(self).wf(),
            expr is Call,
        ensures
            final(self).wf(),
            old(self).errors_v().is_prefix_of(final(self).errors_v()),
            final(self).type_defs() == old(self).type_defs(),
            r is Ok ==> final(self).env.scopes() == old(self).env.scopes(),
            realizes(infer_outcome(*expr, old(self).type_defs(), old(self).istate()), r, *old(self), *final(self)),
        decreases expr, 2nat,
    {
        match expr {
            Expr::Call(func, args) => {
                let func_ty = match self.infer_expr(&func.node) {
                    Ok(t) => t,
                    Err(e) => { return Err(e); },
                };
                let arg_types = match self.infer_items(expr, args) {
                    Ok(ts) => ts,
                    Err(e) => { return Err(e); },
                };
                self.check_call(&func_ty, &arg_types, func.span)
            },
            _ => Ok(Type::Unit),
        }
    }

    /// Infer the type of a tuple.
    fn infer_tuple(&mut self, expr: &Expr) -> (r: Result<Type, TypeError>)
        requires
            old(self).wf(),
            expr is Tuple,
        ensures
            final(self).wf(),
            old(self).errors_v().is_prefix_of(final(self).errors_v()),
            final(self).type_defs() == old(self).type_defs(),
            r is Ok ==> final(self).env.scopes() == old(self).env.scopes(),
            realizes(infer_outcome(*expr, old(self).type_defs(), old(self).istate()), r, *old(self), *final(self)),
        decreases expr, 2nat,
    {
        match expr {
            Expr::Tuple(exprs) => {
                let types = match self.infer_items(expr, exprs) {
                    Ok(ts) => ts,
                    Err(e) => { return Err(e); },
                };
                Ok(Type::Tuple(types))
            },
            _ => Ok(Type::Unit),
        }
    }

    /// Infer the type of a conditional.
    fn infer_if(&mut self, expr: &Expr) -> (r: Result<Type, TypeError>)
        requires
            old(self).wf(),
            expr is If,
        ensures
            final(self).wf(),
            old(self).errors_v().is_prefix_of(final(self).errors_v()),
            final(self).type_defs() == old(self).type_defs(),
            r is Ok ==> final(self).env.scopes() == old(self).env.scopes(),
            realizes(infer_outcome(*expr, old(self).type_defs(), old(self).istate()), r, *old(self), *final(self)),
        decreases expr, 2nat,
    {
        match expr {
            Expr::If(cond, then_branch, else_branch) => {
                let cond_ty = match self.infer_expr(&cond.node) {
                    Ok(t) => t,
                    Err(e) => { return Err(e); },
                };
                match self.unify(&cond_ty, &Type::Bool, cond.span) {
                    Ok(()) => {},
                    Err(e) => { return Err(e); },
                }
                let then_ty = match self.infer_expr(&then_branch.node) {
                    Ok(t) => t,
                    Err(e) => { return Err(e); },
                };
                match else_branch {
                    Some(else_branch) => {
                        let else_ty = match self.infer_expr(&else_branch.node) {
                            Ok(t) => t,
                            Err(e) => { return Err(e); },
                        };
                        match self.unify(&then_ty, &else_ty, else_branch.span) {
                            Ok(()) => {},
                            Err(e) => { return Err(e); },
                        }
                        Ok(then_ty)
                    },
                    None => Ok(Type::Unit),
                }
            },
            _ => Ok(Type::Unit),
        }
    }

    /// Infer the type of a `let` expression: the value's type, checked
    /// against its annotation, is generalized and bound for the body.
    fn infer_let(&mut self, expr: &Expr) -> (r: Result<Type, TypeError>)
        requires
            old(self).wf(),
            expr is Let,
        ensures
            final(self).wf(),
            old(self).errors_v().is_prefix_of(final(self).errors_v()),
            final(self).type_defs() == old(self).type_defs(),
            r is Ok ==> final(self).env.scopes() == old(self).env.scopes(),
            realizes(infer_outcome(*expr, old(self).type_defs(), old(self).istate()), r, *old(self), *final(self)),
        decreases expr, 2nat,
    {
        match expr {
            Expr::Let(name, ty_ann, value, body) => {
                let ghost sc = self.env.scopes();
                let value_ty = match self.infer_expr(&value.node) {
                    Ok(t) => t,
                    Err(e) => { return Err(e); },
                };
                match ty_ann {
                    Some(ty_expr) => {
                        let ann_ty = match self.resolve_type_expr(ty_expr) {
                            Ok(t) => t,
                            Err(e) => { return Err(e); },
                        };
                        match self.unify(&value_ty, &ann_ty, value.span) {
                            Ok(()) => {},
                            Err(e) => { return Err(e); },
                        }
                    },
                    None => {},
                }
                self.env.push_scope();
                let ghost pushed = self.env.scopes();
                let scheme = self.env.generalize(&value_ty);
                self.env.define(name.node.as_str(), scheme);
                proof {
                    assert(pushed == sc.push(Map::<Seq<char>, SchemeV>::empty()));
                }
                let body_ty = match self.infer_expr(&body.node) {
                    Ok(t) => t,
                    Err(e) => { return Err(e); },
                };
                let ghost inner = self.env.scopes();
                self.env.pop_scope();
                proof {
                    assert(inner == define_in(pushed, name.node@, scheme_view(scheme)));
                    assert(inner.drop_last() =~= sc);
                }
                Ok(body_ty)
            },
            _ => Ok(Type::Unit),
        }
    }

    /// Infer the type of a block: its statements in a scope of their own;
    /// the type of the last one.
    #[verifier::loop_isolation(false)]
    #[verifier::rlimit(60)]
    fn infer_block(&mut self, expr: &Expr) -> (r: Result<Type, TypeError>)
        requires
            old(self).wf(),
            expr is Block,
        ensures
            final(self).wf(),
            old(self).errors_v().is_prefix_of(final(self).errors_v()),
            final(self).type_defs() == old(self).type_defs(),
            r is Ok ==> final(self).env.scopes() == old(self).env.scopes(),
            realizes(infer_outcome(*expr, old(self).type_defs(), old(self).istate()), r, *old(self), *final(self)),
        decreases expr, 2nat,
    {
        match expr {
            Expr::Block(stmts) => {
                let ghost sc = self.env.scopes();
                let ghost defs = self.type_defs();
                self.env.push_scope();
                let ghost full = block_outcome(*expr, 0, TypeV::Unit, defs, self.istate());
                let mut last_ty = Type::Unit;
                let mut i: usize = 0;
                while i < stmts.len()
                    invariant
                        i <= stmts@.len(),
                        self.wf(),
                        old(self).errors_v().is_prefix_of(self.errors_v()),
                        self.env.scopes().len() == sc.len() + 1,
                        self.env.scopes().drop_last() == sc,
                        full is Some ==> self.env.scopes() == sc.push(Map::<Seq<char>, SchemeV>::empty()),
                        sc == old(self).env.scopes(),
                        self.type_defs() == defs,
                        defs == old(self).type_defs(),
                        full == block_outcome(*expr, 0, TypeV::Unit, defs,
                            (sc.push(Map::<Seq<char>, SchemeV>::empty()), old(self).m(), old(self).counter)),
                        full is Some ==> self.errors_v() == old(self).errors_v(),
                        full is Some ==> full == block_outcome(*expr, i as int, last_ty@, defs, self.istate()),
                    decreases stmts@.len() - i,
                {
                    proof {
                        if full is Some {
                            assert(block_outcome(*expr, i as int, last_ty@, defs, self.istate()) == match stmts@[i as int].node {
                                Stmt::Expr(x) => match infer_outcome(x, defs, self.istate()) {
                                    Some((Ok(t), st1)) => block_outcome(*expr, i + 1, t, defs, st1),
                                    other => other,
                                },
                                _ => None,
                            });
                        }
                    }
                    last_ty = match self.check_stmt(&stmts[i].node) {
                        Ok(t) => t,
                        Err(e) => { return Err(e); },
                    };
                    i = i + 1;
                }
                proof {
                    assert(sc.push(Map::<Seq<char>, SchemeV>::empty()).drop_last() =~= sc);
                }
                self.env.pop_scope();
                Ok(last_ty)
            },
            _ => Ok(Type::Unit),
        }
    }

    /// Infer the type of a lambda: its parameters bound in a scope of their
    /// own, then its body.
    fn infer_lambda(&mut self, expr: &Expr) -> (r: Result<Type, TypeError>)
        requires
            old(self).wf(),
            expr is Lambda,
        ensures
            final(self).wf(),
            old(self).errors_v().is_prefix_of(final(self).errors_v()),
            final(self).type_defs() == old(self).type_defs(),
            r is Ok ==> final(self).env.scopes() == old(self).env.scopes(),
            realizes(infer_outcome(*expr, old(self).type_defs(), old(self).istate()), r, *old(self), *final(self)),
        decreases expr, 2nat,
    {
        match expr {
            Expr::Lambda(params, body) => {
                let ghost sc = self.env.scopes();
                let ghost defs = self.type_defs();
                let ghost c0 = self.counter;
                self.env.push_scope();
                proof {
                    lemma_params_bind_frame(params@, defs, self.env.scopes(), self.counter);
                    assert(self.env.scopes().drop_last() =~= sc);
                }
                let param_types = match self.bind_params(params) {
                    Ok(ts) => ts,
                    Err(e) => { return Err(e); },
                };
                let body_ty = match self.infer_expr(&body.node) {
                    Ok(t) => t,
                    Err(e) => { return Err(e); },
                };
                let ghost inner = self.env.scopes();
                self.env.pop_scope();
                let t = Type::Fn(param_types, Box::new(body_ty));
                proof {
                    assert(inner.drop_last() =~= sc);
                }
                Ok(t)
            },
            _ => Ok(Type::Unit),
        }
    }

    /// Bind parameters in turn in the innermost scope: an annotated one to
    /// the type its annotation resolves to, another to a fresh variable.
    fn bind_params(&mut self, params: &Vec<Param>) -> (r: Result<Vec<Type>, TypeError>)
        requires
            old(self).wf(),
        ensures
            final(self).wf(),
            final(self).errors_v() == old(self).errors_v(),
            final(self).type_defs() == old(self).type_defs(),
            final(self).m() == old(self).m(),
            match params_bind(params@, old(self).type_defs(), old(self).env.scopes(), old(self).counter) {
                Ok((sc, c, ts)) => (r matches Ok(v) && tviews(v@) == ts
                    && final(self).env.scopes() == sc && final(self).counter == c),
                Err((msg, sc, c)) => (r matches Err(e) && e.message@ == msg
                    && final(self).env.scopes() == sc && final(self).counter == c),
            },
    {
        let ghost defs = self.type_defs();
        let ghost sc0 = self.env.scopes();
        let ghost c0 = self.counter;
        let mut types: Vec<Type> = Vec::new();
        let mut i: usize = 0;
        proof {
            assert(params@.take(0) =~= Seq::<Param>::empty());
            assert(tviews(types@) =~= Seq::<TypeV>::empty());
        }
        while i < params.len()
            invariant
                i <= params@.len(),
                self.wf(),
                self.errors_v() == old(self).errors_v(),
                self.type_defs() == defs,
                defs == old(self).type_defs(),
                self.m() == old(self).m(),
                sc0 == old(self).env.scopes(),
                c0 == old(self).counter,
                params_bind(params@.take(i as int), defs, sc0, c0) == Ok::<(Seq<Map<Seq<char>, SchemeV>>, u32, Seq<TypeV>), (Seq<char>, Seq<Map<Seq<char>, SchemeV>>, u32)>((self.env.scopes(), self.counter, tviews(types@))),
            decreases params@.len() - i,
        {
            let param = &params[i];
            let ghost tk = params@.take(i + 1);
            proof {
                assert(tk.drop_last() =~= params@.take(i as int));
                assert(tk.last() == params@[i as int]);
            }
            let ty = match &param.ty {
                Some(te) => match self.resolve_type_expr(te) {
                    Ok(t) => t,
                    Err(e) => {
                        proof {
                            lemma_params_bind_stops(params@, defs, sc0, c0, i + 1);
                        }
                        return Err(e);
                    },
                },
                None => self.fresh(),
            };
            self.env.define(param.name.node.as_str(), TypeScheme::mono(ty.deep_clone()));
            let ghost prev = types@;
            types.push(ty);
            proof {
                lemma_tviews_push(prev, ty);
                assert(types@ == prev.push(ty));
            }
            i = i + 1;
        }
        proof {
            assert(params@.take(i as int) =~= params@);
        }
        Ok(types)
    }

    /// Infer the type of an array: its first item's, with which every other
    /// item is unified; a fresh variable for an empty one.
    #[verifier::loop_isolation(false)]
    fn infer_array(&mut self, expr: &Expr) -> (r: Result<Type, TypeError>)
        requires
            old(self).wf(),
            expr is Array,
        ensures
            final(self).wf(),
            old(self).errors_v().is_prefix_of(final(self).errors_v()),
            final(self).type_defs() == old(self).type_defs(),
            r is Ok ==> final(self).env.scopes() == old(self).env.scopes(),
            realizes(infer_outcome(*expr, old(self).type_defs(), old(self).istate()), r, *old(self), *final(self)),
        decreases expr, 2nat,
    {
        match expr {
            Expr::Array(exprs) => {
                if exprs.len() == 0 {
                    let v = self.fresh();
                    return Ok(Type::Array(Box::new(v)));
                }
                let ghost defs = self.type_defs();
                let first_ty = match self.infer_expr(&exprs[0].node) {
                    Ok(t) => t,
                    Err(e) => { return Err(e); },
                };
                let ghost full = array_outcome(*expr, 1, first_ty@, defs, self.istate());
                let ghost start = *self;
                let mut i: usize = 1;
                while i < exprs.len()
                    invariant
                        1 <= i <= exprs@.len(),
                        exprs@ == items_of(*expr),
                        self.wf(),
                        old(self).errors_v().is_prefix_of(self.errors_v()),
                        start.errors_v().is_prefix_of(self.errors_v()),
                        self.env.scopes() == start.env.scopes(),
                        self.type_defs() == defs,
                        full == array_outcome(*expr, 1, first_ty@, defs, start.istate()),
                        full is Some ==> self.errors_v() == start.errors_v(),
                        full is Some ==> full == array_outcome(*expr, i as int, first_ty@, defs, self.istate()),
                    decreases exprs@.len() - i,
                {
                    let ty = match self.infer_expr(&exprs[i].node) {
                        Ok(t) => t,
                        Err(e) => { return Err(e); },
                    };
                    match self.unify(&first_ty, &ty, exprs[i].span) {
                        Ok(()) => {},
                        Err(e) => { return Err(e); },
                    }
                    i = i + 1;
                }
                Ok(Type::Array(Box::new(first_ty)))
            },
            _ => Ok(Type::Unit),
        }
    }

    /// Check a statement.
    #[verifier::loop_isolation(false)]
    fn check_stmt(&mut self, stmt: &Stmt) -> (r: Result<Type, TypeError>)
        requires
            old(self).wf(),
        ensures
            final(self).wf(),
            old(self).errors_v().is_prefix_of(final(self).errors_v()),
            stmt matches Stmt::Expr(e) ==> (realizes(infer_outcome(*e, old(self).type_defs(), old(self).istate()), r, *old(self), *final(self))
                && (r is Ok ==> final(self).env.scopes() == old(self).env.scopes())),
            final(self).type_defs() == old(self).type_defs(),
            r is Ok ==> (final(self).env.scopes().len() == old(self).env.scopes().len()
                && final(self).env.scopes().drop_last() == old(self).env.scopes().drop_last()),
            match stmt {
                Stmt::Expr(e) => (literal_type(*e) matches Some(lt) ==> (r matches Ok(t) && t@ == lt)),
                Stmt::Return(Some(e)) => (literal_type(*e) matches Some(lt) ==> (r matches Ok(t) && t@ == lt)),
                Stmt::Return(None) => (r matches Ok(t) && t is Unit),
                Stmt::Let(name, ann, v) => {
                    &&& r is Ok ==> (r matches Ok(t) && t is Unit)
                    &&& r is Ok ==> lookup_scopes(final(self).env.scopes(), name.node@) is Some
                    &&& (ann is None && literal_type(*v) is Some) ==> (r is Ok
                        && (lookup_scopes(final(self).env.scopes(), name.node@) matches Some(sch)
                            && Some(sch.1) == literal_type(*v)))
                },
                _ => (r is Ok ==> (r matches Ok(t) && t is Unit)),
            },
        decreases stmt, 3nat,
    {
        match stmt {
            Stmt::Expr(expr) => self.infer_expr(expr),
            Stmt::Let(name, ty_ann, value) => {
                let value_ty = self.infer_expr(value)?;
                match ty_ann {
                    Some(ty_expr) => {
                        let ann_ty = self.resolve_type_expr(ty_expr)?;
                        self.unify(&value_ty, &ann_ty, name.span)?;
                    },
                    None => {},
                }
                let scheme = self.env.generalize(&value_ty);
                let ghost sc0 = self.env.scopes();
                self.env.define(name.node.as_str(), scheme);
                proof {
                    assert(self.env.scopes().drop_last() =~= sc0.drop_last());
                }
                Ok(Type::Unit)
            },
            Stmt::Assign(target, value) => {
                let target_ty = self.infer_expr(&target.node)?;
                let value_ty = self.infer_expr(value)?;
                self.unify(&target_ty, &value_ty, target.span)?;
                Ok(Type::Unit)
            },
            Stmt::Return(expr) => {
                match expr {
                    Some(expr) => self.infer_expr(expr),
                    None => Ok(Type::Unit),
                }
            },
            Stmt::For(var, iter, body) => {
                let iter_ty = self.infer_expr(iter)?;
                let elem_ty = match iter_ty {
                    Type::Array(t) => *t,
                    _ => self.fresh(),
                };
                let ghost sc0 = self.env.scopes();
                self.env.push_scope();
                self.env.define(var.node.as_str(), TypeScheme::mono(elem_ty));
                proof {
                    assert(self.env.scopes().drop_last() =~= sc0);
                }
                let mut i: usize = 0;
                let ghost inner = self.env.scopes();
                while i < body.len()
                    invariant
                        self.wf(),
                        old(self).errors_v().is_prefix_of(self.errors_v()),
                        self.type_defs() == old(self).type_defs(),
                        self.env.scopes().len() == inner.len(),
                        self.env.scopes().drop_last() == inner.drop_last(),
                    decreases body@.len() - i,
                {
                    self.check_stmt(&body[i].node)?;
                    i = i + 1;
                }
                self.env.pop_scope();
                Ok(Type::Unit)
            },
            Stmt::While(cond, body) => {
                let cond_ty = self.infer_expr(cond)?;
                self.unify(&cond_ty, &Type::Bool, Span::new(0, 0, self.file_id))?;
                let ghost sc0 = self.env.scopes();
                self.env.push_scope();
                proof {
                    assert(self.env.scopes().drop_last() =~= sc0);
                }
                let mut i: usize = 0;
                let ghost inner = self.env.scopes();
                while i < body.len()
                    invariant
                        self.wf(),
                        old(self).errors_v().is_prefix_of(self.errors_v()),
                        self.type_defs() == old(self).type_defs(),
                        self.env.scopes().len() == inner.len(),
                        self.env.scopes().drop_last() == inner.drop_last(),
                    decreases body@.len() - i,
                {
                    self.check_stmt(&body[i].node)?;
                    i = i + 1;
                }
                self.env.pop_scope();
                Ok(Type::Unit)
            },
        }
    }

    /// Check a binary operation: arithmetic keeps the operands' common type,
    /// comparisons give `Bool`, and the logical operators need `Bool` operands.
    fn check_binop(&mut self, op: BinOp, left: &Type, right: &Type, span: Span) -> (r: Result<Type, TypeError>)
        requires
            old(self).wf(),
        ensures
            final(self).wf(),
            final(self).errors_v() == old(self).errors_v(),
            final(self).env == old(self).env,
            r matches Ok(t) ==> (match op {
                BinOp::Add | BinOp::Sub | BinOp::Mul | BinOp::Div | BinOp::Mod => t@ == left@,
                _ => t is Bool,
            }),
            r is Ok ==> (match op {
                BinOp::And | BinOp::Or => compatible(tv_subst(left@, final(self).m()), TypeV::Bool)
                    && compatible(tv_subst(right@, final(self).m()), TypeV::Bool),
                _ => compatible(tv_subst(left@, final(self).m()), tv_subst(right@, final(self).m())),
            }),
            (!(op is And || op is Or) && (tv_subst(left@, old(self).m()) == tv_subst(right@, old(self).m())
                || tv_subst(left@, old(self).m()) is Error || tv_subst(right@, old(self).m()) is Error)) ==> r is Ok,
            ((op is And || op is Or) && tv_subst(left@, old(self).m()) == TypeV::Bool
                && tv_subst(right@, old(self).m()) == TypeV::Bool) ==> r is Ok,
            realizes(binop_result(op, left@, right@, old(self).istate()), r, *old(self), *final(self)),
    {
        proof {
            assert(tv_subst(TypeV::Bool, old(self).m()) == TypeV::Bool);
        }
        match op {
            BinOp::Add | BinOp::Sub | BinOp::Mul | BinOp::Div | BinOp::Mod => {
                self.unify(left, right, span)?;
                Ok(left.deep_clone())
            },
            BinOp::Eq | BinOp::NotEq => {
                self.unify(left, right, span)?;
                Ok(Type::Bool)
            },
            BinOp::Lt | BinOp::LtEq | BinOp::Gt | BinOp::GtEq => {
                self.unify(left, right, span)?;
                Ok(Type::Bool)
            },
            BinOp::And | BinOp::Or => {
                self.unify(left, &Type::Bool, span)?;
                let ghost m1 = self.m();
                self.unify(right, &Type::Bool, span)?;
                proof {
                    lemma_extends_compatible(left@, TypeV::Bool, m1, self.m());
                }
                Ok(Type::Bool)
            },
        }
    }

    /// Check a unary operation: negation keeps the operand's type, `!` needs
    /// and gives `Bool`.
    fn check_unaryop(&mut self, op: UnaryOp, operand: &Type, span: Span) -> (r: Result<Type, TypeError>)
        requires
            old(self).wf(),
        ensures
            final(self).wf(),
            final(self).errors_v() == old(self).errors_v(),
            final(self).env == old(self).env,
            r matches Ok(t) ==> (match op {
                UnaryOp::Neg => t@ == operand@,
                UnaryOp::Not => t is Bool,
            }),
            (r is Ok && op is Not) ==> compatible(tv_subst(operand@, final(self).m()), TypeV::Bool),
            op is Neg ==> r is Ok,
            (op is Not && (tv_subst(operand@, old(self).m()) == TypeV::Bool || tv_subst(operand@, old(self).m()) is Var
                || tv_subst(operand@, old(self).m()) is Error)) ==> r is Ok,
            realizes(match op {
                UnaryOp::Neg => Some((Ok(operand@), old(self).istate())),
                UnaryOp::Not => then_type(unify_spec(old(self).m(), operand@, TypeV::Bool), old(self).istate(), TypeV::Bool),
            }, r, *old(self), *final(self)),
    {
        proof {
            assert(tv_subst(TypeV::Bool, old(self).m()) == TypeV::Bool);
        }
        match op {
            UnaryOp::Neg => Ok(operand.deep_clone()),
            UnaryOp::Not => {
                self.unify(operand, &Type::Bool, span)?;
                Ok(Type::Bool)
            },
        }
    }

    /// Check a call of a value of type `func` on arguments of the given types.
    #[verifier::loop_isolation(false)]
    #[verifier::rlimit(60)]
    fn check_call(&mut self, func: &Type, args: &Vec<Type>, span: Span) -> (r: Result<Type, TypeError>)
        requires
            old(self).wf(),
        ensures
            final(self).wf(),
            final(self).errors_v() == old(self).errors_v(),
            final(self).env == old(self).env,
            (func@ matches TypeV::Fn(ps, _) && ps.len() == args@.len()
                && forall|i: int| 0 <= i < ps.len() ==> ps[i] == (#[trigger] args@[i])@) ==> r is Ok,
            (func is Fn && func->Fn_0@.len() != args@.len()) ==> (r matches Err(e)
                && e.message@ == "function expects "@ + crate::base::text::decimal(func->Fn_0@.len()) + " arguments, got "@
                    + crate::base::text::decimal(args@.len())),
            (func is Fn && r is Ok) ==> (r matches Ok(t) && t@ == func->Fn_1@),
            (func is Var && r is Ok) ==> (r matches Ok(t) && t is Var),
            !(func is Fn || func is Var) ==> (r matches Err(e) && e.message@ == "cannot call non-function type: "@ + type_text(func@)
                && e.span == span && (e.found matches Some(f) && f@ == func@)),
            realizes(call_result(func@, tviews(args@), old(self).istate()), r, *old(self), *final(self)),
    {
        let ghost ts = tviews(args@);
        let ghost full = unify_pairs(old(self).m(), func@->Fn_0, ts);
        proof {
            lemma_tviews_index(args@);
        }
        match func {
            Type::Fn(params, ret) => {
                proof {
                    lemma_tviews_index(params@);
                    assert(params@.len() == args@.len() ==> tviews(params@).skip(0) =~= tviews(params@));
                    assert(ts.skip(0) =~= ts);
                }
                if params.len() != args.len() {
                    let mut message = string_of("function expects ");
                    crate::base::text::push_decimal(&mut message, params.len() as u64);
                    push_str(&mut message, " arguments, got ");
                    crate::base::text::push_decimal(&mut message, args.len() as u64);
                    return Err(TypeError { message, span, expected: None, found: None });
                }
                let mut i: usize = 0;
                while i < params.len()
                    invariant
                        i <= params@.len(),
                        params@.len() == args@.len(),
                        self.wf(),
                        self.errors_v() == old(self).errors_v(),
                        self.env == old(self).env,
                        func@ == TypeV::Fn(tviews(params@), Box::new(ret@)),
                        forall|j: int| 0 <= j < params@.len() ==> #[trigger] tviews(params@)[j] == params@[j]@,
                        (forall|j: int| 0 <= j < i ==> tviews(params@)[j] == (#[trigger] args@[j])@)
                            ==> self.subst == old(self).subst,
                        self.counter == old(self).counter,
                        full is Some ==> full == unify_pairs(self.m(), tviews(params@).skip(i as int), ts.skip(i as int)),
                    decreases params@.len() - i,
                {
                    proof {
                        let ps = tviews(params@).skip(i as int);
                        let qs = ts.skip(i as int);
                        assert(ps[0] == tviews(params@)[i as int]);
                        assert(qs[0] == ts[i as int]);
                        assert(ps[0] == params@[i as int]@);
                        assert(qs[0] == args@[i as int]@);
                        assert(ps.drop_first() =~= tviews(params@).skip(i + 1));
                        assert(qs.drop_first() =~= ts.skip(i + 1));
                    }
                    let ghost pi = tviews(params@)[i as int];
                    let ghost ai = args@[i as int]@;
                    proof {
                        if forall|k: int| 0 <= k < params@.len() ==> tviews(params@)[k] == (#[trigger] args@[k])@ {
                            assert(tviews(params@)[i as int] == args@[i as int]@);
                        }
                    }
                    let ghost prefix_equal = forall|j: int| 0 <= j < i ==> tviews(params@)[j] == (#[trigger] args@[j])@;
                    match self.unify(&params[i], &args[i], span) {
                        Ok(()) => {},
                        Err(e) => { return Err(e); },
                    }
                    proof {
                        if prefix_equal && pi == ai {
                            assert forall|j: int| 0 <= j < i + 1 implies tviews(params@)[j] == (#[trigger] args@[j])@ by {
                                if j == i {
                                    assert(tviews(params@)[j] == pi);
                                }
                            }
                        }
                    }
                    i = i + 1;
                }
                proof {
                    assert(tviews(params@).skip(i as int).len() == 0);
                }
                Ok(ret.deep_clone())
            },
            Type::Var(_) => {
                let ret = self.fresh();
                let cl = clone_types(args);
                proof {
                    lemma_tviews_index(cl@);
                    assert forall|j: int| 0 <= j < ts.len() implies #[trigger] tviews(cl@)[j] == ts[j] by {
                        assert(cl@[j]@ == args@[j]@);
                    }
                    assert(tviews(cl@) =~= ts);
                }
                let expected = Type::Fn(cl, Box::new(ret.deep_clone()));
                match self.unify(func, &expected, span) {
                    Ok(()) => Ok(ret),
                    Err(e) => Err(e),
                }
            },
            _ => {
                let mut message = string_of("cannot call non-function type: ");
                push_str(&mut message, func.to_string().as_str());
                let v = self.fresh();
                Err(TypeError {
                    message,
                    span,
                    expected: Some(Type::Fn(Vec::new(), Box::new(v))),
                    found: Some(func.deep_clone()),
                })
            },
        }
    }

    /// Check access to a field of a value of type `base`.
    fn check_field_access(&mut self, base: &Type, field: &str, span: Span) -> (r: Result<Type, TypeError>)
        requires
            old(self).wf(),
        ensures
            final(self).env == old(self).env,
            final(self).wf(),
            final(self).errors_v() == old(self).errors_v(),
            match base@ {
                TypeV::Record(fs) => match first_field(fs, field@) {
                    Some(k) => r matches Ok(t) && t@ == fs[k].1,
                    None => (r matches Err(e) && e.message@ == "record has no field '"@ + field@ + "'"@
                        && e.span == span && e.expected is None && e.found is None),
                },
                TypeV::Var(_) => r matches Ok(t) && t is Var,
                _ => (r matches Err(e) && e.message@ == "cannot access field '"@ + field@ + "' on type "@ + type_text(base@)
                    && e.span == span && e.expected is None && (e.found matches Some(f) && f@ == base@)),
            },
            realizes(field_result(base@, field@, old(self).istate()), r, *old(self), *final(self)),
    {
        match base {
            Type::Record(fields) => {
                proof {
                    lemma_field_views_index(fields@);
                }
                let mut i: usize = 0;
                while i < fields.len()
                    invariant
                        i <= fields@.len(),
                        base@ == TypeV::Record(field_views(fields@)),
                        self.wf(),
                        self.errors_v() == old(self).errors_v(),
                        field_views(fields@).len() == fields@.len(),
                        forall|j: int| 0 <= j < fields@.len() ==> #[trigger] field_views(fields@)[j] == (fields@[j].0@, fields@[j].1@),
                        first_field(field_views(fields@), field@) == first_field_from(field_views(fields@), field@, i as int),
                    decreases fields@.len() - i,
                {
                    if str_eq(fields[i].0.as_str(), field) {
                        proof {
                            assert(field_views(fields@)[i as int].0 == field@);
                            assert(first_field_from(field_views(fields@), field@, i as int) == Some(i as int));
                        }
                        return Ok(fields[i].1.deep_clone());
                    }
                    i = i + 1;
                }
                let mut message = string_of("record has no field '");
                push_str(&mut message, field);
                push_str(&mut message, "'");
                proof {
                    reveal_strlit("'");
                }
                Err(TypeError { message, span, expected: None, found: None })
            },
            Type::Var(_) => Ok(self.fresh()),
            _ => {
                let mut message = string_of("cannot access field '");
                push_str(&mut message, field);
                push_str(&mut message, "' on type ");
                push_str(&mut message, base.to_string().as_str());
                Err(TypeError { message, span, expected: None, found: Some(base.deep_clone()) })
            },
        }
    }

    /// Check indexing into a value of type `base`: an array gives its
    /// element type, a tuple its first element's type.
    fn check_index(&mut self, base: &Type, span: Span) -> (r: Result<Type, TypeError>)
        requires
            old(self).wf(),
        ensures
            final(self).env == old(self).env,
            final(self).wf(),
            final(self).errors_v() == old(self).errors_v(),
            match base@ {
                TypeV::Array(e) => r matches Ok(t) && t@ == *e,
                TypeV::Tuple(es) => r matches Ok(t) && (if es.len() == 0 { t is Var } else { t@ == es[0] }),
                TypeV::Var(_) => r matches Ok(t) && t is Var,
                _ => (r matches Err(e) && e.message@ == "cannot index into type "@ + type_text(base@)
                    && e.span == span && e.expected is None && (e.found matches Some(f) && f@ == base@)),
            },
            realizes(index_result(base@, old(self).istate()), r, *old(self), *final(self)),
    {
        match base {
            Type::Array(elem) => Ok(elem.deep_clone()),
            Type::Tuple(elems) => {
                proof {
                    lemma_tviews_index(elems@);
                }
                if elems.len() == 0 {
                    Ok(self.fresh())
                } else {
                    proof {
                        lemma_tviews_index(elems@);
                        assert(base@ == TypeV::Tuple(tviews(elems@)));
                        assert(tviews(elems@)[0] == elems@[0]@);
                    }
                    Ok(elems[0].deep_clone())
                }
            },
            Type::Var(_) => Ok(self.fresh()),
            _ => {
                let mut message = string_of("cannot index into type ");
                push_str(&mut message, base.to_string().as_str());
                Err(TypeError { message, span, expected: None, found: Some(base.deep_clone()) })
            },
        }
    }

    /// The collected errors as diagnostics, in order.
    pub fn into_diagnostics(self) -> (d: Diagnostics)
        ensures
            d.view_seq().len() == self.errors_v().len(),
            forall|i: int| 0 <= i < self.errors_v().len() ==> diagnoses(#[trigger] d.view_seq()[i], self.errors_v()[i]),
    {
        diagnostics_of(&self.errors)
    }
}

/// The diagnostics of type errors, one per error, in order.
fn diagnostics_of(errors: &Vec<TypeError>) -> (d: Diagnostics)
    ensures
        d.view_seq().len() == errors@.len(),
        forall|i: int| 0 <= i < errors@.len() ==> diagnoses(#[trigger] d.view_seq()[i], errors@[i]),
{
    let mut diagnostics = Diagnostics::new();
    let mut i: usize = 0;
    while i < errors.len()
        invariant
            i <= errors@.len(),
            diagnostics.view_seq().len() == i,
            forall|j: int| 0 <= j < i ==> diagnoses(#[trigger] diagnostics.view_seq()[j], errors@[j]),
        decreases errors@.len() - i,
    {
        let d = errors[i].to_diagnostic();
        diagnostics.add(d);
        i = i + 1;
    }
    diagnostics
}

/// Type-check a program: the diagnostics of the errors the checker finds,
/// if it finds any. A program it accepts breaks no jump or spin rule (an
/// entry edge other than the jump's, too few revolutions for a spin's
/// level). Where the outcome of its function definitions is decided (see
/// `fn_outcome`), their error messages come first, in order; where, besides,
/// every timing and position is a literal, the rule errors follow and
/// nothing else is reported.
pub fn check(program: &Program, file_id: FileId) -> (r: Result<(), Diagnostics>)
    ensures
        r matches Err(d) ==> d.view_seq().len() > 0,
        check_verdict(*program, match r {
            Ok(()) => Seq::<Diagnostic>::empty(),
            Err(d) => d.view_seq(),
        }),
{
    let mut checker = TypeChecker::new(file_id);
    match checker.check_program(program) {
        Ok(()) => {
            proof {
                assert(diag_messages(Seq::<Diagnostic>::empty()) =~= Seq::empty());
                match program_outcome(*program, Map::empty(), initial_state()) {
                    Some(ms) => { assert(ms =~= Seq::<Seq<char>>::empty()); },
                    None => {},
                }
            }
            Ok(())
        },
        Err(es) => {
            let d = diagnostics_of(&es);
            proof {
                assert(diag_messages(d.view_seq()) =~= messages(es@));
            }
            Err(d)
        },
    }
}

} // verus!
