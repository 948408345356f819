//! Parser for Anvomidav: turns the token stream into a syntax tree.
//!
//! The grammar is a parsing expression grammar: alternatives are tried in
//! order and the first that succeeds is taken, repetitions take as many
//! items as they can. The grammar itself is stated as spec functions over
//! token values (`p_program` and the functions it calls); the executable
//! parser is proved to build exactly the tree they describe.

use vstd::prelude::*;
use crate::base::skating::{Edge, JumpKind, Level, LiftGroup, Rotations, SpinPosition};
use crate::base::source::{FileId, Span};
use crate::base::text::{decimal, push_signed_decimal, signed_decimal, string_of};
use crate::syntax::ast::{
    BinOp, ChoreographicElement, ChoreographicKind, DeathSpiralElement, Element, ElementKind, Expr,
    FloatLit, FnDef, Ident, Import, JumpElement, LiftElement, Param, Program, Segment, SegmentKind,
    Sequence, Spanned, SpinElement, SpinPositionDef, StepPattern, StepSequence, Stmt, ThrowElement,
    TimeExpr, Timing, TwistElement, TypeExpr, UnaryOp,
};
use crate::syntax::token::{lex_from, lexed, spanned_view, tok_view, LexError, Lexer, SpannedToken, TokV, Token};
use vstd::string::StringSliceAdditionalSpecFns;

verus! {

broadcast use {vstd::std_specs::vec::axiom_vec_decreases_to_view, vstd::std_specs::vec::axiom_vec_index_decreases};

// ---------------------------------------------------------------------------
// The syntax tree as values
// ---------------------------------------------------------------------------

/// An identifier as a value: its text and span.
pub type IdentV = (Seq<char>, Span);

/// The value of an identifier.
pub open spec fn iv(i: Ident) -> IdentV {
    (i.node@, i.span)
}

/// A type expression as a value (only the forms the grammar builds).
pub enum TypeV {
    Named(IdentV),
    App(Box<TypeV>, Seq<TypeV>),
    Tuple(Seq<TypeV>),
    Array(Box<TypeV>),
    Optional(Box<TypeV>),
    Other,
}

/// The value of a type expression.
pub open spec fn tyv(t: TypeExpr) -> TypeV
    decreases t,
{
    match t {
        TypeExpr::Named(n) => TypeV::Named(iv(n)),
        TypeExpr::App(b, args) => TypeV::App(Box::new(tyv(*b)), tyvs(args@)),
        TypeExpr::Tuple(ts) => TypeV::Tuple(tyvs(ts@)),
        TypeExpr::Array(a) => TypeV::Array(Box::new(tyv(*a))),
        TypeExpr::Optional(a) => TypeV::Optional(Box::new(tyv(*a))),
        _ => TypeV::Other,
    }
}

/// The values of type expressions.
pub open spec fn tyvs(s: Seq<TypeExpr>) -> Seq<TypeV>
    decreases s,
{
    if s.len() == 0 { Seq::empty() } else { tyvs(s.drop_last()).push(tyv(s.last())) }
}

/// An expression as a value (only the forms the grammar builds).
pub enum ExprV {
    Int(i64),
    Float(Seq<char>),
    Str(Seq<char>),
    Bool(bool),
    Var(IdentV),
    BinOp(Box<(ExprV, Span)>, BinOp, Box<(ExprV, Span)>),
    UnaryOp(UnaryOp, Box<(ExprV, Span)>),
    Tuple(Seq<(ExprV, Span)>),
    Array(Seq<(ExprV, Span)>),
    Block(Seq<(ExprV, Span)>),
    If(Box<(ExprV, Span)>, Box<(ExprV, Span)>, Option<Box<(ExprV, Span)>>),
    Let(IdentV, Option<TypeV>, Box<(ExprV, Span)>, Box<(ExprV, Span)>),
    Other,
}

/// The value of an expression.
pub open spec fn ev(e: Expr) -> ExprV
    decreases e,
{
    match e {
        Expr::Int(n) => ExprV::Int(n),
        Expr::Float(f) => ExprV::Float(f.text@),
        Expr::String(s) => ExprV::Str(s@),
        Expr::Bool(b) => ExprV::Bool(b),
        Expr::Var(v) => ExprV::Var(iv(v)),
        Expr::BinOp(a, op, b) => ExprV::BinOp(Box::new(sev(*a)), op, Box::new(sev(*b))),
        Expr::UnaryOp(op, a) => ExprV::UnaryOp(op, Box::new(sev(*a))),
        Expr::Tuple(es) => ExprV::Tuple(sevs(es@)),
        Expr::Array(es) => ExprV::Array(sevs(es@)),
        Expr::Block(ss) => ExprV::Block(stmtvs(ss@)),
        Expr::If(c, t, e2) => ExprV::If(Box::new(sev(*c)), Box::new(sev(*t)), match e2 {
            Some(x) => Some(Box::new(sev(*x))),
            None => None,
        }),
        Expr::Let(n, ty, v, b) => ExprV::Let(iv(n), match ty {
            Some(t) => Some(tyv(t)),
            None => None,
        }, Box::new(sev(*v)), Box::new(sev(*b))),
        _ => ExprV::Other,
    }
}

/// The value of a spanned expression.
pub open spec fn sev(e: Spanned<Expr>) -> (ExprV, Span)
    decreases e,
{
    (ev(e.node), e.span)
}

/// The values of spanned expressions.
pub open spec fn sevs(s: Seq<Spanned<Expr>>) -> Seq<(ExprV, Span)>
    decreases s,
{
    if s.len() == 0 { Seq::empty() } else { sevs(s.drop_last()).push(sev(s.last())) }
}

/// The values of block statements: expression statements as their
/// expression, others as `Other`.
pub open spec fn stmtvs(s: Seq<Spanned<Stmt>>) -> Seq<(ExprV, Span)>
    decreases s,
{
    if s.len() == 0 {
        Seq::empty()
    } else {
        stmtvs(s.drop_last()).push((match s.last().node {
            Stmt::Expr(e) => ev(e),
            _ => ExprV::Other,
        }, s.last().span))
    }
}

/// A time expression as a value.
pub enum TimeV {
    Literal(Seq<char>),
    Formatted(Seq<char>),
    Var(IdentV),
    Other,
}

/// The value of a time expression.
pub open spec fn timev(t: TimeExpr) -> TimeV {
    match t {
        TimeExpr::Literal(f) => TimeV::Literal(f.text@),
        TimeExpr::Formatted(s) => TimeV::Formatted(s@),
        TimeExpr::Var(v) => TimeV::Var(iv(v)),
        _ => TimeV::Other,
    }
}

/// A timing as a value.
pub enum TimingV {
    At(TimeV),
    Range(TimeV, TimeV),
    Duration(TimeV),
    Beat(i64),
    Other,
}

/// The value of a timing.
pub open spec fn timingv(t: Timing) -> TimingV {
    match t {
        Timing::At(a) => TimingV::At(timev(a)),
        Timing::Range(a, b) => TimingV::Range(timev(a), timev(b)),
        Timing::Duration(a) => TimingV::Duration(timev(a)),
        Timing::Beat(n) => TimingV::Beat(n),
        _ => TimingV::Other,
    }
}

/// An element kind as a value (only the forms the grammar builds, with their
/// optional parts left out).
pub enum KindV {
    Jump(Rotations, JumpKind),
    Spin(Seq<SpinPosition>, Option<Level>),
    Step(StepPattern, Option<Level>),
    Lift(LiftGroup, Option<Level>),
    Throw(Rotations, JumpKind),
    Twist(Rotations, Option<Level>),
    DeathSpiral(Edge, Option<Level>),
    Choreographic(ChoreographicKind),
    Other,
}

/// Is a spin position plain (no revolutions, no changes)?
pub open spec fn plain_position(p: SpinPositionDef) -> bool {
    p.revolutions is None && !p.change_edge && !p.change_foot
}

/// The value of an element kind; a kind with optional parts set is `Other`.
pub open spec fn kindv(k: ElementKind) -> KindV {
    match k {
        ElementKind::Jump(j) => if j.entry_edge is None && j.exit_edge is None && j.combination@.len() == 0 {
            KindV::Jump(j.rotations, j.kind)
        } else {
            KindV::Other
        },
        ElementKind::Spin(s) => if s.min_revs is None && s.features@.len() == 0
            && forall|i: int| 0 <= i < s.positions@.len() ==> plain_position(#[trigger] s.positions@[i]) {
            KindV::Spin(s.positions@.map_values(|p: SpinPositionDef| p.position), s.level)
        } else {
            KindV::Other
        },
        ElementKind::StepSequence(s) => if s.steps@.len() == 0 { KindV::Step(s.pattern, s.level) } else { KindV::Other },
        ElementKind::Lift(l) => if l.entry is None && l.exit is None { KindV::Lift(l.group, l.level) } else { KindV::Other },
        ElementKind::Throw(t) => KindV::Throw(t.rotations, t.kind),
        ElementKind::Twist(t) => KindV::Twist(t.rotations, t.level),
        ElementKind::DeathSpiral(d) => KindV::DeathSpiral(d.edge, d.level),
        ElementKind::Choreographic(c) => if c.description is None { KindV::Choreographic(c.kind) } else { KindV::Other },
        _ => KindV::Other,
    }
}

/// An element as a value: kind, timing and span (no position, no
/// annotations).
pub struct ElemV {
    pub kind: KindV,
    pub timing: Option<TimingV>,
    pub span: Span,
    pub plain: bool,
}

/// The value of an element.
pub open spec fn elemv(e: Element) -> ElemV {
    ElemV {
        kind: kindv(e.kind),
        timing: match e.timing {
            Some(t) => Some(timingv(t)),
            None => None,
        },
        span: e.span,
        plain: e.position is None && e.annotations@.len() == 0,
    }
}

/// A sequence as a value.
pub struct SeqV {
    pub name: Option<IdentV>,
    pub elements: Seq<ElemV>,
    pub span: Span,
}

/// The value of a sequence.
pub open spec fn seqv(s: Sequence) -> SeqV {
    SeqV {
        name: match s.name {
            Some(n) => Some(iv(n)),
            None => None,
        },
        elements: s.elements@.map_values(|e: Element| elemv(e)),
        span: s.span,
    }
}

/// A segment as a value.
pub struct SegV {
    pub name: IdentV,
    pub kind: SegmentKind,
    pub sequences: Seq<SeqV>,
    pub span: Span,
    pub plain: bool,
}

/// The value of a segment.
pub open spec fn segv(s: Segment) -> SegV {
    SegV {
        name: iv(s.name),
        kind: s.kind,
        sequences: s.sequences@.map_values(|q: Sequence| seqv(q)),
        span: s.span,
        plain: s.music is None && s.duration is None && s.skaters@.len() == 0 && s.docs@.len() == 0,
    }
}

/// An import as a value.
pub struct ImportV {
    pub path: Seq<IdentV>,
    pub alias: Option<IdentV>,
    pub span: Span,
    pub plain: bool,
}

/// The value of an import.
pub open spec fn importv(i: Import) -> ImportV {
    ImportV {
        path: i.path@.map_values(|p: Ident| iv(p)),
        alias: match i.alias {
            Some(a) => Some(iv(a)),
            None => None,
        },
        span: i.span,
        plain: i.items is None,
    }
}

/// A parameter as a value: name and type (no default).
pub open spec fn paramv(p: Param) -> (IdentV, Option<TypeV>, bool) {
    (iv(p.name), match p.ty {
        Some(t) => Some(tyv(t)),
        None => None,
    }, p.default is None)
}

/// A function definition as a value.
pub struct FnV {
    pub name: IdentV,
    pub params: Seq<(IdentV, Option<TypeV>, bool)>,
    pub ret: Option<TypeV>,
    pub body: ExprV,
    pub span: Span,
    pub plain: bool,
}

/// The value of a function definition.
pub open spec fn fnv(f: FnDef) -> FnV {
    FnV {
        name: iv(f.name),
        params: f.params@.map_values(|p: Param| paramv(p)),
        ret: match f.return_ty {
            Some(t) => Some(tyv(t)),
            None => None,
        },
        body: ev(f.body),
        span: f.span,
        plain: f.type_params@.len() == 0 && f.docs@.len() == 0,
    }
}

/// A program as a value.
pub struct ProgV {
    pub name: IdentV,
    pub docs: Seq<Seq<char>>,
    pub imports: Seq<ImportV>,
    pub functions: Seq<FnV>,
    pub segments: Seq<SegV>,
    pub plain: bool,
}

/// The value of a program.
pub open spec fn progv(p: Program) -> ProgV {
    ProgV {
        name: iv(p.name),
        docs: p.docs@.map_values(|d: String| d@),
        imports: p.imports@.map_values(|i: Import| importv(i)),
        functions: p.functions@.map_values(|f: FnDef| fnv(f)),
        segments: p.segments@.map_values(|s: Segment| segv(s)),
        plain: p.types@.len() == 0,
    }
}

// ---------------------------------------------------------------------------
// The grammar
// ---------------------------------------------------------------------------

/// Token values with their byte spans.
pub type Toks = Seq<(TokV, int, int)>;

/// The values of spanned tokens.
pub open spec fn tvs(ts: Seq<SpannedToken>) -> Toks {
    ts.map_values(|t: SpannedToken| spanned_view(t))
}

/// Is the token at `i` the given one?
pub open spec fn at(ts: Toks, i: int, t: TokV) -> bool {
    0 <= i < ts.len() && ts[i].0 == t
}

/// The span from the start of token `i` to the end of token `j - 1`.
pub open spec fn span_of(ts: Toks, i: int, j: int, f: FileId) -> Span {
    Span { start: ts[i].1 as u32, end: ts[j - 1].2 as u32, file_id: f }
}

/// An identifier at `i`.
pub open spec fn p_ident(ts: Toks, i: int, f: FileId) -> Option<(IdentV, int)> {
    if 0 <= i < ts.len() {
        match ts[i].0 {
            TokV::Ident(s) => Some(((s, span_of(ts, i, i + 1, f)), i + 1)),
            _ => None,
        }
    } else {
        None
    }
}

/// The value a one-token grammar item reads from a token.
pub open spec fn rotations_of(t: TokV) -> Option<Rotations> {
    match t {
        TokV::Single => Some(Rotations::Single),
        TokV::Double => Some(Rotations::Double),
        TokV::Triple => Some(Rotations::Triple),
        TokV::Quad => Some(Rotations::Quad),
        _ => None,
    }
}

pub open spec fn jump_kind_of(t: TokV) -> Option<JumpKind> {
    match t {
        TokV::Axel => Some(JumpKind::Axel),
        TokV::Lutz => Some(JumpKind::Lutz),
        TokV::Flip => Some(JumpKind::Flip),
        TokV::Loop => Some(JumpKind::Loop),
        TokV::Salchow => Some(JumpKind::Salchow),
        TokV::ToeLoop => Some(JumpKind::ToeLoop),
        TokV::Euler => Some(JumpKind::Euler),
        _ => None,
    }
}

pub open spec fn level_of(t: TokV) -> Option<Level> {
    match t {
        TokV::LevelB => Some(Level::B),
        TokV::Level1 => Some(Level::L1),
        TokV::Level2 => Some(Level::L2),
        TokV::Level3 => Some(Level::L3),
        TokV::Level4 => Some(Level::L4),
        _ => None,
    }
}

pub open spec fn spin_position_of(t: TokV) -> Option<SpinPosition> {
    match t {
        TokV::Upright => Some(SpinPosition::Upright),
        TokV::Sit => Some(SpinPosition::Sit),
        TokV::Camel => Some(SpinPosition::Camel),
        TokV::Layback => Some(SpinPosition::Layback),
        TokV::Biellmann => Some(SpinPosition::Biellmann),
        _ => None,
    }
}

pub open spec fn step_pattern_of(t: TokV) -> Option<StepPattern> {
    match t {
        TokV::Ident(s) => if s == "straight"@ { Some(StepPattern::Straight) }
            else if s == "circular"@ { Some(StepPattern::Circular) }
            else if s == "serpentine"@ { Some(StepPattern::Serpentine) }
            else if s == "diagonal"@ { Some(StepPattern::Diagonal) }
            else if s == "midline"@ { Some(StepPattern::Midline) }
            else { None },
        _ => None,
    }
}

pub open spec fn lift_group_of(t: TokV) -> Option<LiftGroup> {
    match t {
        TokV::LiftGroup1 => Some(LiftGroup::Group1),
        TokV::LiftGroup2 => Some(LiftGroup::Group2),
        TokV::LiftGroup3 => Some(LiftGroup::Group3),
        TokV::LiftGroup4 => Some(LiftGroup::Group4),
        TokV::LiftGroup5 => Some(LiftGroup::Group5),
        _ => None,
    }
}

pub open spec fn edge_of(t: TokV) -> Option<Edge> {
    match t {
        TokV::LFO => Some(Edge::LFO),
        TokV::LFI => Some(Edge::LFI),
        TokV::LBO => Some(Edge::LBO),
        TokV::LBI => Some(Edge::LBI),
        TokV::RFO => Some(Edge::RFO),
        TokV::RFI => Some(Edge::RFI),
        TokV::RBO => Some(Edge::RBO),
        TokV::RBI => Some(Edge::RBI),
        _ => None,
    }
}

pub open spec fn choreo_kind_of(t: TokV) -> Option<ChoreographicKind> {
    match t {
        TokV::Spiral => Some(ChoreographicKind::Spiral),
        TokV::Spread => Some(ChoreographicKind::Spread),
        TokV::Ina => Some(ChoreographicKind::Ina),
        TokV::Hydroblading => Some(ChoreographicKind::Hydroblading),
        TokV::Pivot => Some(ChoreographicKind::Pivot),
        TokV::Choreographic => Some(ChoreographicKind::Choreographic),
        _ => None,
    }
}

pub open spec fn segment_kind_of(t: TokV) -> Option<SegmentKind> {
    match t {
        TokV::Short => Some(SegmentKind::Short),
        TokV::Free => Some(SegmentKind::Free),
        TokV::Pattern => Some(SegmentKind::Pattern),
        TokV::Rhythm => Some(SegmentKind::Rhythm),
        TokV::Exhibition => Some(SegmentKind::Exhibition),
        _ => None,
    }
}

/// The token at `i`, if any.
pub open spec fn tok(ts: Toks, i: int) -> Option<TokV> {
    if 0 <= i < ts.len() { Some(ts[i].0) } else { None }
}

/// An optional level at `i`.
pub open spec fn p_opt_level(ts: Toks, i: int) -> (Option<Level>, int) {
    match tok(ts, i) {
        Some(t) => match level_of(t) {
            Some(l) => (Some(l), i + 1),
            None => (None, i),
        },
        None => (None, i),
    }
}

/// A type: a base type followed by any number of `?`.
pub open spec fn p_type(ts: Toks, i: int, f: FileId) -> Option<(TypeV, int)>
    decreases ts.len() - i, 3nat,
{
    match p_type_base(ts, i, f) {
        Some((t, j)) => if i < j <= ts.len() { Some(p_type_post(ts, j, t)) } else { None },
        None => None,
    }
}

/// `?` suffixes after a type.
pub open spec fn p_type_post(ts: Toks, j: int, t: TypeV) -> (TypeV, int)
    decreases ts.len() - j,
{
    if at(ts, j, TokV::Question) { p_type_post(ts, j + 1, TypeV::Optional(Box::new(t))) } else { (t, j) }
}

/// A base type: `[T]`, a tuple `(T, T, ...)` of at least two, a generic
/// application `Name<T, ...>`, or a name.
pub open spec fn p_type_base(ts: Toks, i: int, f: FileId) -> Option<(TypeV, int)>
    decreases ts.len() - i, 2nat,
{
    if at(ts, i, TokV::LBracket) {
        match p_type(ts, i + 1, f) {
            Some((t, j)) => if at(ts, j, TokV::RBracket) { Some((TypeV::Array(Box::new(t)), j + 1)) } else { None },
            None => None,
        }
    } else if at(ts, i, TokV::LParen) {
        let (items, j) = p_type_list(ts, i + 1, f);
        if items.len() >= 2 && at(ts, j, TokV::RParen) { Some((TypeV::Tuple(items), j + 1)) } else { None }
    } else {
        match p_ident(ts, i, f) {
            Some((name, j)) => if at(ts, j, TokV::Lt) {
                let (args, k) = p_type_list(ts, j + 1, f);
                if args.len() >= 1 && at(ts, k, TokV::Gt) {
                    Some((TypeV::App(Box::new(TypeV::Named(name)), args), k + 1))
                } else {
                    Some((TypeV::Named(name), j))
                }
            } else {
                Some((TypeV::Named(name), j))
            },
            None => None,
        }
    }
}

/// Types separated by commas (none at all allowed, no trailing comma).
pub open spec fn p_type_list(ts: Toks, i: int, f: FileId) -> (Seq<TypeV>, int)
    decreases ts.len() - i, 4nat,
{
    if i < 0 || i > ts.len() {
        (Seq::empty(), i)
    } else {
        match p_type(ts, i, f) {
            Some((t, j)) => if i < j <= ts.len() { p_type_more(ts, j, f, seq![t]) } else { (Seq::empty(), i) },
            None => (Seq::empty(), i),
        }
    }
}

/// More `, T` items after a list of types.
pub open spec fn p_type_more(ts: Toks, j: int, f: FileId, acc: Seq<TypeV>) -> (Seq<TypeV>, int)
    decreases ts.len() - j, 5nat,
{
    if at(ts, j, TokV::Comma) {
        match p_type(ts, j + 1, f) {
            Some((t, k)) => if j < k <= ts.len() { p_type_more(ts, k, f, acc.push(t)) } else { (acc, j) },
            None => (acc, j),
        }
    } else {
        (acc, j)
    }
}

/// Does the step from `i` to `j` advance within the tokens?
pub open spec fn adv(ts: Toks, i: int, j: int) -> bool {
    i < j <= ts.len()
}

/// A spanned expression value.
pub type SpE = (ExprV, Span);

/// The operator of a binary level: 5 `||`, 4 `&&`, 3 comparisons, 2
/// additive, 1 multiplicative.
pub open spec fn binop_at(lvl: nat, t: TokV) -> Option<BinOp> {
    if lvl == 5 {
        match t { TokV::OrOr => Some(BinOp::Or), _ => None }
    } else if lvl == 4 {
        match t { TokV::AndAnd => Some(BinOp::And), _ => None }
    } else if lvl == 3 {
        match t {
            TokV::EqEq => Some(BinOp::Eq),
            TokV::NotEq => Some(BinOp::NotEq),
            TokV::LtEq => Some(BinOp::LtEq),
            TokV::Lt => Some(BinOp::Lt),
            TokV::GtEq => Some(BinOp::GtEq),
            TokV::Gt => Some(BinOp::Gt),
            _ => None,
        }
    } else if lvl == 2 {
        match t { TokV::Plus => Some(BinOp::Add), TokV::Minus => Some(BinOp::Sub), _ => None }
    } else {
        match t { TokV::Star => Some(BinOp::Mul), TokV::Slash => Some(BinOp::Div), TokV::Percent => Some(BinOp::Mod), _ => None }
    }
}

/// An expression.
pub open spec fn p_expr(ts: Toks, i: int, f: FileId) -> Option<(SpE, int)>
    decreases ts.len() - i, 14nat,
{
    p_level(ts, i, f, 5)
}

/// The operand of a binary level.
pub open spec fn p_operand(ts: Toks, i: int, f: FileId, lvl: nat) -> Option<(SpE, int)>
    decreases ts.len() - i, 2 * lvl + 2,
{
    if lvl <= 1 { p_unary(ts, i, f) } else { p_level(ts, i, f, (lvl - 1) as nat) }
}

/// A binary level: operands joined by its operators, grouping to the left.
pub open spec fn p_level(ts: Toks, i: int, f: FileId, lvl: nat) -> Option<(SpE, int)>
    decreases ts.len() - i, 2 * lvl + 3,
{
    match p_operand(ts, i, f, lvl) {
        Some((l, j)) => if adv(ts, i, j) { Some(p_level_more(ts, j, f, lvl, l)) } else { None },
        None => None,
    }
}

/// Further `op operand` pairs of a binary level.
pub open spec fn p_level_more(ts: Toks, j: int, f: FileId, lvl: nat, acc: SpE) -> (SpE, int)
    decreases ts.len() - j, 2 * lvl + 3,
{
    match tok(ts, j) {
        Some(t) => match binop_at(lvl, t) {
            Some(op) => match p_operand(ts, j + 1, f, lvl) {
                Some((r, k)) => if adv(ts, j, k) {
                    p_level_more(ts, k, f, lvl, (ExprV::BinOp(Box::new(acc), op, Box::new(r)),
                        Span { start: acc.1.start, end: r.1.end, file_id: f }))
                } else {
                    (acc, j)
                },
                None => (acc, j),
            },
            None => (acc, j),
        },
        None => (acc, j),
    }
}

/// A unary expression: `-` and `!` prefixes before an atom. A prefixed
/// expression's span starts at offset 0 and ends where its operand ends.
pub open spec fn p_unary(ts: Toks, i: int, f: FileId) -> Option<(SpE, int)>
    decreases ts.len() - i, 1nat,
{
    let op = match tok(ts, i) {
        Some(TokV::Minus) => Some(UnaryOp::Neg),
        Some(TokV::Not) => Some(UnaryOp::Not),
        _ => None,
    };
    match op {
        Some(o) => match p_unary(ts, i + 1, f) {
            Some((e, j)) => Some(((ExprV::UnaryOp(o, Box::new(e)), Span { start: 0, end: e.1.end, file_id: f }), j)),
            None => None,
        },
        None => p_atom(ts, i, f),
    }
}

/// An atom: a literal, `if`, `let`, a parenthesised expression or tuple, an
/// array, a block, or a variable; its span covers its tokens.
pub open spec fn p_atom(ts: Toks, i: int, f: FileId) -> Option<(SpE, int)>
    decreases ts.len() - i, 0nat,
{
    match tok(ts, i) {
        Some(TokV::Integer(n)) => Some(((ExprV::Int(n), span_of(ts, i, i + 1, f)), i + 1)),
        Some(TokV::Float(s)) => Some(((ExprV::Float(s), span_of(ts, i, i + 1, f)), i + 1)),
        Some(TokV::Str(s)) => Some(((ExprV::Str(s), span_of(ts, i, i + 1, f)), i + 1)),
        Some(TokV::True) => Some(((ExprV::Bool(true), span_of(ts, i, i + 1, f)), i + 1)),
        Some(TokV::False) => Some(((ExprV::Bool(false), span_of(ts, i, i + 1, f)), i + 1)),
        Some(TokV::If) => match p_expr(ts, i + 1, f) {
            Some((c, j)) => if adv(ts, i, j) && at(ts, j, TokV::Then) {
                match p_expr(ts, j + 1, f) {
                    Some((t, k)) => if adv(ts, j, k) {
                        let e2 = if at(ts, k, TokV::Else) { p_expr(ts, k + 1, f) } else { None };
                        match e2 {
                            Some((e, l)) => if adv(ts, k, l) {
                                Some(((ExprV::If(Box::new(c), Box::new(t), Some(Box::new(e))), span_of(ts, i, l, f)), l))
                            } else {
                                None
                            },
                            None => Some(((ExprV::If(Box::new(c), Box::new(t), None), span_of(ts, i, k, f)), k)),
                        }
                    } else {
                        None
                    },
                    None => None,
                }
            } else {
                None
            },
            None => None,
        },
        Some(TokV::Let) => match p_ident(ts, i + 1, f) {
            Some((n, j)) => {
                let (ty, m) = if at(ts, j, TokV::Colon) {
                    match p_type(ts, j + 1, f) {
                        Some((t, k)) => (Some(t), k),
                        None => (None, j),
                    }
                } else {
                    (None, j)
                };
                if adv(ts, i, m) && at(ts, m, TokV::Eq) {
                    match p_expr(ts, m + 1, f) {
                        Some((v, a)) => if adv(ts, m, a) && at(ts, a, TokV::In) {
                            match p_expr(ts, a + 1, f) {
                                Some((b, c)) => if adv(ts, a, c) {
                                    Some(((ExprV::Let(n, ty, Box::new(v), Box::new(b)), span_of(ts, i, c, f)), c))
                                } else {
                                    None
                                },
                                None => None,
                            }
                        } else {
                            None
                        },
                        None => None,
                    }
                } else {
                    None
                }
            },
            None => None,
        },
        Some(TokV::LParen) => {
            let (items, j) = p_expr_list(ts, i + 1, f, TokV::Comma, false, false);
            if items.len() >= 1 && at(ts, j, TokV::RParen) {
                if items.len() == 1 {
                    Some(((items[0].0, span_of(ts, i, j + 1, f)), j + 1))
                } else {
                    Some(((ExprV::Tuple(items), span_of(ts, i, j + 1, f)), j + 1))
                }
            } else {
                None
            }
        },
        Some(TokV::LBracket) => {
            let (items, j) = p_expr_list(ts, i + 1, f, TokV::Comma, true, false);
            if at(ts, j, TokV::RBracket) { Some(((ExprV::Array(items), span_of(ts, i, j + 1, f)), j + 1)) } else { None }
        },
        Some(TokV::LBrace) => {
            let (items, j) = p_expr_list(ts, i + 1, f, TokV::Semi, true, true);
            if at(ts, j, TokV::RBrace) { Some(((ExprV::Block(items), span_of(ts, i, j + 1, f)), j + 1)) } else { None }
        },
        Some(TokV::Ident(s)) => Some(((ExprV::Var((s, span_of(ts, i, i + 1, f))), span_of(ts, i, i + 1, f)), i + 1)),
        _ => None,
    }
}

/// A list item: the expression, or (in a block) the expression with the
/// span of its tokens.
pub open spec fn list_item(ts: Toks, e: SpE, a: int, b: int, f: FileId, stmt: bool) -> SpE {
    if stmt { (e.0, span_of(ts, a, b, f)) } else { e }
}

/// Expressions separated by `sep`, none at all allowed, with a trailing
/// separator allowed when `trailing`.
pub open spec fn p_expr_list(ts: Toks, i: int, f: FileId, sep: TokV, trailing: bool, stmt: bool) -> (Seq<SpE>, int)
    decreases ts.len() - i, 15nat,
{
    if i < 0 || i > ts.len() {
        (Seq::empty(), i)
    } else {
        match p_expr(ts, i, f) {
            Some((e, j)) => if adv(ts, i, j) {
                p_expr_more(ts, j, f, sep, trailing, stmt, seq![list_item(ts, e, i, j, f, stmt)])
            } else {
                (Seq::empty(), i)
            },
            None => (Seq::empty(), i),
        }
    }
}

/// Further `sep expr` items of a list.
pub open spec fn p_expr_more(ts: Toks, j: int, f: FileId, sep: TokV, trailing: bool, stmt: bool, acc: Seq<SpE>) -> (Seq<SpE>, int)
    decreases ts.len() - j, 16nat,
{
    if at(ts, j, sep) {
        match p_expr(ts, j + 1, f) {
            Some((e, k)) => if adv(ts, j, k) {
                p_expr_more(ts, k, f, sep, trailing, stmt, acc.push(list_item(ts, e, j + 1, k, f, stmt)))
            } else {
                (acc, j)
            },
            None => if trailing { (acc, j + 1) } else { (acc, j) },
        }
    } else {
        (acc, j)
    }
}

/// A time expression: a number (kept as written), a time literal or a
/// variable.
pub open spec fn p_time(ts: Toks, i: int, f: FileId) -> Option<(TimeV, int)> {
    match tok(ts, i) {
        Some(TokV::Float(s)) => Some((TimeV::Literal(s), i + 1)),
        Some(TokV::Integer(n)) => Some((TimeV::Literal(signed_decimal(n as int)), i + 1)),
        Some(TokV::Time(s)) => Some((TimeV::Formatted(s), i + 1)),
        Some(TokV::Ident(s)) => Some((TimeV::Var((s, span_of(ts, i, i + 1, f))), i + 1)),
        _ => None,
    }
}

/// A timing: `at T`, `T..T`, `duration T` or `beat N`.
pub open spec fn p_timing(ts: Toks, i: int, f: FileId) -> Option<(TimingV, int)> {
    if at(ts, i, TokV::At) {
        match p_time(ts, i + 1, f) {
            Some((t, j)) => Some((TimingV::At(t), j)),
            None => None,
        }
    } else if at(ts, i, TokV::Duration) {
        match p_time(ts, i + 1, f) {
            Some((t, j)) => Some((TimingV::Duration(t), j)),
            None => None,
        }
    } else if at(ts, i, TokV::Beat) {
        match tok(ts, i + 1) {
            Some(TokV::Integer(n)) => Some((TimingV::Beat(n), i + 2)),
            _ => None,
        }
    } else {
        match p_time(ts, i, f) {
            Some((a, j)) => if at(ts, j, TokV::DotDot) {
                match p_time(ts, j + 1, f) {
                    Some((b, k)) => Some((TimingV::Range(a, b), k)),
                    None => None,
                }
            } else {
                None
            },
            None => None,
        }
    }
}

/// Spin positions in a row.
pub open spec fn p_positions(ts: Toks, i: int) -> (Seq<SpinPosition>, int)
    decreases ts.len() - i,
{
    if 0 <= i < ts.len() {
        match spin_position_of(ts[i].0) {
            Some(p) => {
                let (rest, j) = p_positions(ts, i + 1);
                (seq![p] + rest, j)
            },
            None => (Seq::empty(), i),
        }
    } else {
        (Seq::empty(), i)
    }
}

/// The value of the token at `i` read by `read`, with the next position.
pub open spec fn one<T>(ts: Toks, i: int, read: spec_fn(TokV) -> Option<T>) -> Option<(T, int)> {
    match tok(ts, i) {
        Some(t) => match read(t) {
            Some(v) => Some((v, i + 1)),
            None => None,
        },
        None => None,
    }
}

/// An element kind: `jump R K`, `spin P+ [L]`, `step S [L]`, `lift G [L]`,
/// `throw R K`, `twist R [L]`, `death_spiral E [L]` or `choreographic C`.
pub open spec fn p_kind(ts: Toks, i: int) -> Option<(KindV, int)> {
    match tok(ts, i) {
        Some(TokV::Jump) => match (one(ts, i + 1, |t| rotations_of(t)), one(ts, i + 2, |t| jump_kind_of(t))) {
            (Some((r, _)), Some((k, _))) => Some((KindV::Jump(r, k), i + 3)),
            _ => None,
        },
        Some(TokV::Spin) => {
            let (ps, j) = p_positions(ts, i + 1);
            if ps.len() >= 1 {
                let (l, k) = p_opt_level(ts, j);
                Some((KindV::Spin(ps, l), k))
            } else {
                None
            }
        },
        Some(TokV::Step) => match one(ts, i + 1, |t| step_pattern_of(t)) {
            Some((p, j)) => {
                let (l, k) = p_opt_level(ts, j);
                Some((KindV::Step(p, l), k))
            },
            None => None,
        },
        Some(TokV::Lift) => match one(ts, i + 1, |t| lift_group_of(t)) {
            Some((g, j)) => {
                let (l, k) = p_opt_level(ts, j);
                Some((KindV::Lift(g, l), k))
            },
            None => None,
        },
        Some(TokV::Throw) => match (one(ts, i + 1, |t| rotations_of(t)), one(ts, i + 2, |t| jump_kind_of(t))) {
            (Some((r, _)), Some((k, _))) => Some((KindV::Throw(r, k), i + 3)),
            _ => None,
        },
        Some(TokV::Twist) => match one(ts, i + 1, |t| rotations_of(t)) {
            Some((r, j)) => {
                let (l, k) = p_opt_level(ts, j);
                Some((KindV::Twist(r, l), k))
            },
            None => None,
        },
        Some(TokV::DeathSpiral) => match one(ts, i + 1, |t| edge_of(t)) {
            Some((e, j)) => {
                let (l, k) = p_opt_level(ts, j);
                Some((KindV::DeathSpiral(e, l), k))
            },
            None => None,
        },
        Some(TokV::Choreographic) => match one(ts, i + 1, |t| choreo_kind_of(t)) {
            Some((c, j)) => Some((KindV::Choreographic(c), j)),
            None => None,
        },
        _ => None,
    }
}

/// An element: a kind and an optional timing; its span covers its tokens.
pub open spec fn p_element(ts: Toks, i: int, f: FileId) -> Option<(ElemV, int)> {
    match p_kind(ts, i) {
        Some((k, j)) => match p_timing(ts, j, f) {
            Some((t, m)) => Some((ElemV { kind: k, timing: Some(t), span: span_of(ts, i, m, f), plain: true }, m)),
            None => Some((ElemV { kind: k, timing: None, span: span_of(ts, i, j, f), plain: true }, j)),
        },
        None => None,
    }
}

/// Elements in a row.
pub open spec fn p_elements(ts: Toks, i: int, f: FileId) -> (Seq<ElemV>, int)
    decreases ts.len() - i,
{
    match p_element(ts, i, f) {
        Some((e, j)) => if adv(ts, i, j) {
            let (rest, k) = p_elements(ts, j, f);
            (seq![e] + rest, k)
        } else {
            (Seq::empty(), i)
        },
        None => (Seq::empty(), i),
    }
}

/// A sequence: `sequence [name] { element* }`.
pub open spec fn p_sequence(ts: Toks, i: int, f: FileId) -> Option<(SeqV, int)> {
    if at(ts, i, TokV::Sequence) {
        let (name, j) = match p_ident(ts, i + 1, f) {
            Some((n, j)) => (Some(n), j),
            None => (None, i + 1),
        };
        if at(ts, j, TokV::LBrace) {
            let (es, k) = p_elements(ts, j + 1, f);
            if at(ts, k, TokV::RBrace) {
                Some((SeqV { name, elements: es, span: span_of(ts, i, k + 1, f) }, k + 1))
            } else {
                None
            }
        } else {
            None
        }
    } else {
        None
    }
}

/// Sequences in a row.
pub open spec fn p_sequences(ts: Toks, i: int, f: FileId) -> (Seq<SeqV>, int)
    decreases ts.len() - i,
{
    match p_sequence(ts, i, f) {
        Some((s, j)) => if adv(ts, i, j) {
            let (rest, k) = p_sequences(ts, j, f);
            (seq![s] + rest, k)
        } else {
            (Seq::empty(), i)
        },
        None => (Seq::empty(), i),
    }
}

/// A segment: `segment name: kind { sequence* }`.
pub open spec fn p_segment(ts: Toks, i: int, f: FileId) -> Option<(SegV, int)> {
    if at(ts, i, TokV::Segment) {
        match p_ident(ts, i + 1, f) {
            Some((n, j)) => match one(ts, j + 1, |t| segment_kind_of(t)) {
                Some((kind, _)) => if at(ts, j, TokV::Colon) && at(ts, j + 2, TokV::LBrace) {
                    let (ss, k) = p_sequences(ts, j + 3, f);
                    if at(ts, k, TokV::RBrace) {
                        Some((SegV { name: n, kind, sequences: ss, span: span_of(ts, i, k + 1, f), plain: true }, k + 1))
                    } else {
                        None
                    }
                } else {
                    None
                },
                None => None,
            },
            None => None,
        }
    } else {
        None
    }
}

/// Further `:: name` parts of an import path.
pub open spec fn p_path_more(ts: Toks, j: int, f: FileId, acc: Seq<IdentV>) -> (Seq<IdentV>, int)
    decreases ts.len() - j,
{
    if at(ts, j, TokV::ColonColon) {
        match p_ident(ts, j + 1, f) {
            Some((n, k)) => p_path_more(ts, k, f, acc.push(n)),
            None => (acc, j),
        }
    } else {
        (acc, j)
    }
}

/// An import: `import a::b::c [as name]`.
pub open spec fn p_import(ts: Toks, i: int, f: FileId) -> Option<(ImportV, int)> {
    if at(ts, i, TokV::Import) {
        match p_ident(ts, i + 1, f) {
            Some((n, j)) => {
                let (path, k) = p_path_more(ts, j, f, seq![n]);
                let (alias, m) = if at(ts, k, TokV::As) {
                    match p_ident(ts, k + 1, f) {
                        Some((a, m)) => (Some(a), m),
                        None => (None, k),
                    }
                } else {
                    (None, k)
                };
                Some((ImportV { path, alias, span: span_of(ts, i, m, f), plain: true }, m))
            },
            None => None,
        }
    } else {
        None
    }
}

/// A parameter: `name [: type]`.
pub open spec fn p_param(ts: Toks, i: int, f: FileId) -> Option<((IdentV, Option<TypeV>, bool), int)> {
    match p_ident(ts, i, f) {
        Some((n, j)) => if at(ts, j, TokV::Colon) {
            match p_type(ts, j + 1, f) {
                Some((t, k)) => Some(((n, Some(t), true), k)),
                None => Some(((n, None, true), j)),
            }
        } else {
            Some(((n, None, true), j))
        },
        None => None,
    }
}

/// Further `, param` items; a trailing comma is allowed.
pub open spec fn p_params_more(ts: Toks, j: int, f: FileId, acc: Seq<(IdentV, Option<TypeV>, bool)>) -> (Seq<(IdentV, Option<TypeV>, bool)>, int)
    decreases ts.len() - j,
{
    if at(ts, j, TokV::Comma) {
        match p_param(ts, j + 1, f) {
            Some((p, k)) => if adv(ts, j, k) { p_params_more(ts, k, f, acc.push(p)) } else { (acc, j) },
            None => (acc, j + 1),
        }
    } else {
        (acc, j)
    }
}

/// Parameters separated by commas (none allowed, trailing comma allowed).
pub open spec fn p_params(ts: Toks, i: int, f: FileId) -> (Seq<(IdentV, Option<TypeV>, bool)>, int) {
    match p_param(ts, i, f) {
        Some((p, j)) => p_params_more(ts, j, f, seq![p]),
        None => (Seq::empty(), i),
    }
}

/// A function definition: `fn name(params) [-> type] = expr`.
pub open spec fn p_fn(ts: Toks, i: int, f: FileId) -> Option<(FnV, int)> {
    if at(ts, i, TokV::Fn) {
        match p_ident(ts, i + 1, f) {
            Some((n, j)) => if at(ts, j, TokV::LParen) {
                let (ps, k) = p_params(ts, j + 1, f);
                if at(ts, k, TokV::RParen) {
                    let (ret, m) = if at(ts, k + 1, TokV::Arrow) {
                        match p_type(ts, k + 2, f) {
                            Some((t, m)) => (Some(t), m),
                            None => (None, k + 1),
                        }
                    } else {
                        (None, k + 1)
                    };
                    if at(ts, m, TokV::Eq) {
                        match p_expr(ts, m + 1, f) {
                            Some((body, e)) => Some((FnV { name: n, params: ps, ret, body: body.0, span: span_of(ts, i, e, f), plain: true }, e)),
                            None => None,
                        }
                    } else {
                        None
                    }
                } else {
                    None
                }
            } else {
                None
            },
            None => None,
        }
    } else {
        None
    }
}

/// A program item.
pub enum ItemV {
    Import(ImportV),
    Fn(FnV),
    Segment(SegV),
}

/// A program item: an import, a function or a segment.
pub open spec fn p_item(ts: Toks, i: int, f: FileId) -> Option<(ItemV, int)> {
    match p_import(ts, i, f) {
        Some((x, j)) => Some((ItemV::Import(x), j)),
        None => match p_fn(ts, i, f) {
            Some((x, j)) => Some((ItemV::Fn(x), j)),
            None => match p_segment(ts, i, f) {
                Some((x, j)) => Some((ItemV::Segment(x), j)),
                None => None,
            },
        },
    }
}

/// Program items in a row.
pub open spec fn p_items(ts: Toks, i: int, f: FileId) -> (Seq<ItemV>, int)
    decreases ts.len() - i,
{
    match p_item(ts, i, f) {
        Some((x, j)) => if adv(ts, i, j) {
            let (rest, k) = p_items(ts, j, f);
            (seq![x] + rest, k)
        } else {
            (Seq::empty(), i)
        },
        None => (Seq::empty(), i),
    }
}

/// The imports among the items, in order.
pub open spec fn imports_of(items: Seq<ItemV>) -> Seq<ImportV>
    decreases items.len(),
{
    if items.len() == 0 {
        Seq::empty()
    } else {
        imports_of(items.drop_last()) + match items.last() {
            ItemV::Import(x) => seq![x],
            _ => Seq::empty(),
        }
    }
}

/// The functions among the items, in order.
pub open spec fn functions_of(items: Seq<ItemV>) -> Seq<FnV>
    decreases items.len(),
{
    if items.len() == 0 {
        Seq::empty()
    } else {
        functions_of(items.drop_last()) + match items.last() {
            ItemV::Fn(x) => seq![x],
            _ => Seq::empty(),
        }
    }
}

/// The segments among the items, in order.
pub open spec fn segments_of(items: Seq<ItemV>) -> Seq<SegV>
    decreases items.len(),
{
    if items.len() == 0 {
        Seq::empty()
    } else {
        segments_of(items.drop_last()) + match items.last() {
            ItemV::Segment(x) => seq![x],
            _ => Seq::empty(),
        }
    }
}

/// Documentation comments in a row.
pub open spec fn p_docs(ts: Toks, i: int) -> (Seq<Seq<char>>, int)
    decreases ts.len() - i,
{
    if 0 <= i < ts.len() {
        match ts[i].0 {
            TokV::DocComment(d) => {
                let (rest, j) = p_docs(ts, i + 1);
                (seq![d] + rest, j)
            },
            _ => (Seq::empty(), i),
        }
    } else {
        (Seq::empty(), i)
    }
}

/// A program: `/// doc`* `program name { item* }` and nothing after it.
pub open spec fn p_program(ts: Toks, f: FileId) -> Option<ProgV> {
    let (docs, i) = p_docs(ts, 0);
    if at(ts, i, TokV::Program) {
        match p_ident(ts, i + 1, f) {
            Some((n, j)) => if at(ts, j, TokV::LBrace) {
                let (items, k) = p_items(ts, j + 1, f);
                if at(ts, k, TokV::RBrace) && k + 1 == ts.len() {
                    Some(ProgV {
                        name: n,
                        docs,
                        imports: imports_of(items),
                        functions: functions_of(items),
                        segments: segments_of(items),
                        plain: true,
                    })
                } else {
                    None
                }
            } else {
                None
            },
            None => None,
        }
    } else {
        None
    }
}

/// The token index where parsing a program stops: the first token that does
/// not fit, or the token count when the tokens end too early.
pub open spec fn program_stop(ts: Toks, f: FileId) -> int {
    let (docs, i) = p_docs(ts, 0);
    if !at(ts, i, TokV::Program) {
        i
    } else {
        match p_ident(ts, i + 1, f) {
            None => i + 1,
            Some((n, j)) => if !at(ts, j, TokV::LBrace) {
                j
            } else {
                let (items, k) = p_items(ts, j + 1, f);
                if !at(ts, k, TokV::RBrace) { k } else { k + 1 }
            },
        }
    }
}

proof fn lemma_view_lens(a: Seq<TypeExpr>, b: Seq<Spanned<Expr>>, c: Seq<Spanned<Stmt>>)
    ensures
        tyvs(a).len() == a.len(),
        sevs(b).len() == b.len(),
        stmtvs(c).len() == c.len(),
    decreases a.len() + b.len() + c.len(),
{
    if a.len() > 0 {
        lemma_view_lens(a.drop_last(), b, c);
    } else if b.len() > 0 {
        lemma_view_lens(a, b.drop_last(), c);
    } else if c.len() > 0 {
        lemma_view_lens(a, b, c.drop_last());
    }
}

// ---------------------------------------------------------------------------
// The parser
// ---------------------------------------------------------------------------

/// Does an executable parse result agree with the grammar's?
pub open spec fn agrees<A, V>(r: Option<(A, usize)>, s: Option<(V, int)>, view: spec_fn(A) -> V) -> bool {
    match s {
        Some((v, j)) => r matches Some((x, k)) && view(x) == v && k == j,
        None => r is None,
    }
}

fn span_at(ts: &Vec<SpannedToken>, i: usize, j: usize, f: FileId) -> (s: Span)
    requires
        i < j <= ts@.len(),
    ensures
        s == span_of(tvs(ts@), i as int, j as int, f),
{
    Span { start: ts[i].span.start as u32, end: ts[j - 1].span.end as u32, file_id: f }
}

fn parse_ident(ts: &Vec<SpannedToken>, i: usize, f: FileId) -> (r: Option<(Ident, usize)>)
    ensures
        agrees(r, p_ident(tvs(ts@), i as int, f), |x: Ident| iv(x)),
{
    if i < ts.len() {
        match &ts[i].token {
            Token::Ident(s) => Some((Spanned { node: s.clone(), span: span_at(ts, i, i + 1, f) }, i + 1)),
            _ => None,
        }
    } else {
        None
    }
}

/// Is the token at `j` of the kind `k` names (see `kind_tok`)?
fn tok_is(ts: &Vec<SpannedToken>, j: usize, k: u8) -> (b: bool)
    requires
        k < 28,
    ensures
        b == at(tvs(ts@), j as int, kind_tok(k)),
{
    if j >= ts.len() {
        return false;
    }
    let ghost tv = tok_view(ts@[j as int].token);
    assert(tvs(ts@)[j as int].0 == tv);
    match &ts[j].token {
        Token::LBracket => k == 0,
        Token::RBracket => k == 1,
        Token::LParen => k == 2,
        Token::RParen => k == 3,
        Token::LBrace => k == 4,
        Token::RBrace => k == 5,
        Token::Comma => k == 6,
        Token::Semi => k == 7,
        Token::Colon => k == 8,
        Token::ColonColon => k == 9,
        Token::Question => k == 10,
        Token::Lt => k == 11,
        Token::Gt => k == 12,
        Token::Eq => k == 13,
        Token::Then => k == 14,
        Token::Else => k == 15,
        Token::In => k == 16,
        Token::Arrow => k == 17,
        Token::As => k == 18,
        Token::DotDot => k == 19,
        Token::At => k == 20,
        Token::Duration => k == 21,
        Token::Beat => k == 22,
        Token::Sequence => k == 23,
        Token::Segment => k == 24,
        Token::Import => k == 25,
        Token::Fn => k == 26,
        Token::Program => k == 27,
        _ => false,
    }
}

/// The punctuation and keyword tokens the parser tests for, by number.
pub open spec fn kind_tok(k: u8) -> TokV {
    if k == 0 { TokV::LBracket }
    else if k == 1 { TokV::RBracket }
    else if k == 2 { TokV::LParen }
    else if k == 3 { TokV::RParen }
    else if k == 4 { TokV::LBrace }
    else if k == 5 { TokV::RBrace }
    else if k == 6 { TokV::Comma }
    else if k == 7 { TokV::Semi }
    else if k == 8 { TokV::Colon }
    else if k == 9 { TokV::ColonColon }
    else if k == 10 { TokV::Question }
    else if k == 11 { TokV::Lt }
    else if k == 12 { TokV::Gt }
    else if k == 13 { TokV::Eq }
    else if k == 14 { TokV::Then }
    else if k == 15 { TokV::Else }
    else if k == 16 { TokV::In }
    else if k == 17 { TokV::Arrow }
    else if k == 18 { TokV::As }
    else if k == 19 { TokV::DotDot }
    else if k == 20 { TokV::At }
    else if k == 21 { TokV::Duration }
    else if k == 22 { TokV::Beat }
    else if k == 23 { TokV::Sequence }
    else if k == 24 { TokV::Segment }
    else if k == 25 { TokV::Import }
    else if k == 26 { TokV::Fn }
    else if k == 27 { TokV::Program }
    else { TokV::Ident(Seq::empty()) }
}

fn parse_type(ts: &Vec<SpannedToken>, i: usize, f: FileId) -> (r: Option<(TypeExpr, usize)>)
    requires
        ts@.len() < usize::MAX,
        i <= ts@.len(),
    ensures
        agrees(r, p_type(tvs(ts@), i as int, f), |t: TypeExpr| tyv(t)),
        r matches Some((_, k)) ==> i < k <= ts@.len(),
    decreases ts@.len() - i, 3nat,
{
    match parse_type_base(ts, i, f) {
        Some((t, j)) => if i < j && j <= ts.len() {
            Some(parse_type_post(ts, j, t))
        } else {
            None
        },
        None => None,
    }
}

fn parse_type_post(ts: &Vec<SpannedToken>, j: usize, t: TypeExpr) -> (r: (TypeExpr, usize))
    requires
        ts@.len() < usize::MAX,
        j <= ts@.len(),
    ensures
        (tyv(r.0), r.1 as int) == p_type_post(tvs(ts@), j as int, tyv(t)),
        j <= r.1 <= ts@.len(),
    decreases ts@.len() - j,
{
    if tok_is(ts, j, 10) {
        parse_type_post(ts, j + 1, TypeExpr::Optional(Box::new(t)))
    } else {
        (t, j)
    }
}

fn parse_type_base(ts: &Vec<SpannedToken>, i: usize, f: FileId) -> (r: Option<(TypeExpr, usize)>)
    requires
        ts@.len() < usize::MAX,
        i <= ts@.len(),
    ensures
        agrees(r, p_type_base(tvs(ts@), i as int, f), |t: TypeExpr| tyv(t)),
        r matches Some((_, k)) ==> i < k <= ts@.len(),
    decreases ts@.len() - i, 2nat,
{
    if tok_is(ts, i, 0) {
        match parse_type(ts, i + 1, f) {
            Some((t, j)) => if tok_is(ts, j, 1) { Some((TypeExpr::Array(Box::new(t)), j + 1)) } else { None },
            None => None,
        }
    } else if tok_is(ts, i, 2) {
        let (items, j) = parse_type_list(ts, i + 1, f);
        proof { lemma_view_lens(items@, Seq::empty(), Seq::empty()); }
        if items.len() >= 2 && tok_is(ts, j, 3) { Some((TypeExpr::Tuple(items), j + 1)) } else { None }
    } else {
        match parse_ident(ts, i, f) {
            Some((name, j)) => if tok_is(ts, j, 11) {
                let (args, k) = parse_type_list(ts, j + 1, f);
                proof { lemma_view_lens(args@, Seq::empty(), Seq::empty()); }
                if args.len() >= 1 && tok_is(ts, k, 12) {
                    let named = TypeExpr::Named(name);
                    assert(tyv(named) == TypeV::Named(iv(name)));
                    Some((TypeExpr::App(Box::new(named), args), k + 1))
                } else {
                    Some((TypeExpr::Named(name), j))
                }
            } else {
                Some((TypeExpr::Named(name), j))
            },
            None => None,
        }
    }
}

fn parse_type_list(ts: &Vec<SpannedToken>, i: usize, f: FileId) -> (r: (Vec<TypeExpr>, usize))
    requires
        ts@.len() < usize::MAX,
        i <= ts@.len(),
    ensures
        (tyvs(r.0@), r.1 as int) == p_type_list(tvs(ts@), i as int, f),
        i <= r.1 <= ts@.len(),
    decreases ts@.len() - i, 4nat,
{
    match parse_type(ts, i, f) {
        Some((t, j)) => if i < j && j <= ts.len() {
            let mut acc: Vec<TypeExpr> = Vec::new();
            acc.push(t);
            proof {
                assert(acc@.drop_last() =~= Seq::<TypeExpr>::empty());
                assert(tyvs(Seq::<TypeExpr>::empty()) == Seq::<TypeV>::empty());
                assert(tyvs(acc@) =~= seq![tyv(acc@[0])]);
            }
            parse_type_more(ts, j, f, acc)
        } else {
            (Vec::new(), i)
        },
        None => (Vec::new(), i),
    }
}

fn parse_type_more(ts: &Vec<SpannedToken>, j: usize, f: FileId, acc: Vec<TypeExpr>) -> (r: (Vec<TypeExpr>, usize))
    requires
        ts@.len() < usize::MAX,
        j <= ts@.len(),
    ensures
        (tyvs(r.0@), r.1 as int) == p_type_more(tvs(ts@), j as int, f, tyvs(acc@)),
        j <= r.1 <= ts@.len(),
    decreases ts@.len() - j, 5nat,
{
    if tok_is(ts, j, 6) {
        match parse_type(ts, j + 1, f) {
            Some((t, k)) => if j < k && k <= ts.len() {
                let mut acc = acc;
                let ghost before = acc@;
                acc.push(t);
                proof {
                    assert(acc@.drop_last() =~= before);
                }
                parse_type_more(ts, k, f, acc)
            } else {
                (acc, j)
            },
            None => (acc, j),
        }
    } else {
        (acc, j)
    }
}

fn binop_of(lvl: u8, t: &Token) -> (r: Option<BinOp>)
    ensures
        r == binop_at(lvl as nat, tok_view(*t)),
{
    if lvl == 5 {
        match t { Token::OrOr => Some(BinOp::Or), _ => None }
    } else if lvl == 4 {
        match t { Token::AndAnd => Some(BinOp::And), _ => None }
    } else if lvl == 3 {
        match t {
            Token::EqEq => Some(BinOp::Eq),
            Token::NotEq => Some(BinOp::NotEq),
            Token::LtEq => Some(BinOp::LtEq),
            Token::Lt => Some(BinOp::Lt),
            Token::GtEq => Some(BinOp::GtEq),
            Token::Gt => Some(BinOp::Gt),
            _ => None,
        }
    } else if lvl == 2 {
        match t { Token::Plus => Some(BinOp::Add), Token::Minus => Some(BinOp::Sub), _ => None }
    } else {
        match t { Token::Star => Some(BinOp::Mul), Token::Slash => Some(BinOp::Div), Token::Percent => Some(BinOp::Mod), _ => None }
    }
}

/// Parse an expression at token `i`.
pub fn parse_expr(ts: &Vec<SpannedToken>, i: usize, f: FileId) -> (r: Option<(Spanned<Expr>, usize)>)
    requires
        ts@.len() < usize::MAX,
        i <= ts@.len(),
    ensures
        agrees(r, p_expr(tvs(ts@), i as int, f), |e: Spanned<Expr>| sev(e)),
        r matches Some((_, k)) ==> i < k <= ts@.len(),
    decreases ts@.len() - i, 14nat,
{
    parse_level(ts, i, f, 5)
}

fn parse_operand(ts: &Vec<SpannedToken>, i: usize, f: FileId, lvl: u8) -> (r: Option<(Spanned<Expr>, usize)>)
    requires
        ts@.len() < usize::MAX,
        i <= ts@.len(),
        lvl <= 5,
    ensures
        agrees(r, p_operand(tvs(ts@), i as int, f, lvl as nat), |e: Spanned<Expr>| sev(e)),
        r matches Some((_, k)) ==> i < k <= ts@.len(),
    decreases ts@.len() - i, 2 * lvl + 2,
{
    if lvl <= 1 { parse_unary(ts, i, f) } else { parse_level(ts, i, f, lvl - 1) }
}

fn parse_level(ts: &Vec<SpannedToken>, i: usize, f: FileId, lvl: u8) -> (r: Option<(Spanned<Expr>, usize)>)
    requires
        ts@.len() < usize::MAX,
        i <= ts@.len(),
        lvl <= 5,
    ensures
        agrees(r, p_level(tvs(ts@), i as int, f, lvl as nat), |e: Spanned<Expr>| sev(e)),
        r matches Some((_, k)) ==> i < k <= ts@.len(),
    decreases ts@.len() - i, 2 * lvl + 3,
{
    match parse_operand(ts, i, f, lvl) {
        Some((l, j)) => if i < j && j <= ts.len() { Some(parse_level_more(ts, j, f, lvl, l)) } else { None },
        None => None,
    }
}

fn parse_level_more(ts: &Vec<SpannedToken>, j: usize, f: FileId, lvl: u8, acc: Spanned<Expr>) -> (r: (Spanned<Expr>, usize))
    requires
        ts@.len() < usize::MAX,
        j <= ts@.len(),
        lvl <= 5,
    ensures
        (sev(r.0), r.1 as int) == p_level_more(tvs(ts@), j as int, f, lvl as nat, sev(acc)),
        j <= r.1 <= ts@.len(),
    decreases ts@.len() - j, 2 * lvl + 3,
{
    if j >= ts.len() {
        return (acc, j);
    }
    match binop_of(lvl, &ts[j].token) {
        Some(op) => match parse_operand(ts, j + 1, f, lvl) {
            Some((r, k)) => if j < k && k <= ts.len() {
                let span = Span { start: acc.span.start, end: r.span.end, file_id: f };
                let e = Spanned { node: Expr::BinOp(Box::new(acc), op, Box::new(r)), span };
                parse_level_more(ts, k, f, lvl, e)
            } else {
                (acc, j)
            },
            None => (acc, j),
        },
        None => (acc, j),
    }
}

fn parse_unary(ts: &Vec<SpannedToken>, i: usize, f: FileId) -> (r: Option<(Spanned<Expr>, usize)>)
    requires
        ts@.len() < usize::MAX,
        i <= ts@.len(),
    ensures
        agrees(r, p_unary(tvs(ts@), i as int, f), |e: Spanned<Expr>| sev(e)),
        r matches Some((_, k)) ==> i < k <= ts@.len(),
    decreases ts@.len() - i, 1nat,
{
    let op = if i < ts.len() {
        match &ts[i].token {
            Token::Minus => Some(UnaryOp::Neg),
            Token::Not => Some(UnaryOp::Not),
            _ => None,
        }
    } else {
        None
    };
    match op {
        Some(o) => match parse_unary(ts, i + 1, f) {
            Some((e, j)) => {
                let span = Span { start: 0, end: e.span.end, file_id: f };
                Some((Spanned { node: Expr::UnaryOp(o, Box::new(e)), span }, j))
            },
            None => None,
        },
        None => parse_atom(ts, i, f),
    }
}

fn leaf(node: Expr, ts: &Vec<SpannedToken>, i: usize, f: FileId) -> (r: Option<(Spanned<Expr>, usize)>)
    requires
        i < ts@.len() < usize::MAX,
    ensures
        r matches Some((e, k)) && e.node == node && e.span == span_of(tvs(ts@), i as int, i + 1, f) && k == i + 1,
{
    Some((Spanned { node, span: span_at(ts, i, i + 1, f) }, i + 1))
}

#[verifier::rlimit(100)]
#[verifier::spinoff_prover]
fn parse_atom(ts: &Vec<SpannedToken>, i: usize, f: FileId) -> (r: Option<(Spanned<Expr>, usize)>)
    requires
        ts@.len() < usize::MAX,
        i <= ts@.len(),
    ensures
        agrees(r, p_atom(tvs(ts@), i as int, f), |e: Spanned<Expr>| sev(e)),
        r matches Some((_, k)) ==> i < k <= ts@.len(),
    decreases ts@.len() - i, 0nat,
{
    if i >= ts.len() {
        return None;
    }
    let ghost tv = tvs(ts@);
    assert(tv[i as int].0 == tok_view(ts@[i as int].token));
    match &ts[i].token {
        Token::Integer(n) => leaf(Expr::Int(*n), ts, i, f),
        Token::Float(s) => leaf(Expr::Float(FloatLit { text: s.clone() }), ts, i, f),
        Token::String(s) => leaf(Expr::String(s.clone()), ts, i, f),
        Token::True => leaf(Expr::Bool(true), ts, i, f),
        Token::False => leaf(Expr::Bool(false), ts, i, f),
        Token::Ident(s) => {
            let id = Spanned { node: s.clone(), span: span_at(ts, i, i + 1, f) };
            leaf(Expr::Var(id), ts, i, f)
        },
        Token::If => parse_if(ts, i, f),
        Token::Let => parse_let(ts, i, f),
        Token::LParen => {
            let (mut items, j) = parse_expr_list(ts, i + 1, f, 6, false);
            proof { lemma_view_lens(Seq::empty(), items@, Seq::empty()); }
            if items.len() >= 1 && tok_is(ts, j, 3) {
                let span = span_at(ts, i, j + 1, f);
                if items.len() == 1 {
                    let ghost v = items@;
                    let e = items.pop().unwrap();
                    proof {
                        assert(v.drop_last() =~= Seq::<Spanned<Expr>>::empty());
                        assert(sevs(Seq::<Spanned<Expr>>::empty()) == Seq::<(ExprV, Span)>::empty());
                        assert(sevs(v)[0] == sev(e));
                    }
                    Some((Spanned { node: e.node, span }, j + 1))
                } else {
                    Some((Spanned { node: Expr::Tuple(items), span }, j + 1))
                }
            } else {
                None
            }
        },
        Token::LBracket => {
            let (items, j) = parse_expr_list(ts, i + 1, f, 6, true);
            if tok_is(ts, j, 1) {
                Some((Spanned { node: Expr::Array(items), span: span_at(ts, i, j + 1, f) }, j + 1))
            } else {
                None
            }
        },
        Token::LBrace => {
            let (items, j) = parse_block_list(ts, i + 1, f);
            if tok_is(ts, j, 5) {
                Some((Spanned { node: Expr::Block(items), span: span_at(ts, i, j + 1, f) }, j + 1))
            } else {
                None
            }
        },
        _ => None,
    }
}

fn parse_if(ts: &Vec<SpannedToken>, i: usize, f: FileId) -> (r: Option<(Spanned<Expr>, usize)>)
    requires
        ts@.len() < usize::MAX,
        i < ts@.len(),
        tvs(ts@)[i as int].0 == TokV::If,
    ensures
        agrees(r, p_atom(tvs(ts@), i as int, f), |e: Spanned<Expr>| sev(e)),
        r matches Some((_, k)) ==> i < k <= ts@.len(),
    decreases ts@.len() - i - 1, 15nat,
{
    match parse_expr(ts, i + 1, f) {
        Some((c, j)) => if i < j && j <= ts.len() && tok_is(ts, j, 14) {
            match parse_expr(ts, j + 1, f) {
                Some((t, k)) => if j < k && k <= ts.len() {
                    let e2 = if tok_is(ts, k, 15) { parse_expr(ts, k + 1, f) } else { None };
                    match e2 {
                        Some((e, l)) => if k < l && l <= ts.len() {
                            let span = span_at(ts, i, l, f);
                            Some((Spanned { node: Expr::If(Box::new(c), Box::new(t), Some(Box::new(e))), span }, l))
                        } else {
                            None
                        },
                        None => {
                            let span = span_at(ts, i, k, f);
                            Some((Spanned { node: Expr::If(Box::new(c), Box::new(t), None), span }, k))
                        },
                    }
                } else {
                    None
                },
                None => None,
            }
        } else {
            None
        },
        None => None,
    }
}

fn parse_let(ts: &Vec<SpannedToken>, i: usize, f: FileId) -> (r: Option<(Spanned<Expr>, usize)>)
    requires
        ts@.len() < usize::MAX,
        i < ts@.len(),
        tvs(ts@)[i as int].0 == TokV::Let,
    ensures
        agrees(r, p_atom(tvs(ts@), i as int, f), |e: Spanned<Expr>| sev(e)),
        r matches Some((_, k)) ==> i < k <= ts@.len(),
    decreases ts@.len() - i - 1, 15nat,
{
    match parse_ident(ts, i + 1, f) {
        Some((n, j)) => {
            let (ty, m) = if tok_is(ts, j, 8) {
                match parse_type(ts, j + 1, f) {
                    Some((t, k)) => (Some(t), k),
                    None => (None, j),
                }
            } else {
                (None, j)
            };
            if i < m && m <= ts.len() && tok_is(ts, m, 13) {
                match parse_expr(ts, m + 1, f) {
                    Some((v, a)) => if m < a && a <= ts.len() && tok_is(ts, a, 16) {
                        match parse_expr(ts, a + 1, f) {
                            Some((b, c)) => if a < c && c <= ts.len() {
                                let span = span_at(ts, i, c, f);
                                Some((Spanned { node: Expr::Let(n, ty, Box::new(v), Box::new(b)), span }, c))
                            } else {
                                None
                            },
                            None => None,
                        }
                    } else {
                        None
                    },
                    None => None,
                }
            } else {
                None
            }
        },
        None => None,
    }
}

fn parse_expr_list(ts: &Vec<SpannedToken>, i: usize, f: FileId, sep: u8, trailing: bool) -> (r: (Vec<Spanned<Expr>>, usize))
    requires
        ts@.len() < usize::MAX,
        i <= ts@.len(),
        sep < 28,
    ensures
        (sevs(r.0@), r.1 as int) == p_expr_list(tvs(ts@), i as int, f, kind_tok(sep), trailing, false),
        i <= r.1 <= ts@.len(),
    decreases ts@.len() - i, 15nat,
{
    match parse_expr(ts, i, f) {
        Some((e, j)) => if i < j && j <= ts.len() {
            let mut acc: Vec<Spanned<Expr>> = Vec::new();
            acc.push(e);
            proof {
                assert(acc@.drop_last() =~= Seq::<Spanned<Expr>>::empty());
                assert(sevs(Seq::<Spanned<Expr>>::empty()) == Seq::<(ExprV, Span)>::empty());
                assert(sevs(acc@) =~= seq![sev(acc@[0])]);
            }
            parse_expr_more(ts, j, f, sep, trailing, acc)
        } else {
            (Vec::new(), i)
        },
        None => (Vec::new(), i),
    }
}

fn parse_expr_more(ts: &Vec<SpannedToken>, j: usize, f: FileId, sep: u8, trailing: bool, acc: Vec<Spanned<Expr>>) -> (r: (Vec<Spanned<Expr>>, usize))
    requires
        ts@.len() < usize::MAX,
        j <= ts@.len(),
        sep < 28,
    ensures
        (sevs(r.0@), r.1 as int) == p_expr_more(tvs(ts@), j as int, f, kind_tok(sep), trailing, false, sevs(acc@)),
        j <= r.1 <= ts@.len(),
    decreases ts@.len() - j, 16nat,
{
    if tok_is(ts, j, sep) {
        match parse_expr(ts, j + 1, f) {
            Some((e, k)) => if j < k && k <= ts.len() {
                let mut acc = acc;
                let ghost before = acc@;
                acc.push(e);
                proof {
                    assert(acc@.drop_last() =~= before);
                }
                parse_expr_more(ts, k, f, sep, trailing, acc)
            } else {
                (acc, j)
            },
            None => if trailing { (acc, j + 1) } else { (acc, j) },
        }
    } else {
        (acc, j)
    }
}

fn parse_block_list(ts: &Vec<SpannedToken>, i: usize, f: FileId) -> (r: (Vec<Spanned<Stmt>>, usize))
    requires
        ts@.len() < usize::MAX,
        i <= ts@.len(),
    ensures
        (stmtvs(r.0@), r.1 as int) == p_expr_list(tvs(ts@), i as int, f, TokV::Semi, true, true),
        i <= r.1 <= ts@.len(),
    decreases ts@.len() - i, 15nat,
{
    match parse_expr(ts, i, f) {
        Some((e, j)) => if i < j && j <= ts.len() {
            let mut acc: Vec<Spanned<Stmt>> = Vec::new();
            acc.push(Spanned { node: Stmt::Expr(e.node), span: span_at(ts, i, j, f) });
            proof {
                assert(acc@.drop_last() =~= Seq::<Spanned<Stmt>>::empty());
                assert(stmtvs(Seq::<Spanned<Stmt>>::empty()) == Seq::<(ExprV, Span)>::empty());
            }
            parse_block_more(ts, j, f, acc)
        } else {
            (Vec::new(), i)
        },
        None => (Vec::new(), i),
    }
}

fn parse_block_more(ts: &Vec<SpannedToken>, j: usize, f: FileId, acc: Vec<Spanned<Stmt>>) -> (r: (Vec<Spanned<Stmt>>, usize))
    requires
        ts@.len() < usize::MAX,
        j <= ts@.len(),
    ensures
        (stmtvs(r.0@), r.1 as int) == p_expr_more(tvs(ts@), j as int, f, TokV::Semi, true, true, stmtvs(acc@)),
        j <= r.1 <= ts@.len(),
    decreases ts@.len() - j, 16nat,
{
    if tok_is(ts, j, 7) {
        match parse_expr(ts, j + 1, f) {
            Some((e, k)) => if j < k && k <= ts.len() {
                let mut acc = acc;
                let ghost before = acc@;
                acc.push(Spanned { node: Stmt::Expr(e.node), span: span_at(ts, j + 1, k, f) });
                proof {
                    assert(acc@.drop_last() =~= before);
                }
                parse_block_more(ts, k, f, acc)
            } else {
                (acc, j)
            },
            None => (acc, j + 1),
        }
    } else {
        (acc, j)
    }
}

fn parse_time(ts: &Vec<SpannedToken>, i: usize, f: FileId) -> (r: Option<(TimeExpr, usize)>)
    requires
        ts@.len() < usize::MAX,
    ensures
        agrees(r, p_time(tvs(ts@), i as int, f), |t: TimeExpr| timev(t)),
        r matches Some((_, k)) ==> i < k <= ts@.len(),
{
    if i >= ts.len() {
        return None;
    }
    let ghost tv = tvs(ts@);
    assert(tv[i as int].0 == tok_view(ts@[i as int].token));
    match &ts[i].token {
        Token::Float(s) => Some((TimeExpr::Literal(FloatLit { text: s.clone() }), i + 1)),
        Token::Integer(n) => {
            let mut text = String::new();
            push_signed_decimal(&mut text, *n);
            assert(text@ =~= signed_decimal(*n as int));
            Some((TimeExpr::Literal(FloatLit { text }), i + 1))
        },
        Token::Time(s) => Some((TimeExpr::Formatted(s.clone()), i + 1)),
        Token::Ident(s) => Some((TimeExpr::Var(Spanned { node: s.clone(), span: span_at(ts, i, i + 1, f) }), i + 1)),
        _ => None,
    }
}

fn parse_timing(ts: &Vec<SpannedToken>, i: usize, f: FileId) -> (r: Option<(Timing, usize)>)
    requires
        ts@.len() < usize::MAX,
    ensures
        agrees(r, p_timing(tvs(ts@), i as int, f), |t: Timing| timingv(t)),
        r matches Some((_, k)) ==> i < k <= ts@.len(),
{
    if tok_is(ts, i, 20) {
        match parse_time(ts, i + 1, f) {
            Some((t, j)) => Some((Timing::At(t), j)),
            None => None,
        }
    } else if tok_is(ts, i, 21) {
        match parse_time(ts, i + 1, f) {
            Some((t, j)) => Some((Timing::Duration(t), j)),
            None => None,
        }
    } else if tok_is(ts, i, 22) {
        if i + 1 < ts.len() {
            let ghost tv = tvs(ts@);
            assert(tv[i + 1].0 == tok_view(ts@[i + 1].token));
            match &ts[i + 1].token {
                Token::Integer(n) => Some((Timing::Beat(*n), i + 2)),
                _ => None,
            }
        } else {
            None
        }
    } else {
        match parse_time(ts, i, f) {
            Some((a, j)) => if tok_is(ts, j, 19) {
                match parse_time(ts, j + 1, f) {
                    Some((b, k)) => Some((Timing::Range(a, b), k)),
                    None => None,
                }
            } else {
                None
            },
            None => None,
        }
    }
}

/// The token at `i`, read by one of the one-token grammar items.
fn read_rotations(ts: &Vec<SpannedToken>, i: usize) -> (r: Option<Rotations>)
    ensures
        r == (match tok(tvs(ts@), i as int) { Some(t) => rotations_of(t), None => None }),
{
    if i >= ts.len() {
        return None;
    }
    assert(tvs(ts@)[i as int].0 == tok_view(ts@[i as int].token));
    match &ts[i].token {
        Token::Single => Some(Rotations::Single),
        Token::Double => Some(Rotations::Double),
        Token::Triple => Some(Rotations::Triple),
        Token::Quad => Some(Rotations::Quad),
        _ => None,
    }
}

fn read_jump_kind(ts: &Vec<SpannedToken>, i: usize) -> (r: Option<JumpKind>)
    ensures
        r == (match tok(tvs(ts@), i as int) { Some(t) => jump_kind_of(t), None => None }),
{
    if i >= ts.len() {
        return None;
    }
    assert(tvs(ts@)[i as int].0 == tok_view(ts@[i as int].token));
    match &ts[i].token {
        Token::Axel => Some(JumpKind::Axel),
        Token::Lutz => Some(JumpKind::Lutz),
        Token::Flip => Some(JumpKind::Flip),
        Token::Loop => Some(JumpKind::Loop),
        Token::Salchow => Some(JumpKind::Salchow),
        Token::ToeLoop => Some(JumpKind::ToeLoop),
        Token::Euler => Some(JumpKind::Euler),
        _ => None,
    }
}

fn read_level(ts: &Vec<SpannedToken>, i: usize) -> (r: Option<Level>)
    ensures
        r == (match tok(tvs(ts@), i as int) { Some(t) => level_of(t), None => None }),
{
    if i >= ts.len() {
        return None;
    }
    assert(tvs(ts@)[i as int].0 == tok_view(ts@[i as int].token));
    match &ts[i].token {
        Token::LevelB => Some(Level::B),
        Token::Level1 => Some(Level::L1),
        Token::Level2 => Some(Level::L2),
        Token::Level3 => Some(Level::L3),
        Token::Level4 => Some(Level::L4),
        _ => None,
    }
}

fn read_spin_position(ts: &Vec<SpannedToken>, i: usize) -> (r: Option<SpinPosition>)
    ensures
        r == (match tok(tvs(ts@), i as int) { Some(t) => spin_position_of(t), None => None }),
{
    if i >= ts.len() {
        return None;
    }
    assert(tvs(ts@)[i as int].0 == tok_view(ts@[i as int].token));
    match &ts[i].token {
        Token::Upright => Some(SpinPosition::Upright),
        Token::Sit => Some(SpinPosition::Sit),
        Token::Camel => Some(SpinPosition::Camel),
        Token::Layback => Some(SpinPosition::Layback),
        Token::Biellmann => Some(SpinPosition::Biellmann),
        _ => None,
    }
}

fn read_step_pattern(ts: &Vec<SpannedToken>, i: usize) -> (r: Option<StepPattern>)
    ensures
        r == (match tok(tvs(ts@), i as int) { Some(t) => step_pattern_of(t), None => None }),
{
    if i >= ts.len() {
        return None;
    }
    assert(tvs(ts@)[i as int].0 == tok_view(ts@[i as int].token));
    match &ts[i].token {
        Token::Ident(s) => {
            let w = s.as_str();
            if crate::base::text::str_eq(w, "straight") { Some(StepPattern::Straight) }
            else if crate::base::text::str_eq(w, "circular") { Some(StepPattern::Circular) }
            else if crate::base::text::str_eq(w, "serpentine") { Some(StepPattern::Serpentine) }
            else if crate::base::text::str_eq(w, "diagonal") { Some(StepPattern::Diagonal) }
            else if crate::base::text::str_eq(w, "midline") { Some(StepPattern::Midline) }
            else { None }
        },
        _ => None,
    }
}

fn read_lift_group(ts: &Vec<SpannedToken>, i: usize) -> (r: Option<LiftGroup>)
    ensures
        r == (match tok(tvs(ts@), i as int) { Some(t) => lift_group_of(t), None => None }),
{
    if i >= ts.len() {
        return None;
    }
    assert(tvs(ts@)[i as int].0 == tok_view(ts@[i as int].token));
    match &ts[i].token {
        Token::LiftGroup1 => Some(LiftGroup::Group1),
        Token::LiftGroup2 => Some(LiftGroup::Group2),
        Token::LiftGroup3 => Some(LiftGroup::Group3),
        Token::LiftGroup4 => Some(LiftGroup::Group4),
        Token::LiftGroup5 => Some(LiftGroup::Group5),
        _ => None,
    }
}

fn read_edge(ts: &Vec<SpannedToken>, i: usize) -> (r: Option<Edge>)
    ensures
        r == (match tok(tvs(ts@), i as int) { Some(t) => edge_of(t), None => None }),
{
    if i >= ts.len() {
        return None;
    }
    assert(tvs(ts@)[i as int].0 == tok_view(ts@[i as int].token));
    match &ts[i].token {
        Token::LFO => Some(Edge::LFO),
        Token::LFI => Some(Edge::LFI),
        Token::LBO => Some(Edge::LBO),
        Token::LBI => Some(Edge::LBI),
        Token::RFO => Some(Edge::RFO),
        Token::RFI => Some(Edge::RFI),
        Token::RBO => Some(Edge::RBO),
        Token::RBI => Some(Edge::RBI),
        _ => None,
    }
}

fn read_choreo_kind(ts: &Vec<SpannedToken>, i: usize) -> (r: Option<ChoreographicKind>)
    ensures
        r == (match tok(tvs(ts@), i as int) { Some(t) => choreo_kind_of(t), None => None }),
{
    if i >= ts.len() {
        return None;
    }
    assert(tvs(ts@)[i as int].0 == tok_view(ts@[i as int].token));
    match &ts[i].token {
        Token::Spiral => Some(ChoreographicKind::Spiral),
        Token::Spread => Some(ChoreographicKind::Spread),
        Token::Ina => Some(ChoreographicKind::Ina),
        Token::Hydroblading => Some(ChoreographicKind::Hydroblading),
        Token::Pivot => Some(ChoreographicKind::Pivot),
        Token::Choreographic => Some(ChoreographicKind::Choreographic),
        _ => None,
    }
}

fn read_segment_kind(ts: &Vec<SpannedToken>, i: usize) -> (r: Option<SegmentKind>)
    ensures
        r == (match tok(tvs(ts@), i as int) { Some(t) => segment_kind_of(t), None => None }),
{
    if i >= ts.len() {
        return None;
    }
    assert(tvs(ts@)[i as int].0 == tok_view(ts@[i as int].token));
    match &ts[i].token {
        Token::Short => Some(SegmentKind::Short),
        Token::Free => Some(SegmentKind::Free),
        Token::Pattern => Some(SegmentKind::Pattern),
        Token::Rhythm => Some(SegmentKind::Rhythm),
        Token::Exhibition => Some(SegmentKind::Exhibition),
        _ => None,
    }
}

fn parse_opt_level(ts: &Vec<SpannedToken>, i: usize) -> (r: (Option<Level>, usize))
    requires
        i <= ts@.len() < usize::MAX,
    ensures
        (r.0, r.1 as int) == p_opt_level(tvs(ts@), i as int),
{
    match read_level(ts, i) {
        Some(l) => (Some(l), i + 1),
        None => (None, i),
    }
}

fn parse_positions(ts: &Vec<SpannedToken>, i: usize) -> (r: (Vec<SpinPositionDef>, usize))
    requires
        i <= ts@.len() < usize::MAX,
    ensures
        r.0@.map_values(|p: SpinPositionDef| p.position) == p_positions(tvs(ts@), i as int).0,
        r.1 == p_positions(tvs(ts@), i as int).1,
        forall|k: int| 0 <= k < r.0@.len() ==> plain_position(#[trigger] r.0@[k]),
        i <= r.1 <= ts@.len(),
{
    let mut v: Vec<SpinPositionDef> = Vec::new();
    let mut j = i;
    let ghost tv = tvs(ts@);
    assert(v@.map_values(|p: SpinPositionDef| p.position) + p_positions(tv, i as int).0 =~= p_positions(tv, i as int).0);
    loop
        invariant
            tv == tvs(ts@),
            i <= j <= ts@.len() < usize::MAX,
            v@.map_values(|p: SpinPositionDef| p.position) + p_positions(tv, j as int).0 == p_positions(tv, i as int).0,
            p_positions(tv, j as int).1 == p_positions(tv, i as int).1,
            forall|k: int| 0 <= k < v@.len() ==> plain_position(#[trigger] v@[k]),
        decreases ts@.len() - j,
    {
        match read_spin_position(ts, j) {
            Some(p) => {
                let ghost before = v@;
                v.push(SpinPositionDef { position: p, revolutions: None, change_edge: false, change_foot: false });
                proof {
                    let f = |p: SpinPositionDef| p.position;
                    assert(v@.map_values(f) =~= before.map_values(f).push(p));
                    assert(v@.map_values(f) + p_positions(tv, j + 1).0 =~= before.map_values(f) + p_positions(tv, j as int).0);
                }
                j = j + 1;
            },
            None => {
                assert(v@.map_values(|p: SpinPositionDef| p.position) =~= p_positions(tv, i as int).0);
                return (v, j);
            },
        }
    }
}

fn parse_kind(ts: &Vec<SpannedToken>, i: usize) -> (r: Option<(ElementKind, usize)>)
    requires
        i <= ts@.len() < usize::MAX,
    ensures
        agrees(r, p_kind(tvs(ts@), i as int), |k: ElementKind| kindv(k)),
        r matches Some((_, k)) ==> i < k <= ts@.len(),
{
    if i >= ts.len() {
        return None;
    }
    let ghost tv = tvs(ts@);
    assert(tv[i as int].0 == tok_view(ts@[i as int].token));
    match &ts[i].token {
        Token::Jump => match (read_rotations(ts, i + 1), read_jump_kind(ts, i + 2)) {
            (Some(r), Some(k)) => {
                let j = JumpElement { kind: k, rotations: r, entry_edge: None, exit_edge: None, combination: Vec::new() };
                Some((ElementKind::Jump(j), i + 3))
            },
            _ => None,
        },
        Token::Spin => {
            let (ps, j) = parse_positions(ts, i + 1);
            if ps.len() >= 1 {
                let (l, k) = parse_opt_level(ts, j);
                proof {
                    assert(ps@.map_values(|p: SpinPositionDef| p.position).len() == ps@.len());
                }
                let s = SpinElement { positions: ps, min_revs: None, features: Vec::new(), level: l };
                Some((ElementKind::Spin(s), k))
            } else {
                proof {
                    assert(ps@.map_values(|p: SpinPositionDef| p.position).len() == ps@.len());
                }
                None
            }
        },
        Token::Step => match read_step_pattern(ts, i + 1) {
            Some(p) => {
                let (l, k) = parse_opt_level(ts, i + 2);
                Some((ElementKind::StepSequence(StepSequence { pattern: p, level: l, steps: Vec::new() }), k))
            },
            None => None,
        },
        Token::Lift => match read_lift_group(ts, i + 1) {
            Some(g) => {
                let (l, k) = parse_opt_level(ts, i + 2);
                Some((ElementKind::Lift(LiftElement { group: g, level: l, entry: None, exit: None }), k))
            },
            None => None,
        },
        Token::Throw => match (read_rotations(ts, i + 1), read_jump_kind(ts, i + 2)) {
            (Some(r), Some(k)) => Some((ElementKind::Throw(ThrowElement { kind: k, rotations: r }), i + 3)),
            _ => None,
        },
        Token::Twist => match read_rotations(ts, i + 1) {
            Some(r) => {
                let (l, k) = parse_opt_level(ts, i + 2);
                Some((ElementKind::Twist(TwistElement { rotations: r, level: l }), k))
            },
            None => None,
        },
        Token::DeathSpiral => match read_edge(ts, i + 1) {
            Some(e) => {
                let (l, k) = parse_opt_level(ts, i + 2);
                Some((ElementKind::DeathSpiral(DeathSpiralElement { edge: e, level: l }), k))
            },
            None => None,
        },
        Token::Choreographic => match read_choreo_kind(ts, i + 1) {
            Some(c) => Some((ElementKind::Choreographic(ChoreographicElement { kind: c, description: None }), i + 2)),
            None => None,
        },
        _ => None,
    }
}

fn parse_element(ts: &Vec<SpannedToken>, i: usize, f: FileId) -> (r: Option<(Element, usize)>)
    requires
        i <= ts@.len() < usize::MAX,
    ensures
        agrees(r, p_element(tvs(ts@), i as int, f), |e: Element| elemv(e)),
        r matches Some((_, k)) ==> i < k <= ts@.len(),
{
    match parse_kind(ts, i) {
        Some((k, j)) => match parse_timing(ts, j, f) {
            Some((t, m)) => {
                let span = span_at(ts, i, m, f);
                Some((Element { kind: k, timing: Some(t), position: None, annotations: Vec::new(), span }, m))
            },
            None => {
                let span = span_at(ts, i, j, f);
                Some((Element { kind: k, timing: None, position: None, annotations: Vec::new(), span }, j))
            },
        },
        None => None,
    }
}

fn parse_elements(ts: &Vec<SpannedToken>, i: usize, f: FileId) -> (r: (Vec<Element>, usize))
    requires
        i <= ts@.len() < usize::MAX,
    ensures
        r.0@.map_values(|e: Element| elemv(e)) == p_elements(tvs(ts@), i as int, f).0,
        r.1 == p_elements(tvs(ts@), i as int, f).1,
        i <= r.1 <= ts@.len(),
{
    let mut v: Vec<Element> = Vec::new();
    let mut j = i;
    let ghost tv = tvs(ts@);
    assert(v@.map_values(|e: Element| elemv(e)) + p_elements(tv, i as int, f).0 =~= p_elements(tv, i as int, f).0);
    loop
        invariant
            tv == tvs(ts@),
            i <= j <= ts@.len() < usize::MAX,
            v@.map_values(|e: Element| elemv(e)) + p_elements(tv, j as int, f).0 == p_elements(tv, i as int, f).0,
            p_elements(tv, j as int, f).1 == p_elements(tv, i as int, f).1,
        decreases ts@.len() - j,
    {
        match parse_element(ts, j, f) {
            Some((e, k)) => {
                let ghost before = v@;
                let ghost ev0 = elemv(e);
                v.push(e);
                proof {
                    let m = |e: Element| elemv(e);
                    assert(v@.map_values(m) =~= before.map_values(m).push(ev0));
                    assert(v@.map_values(m) + p_elements(tv, k as int, f).0 =~= before.map_values(m) + p_elements(tv, j as int, f).0);
                }
                j = k;
            },
            None => {
                assert(v@.map_values(|e: Element| elemv(e)) =~= p_elements(tv, i as int, f).0);
                return (v, j);
            },
        }
    }
}

fn parse_sequence(ts: &Vec<SpannedToken>, i: usize, f: FileId) -> (r: Option<(Sequence, usize)>)
    requires
        i <= ts@.len() < usize::MAX,
    ensures
        agrees(r, p_sequence(tvs(ts@), i as int, f), |s: Sequence| seqv(s)),
        r matches Some((_, k)) ==> i < k <= ts@.len(),
{
    if !tok_is(ts, i, 23) {
        return None;
    }
    let (name, j) = match parse_ident(ts, i + 1, f) {
        Some((n, j)) => (Some(n), j),
        None => (None, i + 1),
    };
    if tok_is(ts, j, 4) {
        let (es, k) = parse_elements(ts, j + 1, f);
        if tok_is(ts, k, 5) {
            let span = span_at(ts, i, k + 1, f);
            Some((Sequence { name, elements: es, span }, k + 1))
        } else {
            None
        }
    } else {
        None
    }
}

fn parse_sequences(ts: &Vec<SpannedToken>, i: usize, f: FileId) -> (r: (Vec<Sequence>, usize))
    requires
        i <= ts@.len() < usize::MAX,
    ensures
        r.0@.map_values(|s: Sequence| seqv(s)) == p_sequences(tvs(ts@), i as int, f).0,
        r.1 == p_sequences(tvs(ts@), i as int, f).1,
        i <= r.1 <= ts@.len(),
{
    let mut v: Vec<Sequence> = Vec::new();
    let mut j = i;
    let ghost tv = tvs(ts@);
    assert(v@.map_values(|s: Sequence| seqv(s)) + p_sequences(tv, i as int, f).0 =~= p_sequences(tv, i as int, f).0);
    loop
        invariant
            tv == tvs(ts@),
            i <= j <= ts@.len() < usize::MAX,
            v@.map_values(|s: Sequence| seqv(s)) + p_sequences(tv, j as int, f).0 == p_sequences(tv, i as int, f).0,
            p_sequences(tv, j as int, f).1 == p_sequences(tv, i as int, f).1,
        decreases ts@.len() - j,
    {
        match parse_sequence(ts, j, f) {
            Some((s, k)) => {
                let ghost before = v@;
                let ghost sv = seqv(s);
                v.push(s);
                proof {
                    let m = |s: Sequence| seqv(s);
                    assert(v@.map_values(m) =~= before.map_values(m).push(sv));
                    assert(v@.map_values(m) + p_sequences(tv, k as int, f).0 =~= before.map_values(m) + p_sequences(tv, j as int, f).0);
                }
                j = k;
            },
            None => {
                assert(v@.map_values(|s: Sequence| seqv(s)) =~= p_sequences(tv, i as int, f).0);
                return (v, j);
            },
        }
    }
}

fn parse_segment(ts: &Vec<SpannedToken>, i: usize, f: FileId) -> (r: Option<(Segment, usize)>)
    requires
        i <= ts@.len() < usize::MAX,
    ensures
        agrees(r, p_segment(tvs(ts@), i as int, f), |s: Segment| segv(s)),
        r matches Some((_, k)) ==> i < k <= ts@.len(),
{
    if !tok_is(ts, i, 24) {
        return None;
    }
    match parse_ident(ts, i + 1, f) {
        Some((n, j)) => match read_segment_kind(ts, j + 1) {
            Some(kind) => if tok_is(ts, j, 8) && tok_is(ts, j + 2, 4) {
                let (ss, k) = parse_sequences(ts, j + 3, f);
                if tok_is(ts, k, 5) {
                    let span = span_at(ts, i, k + 1, f);
                    Some((Segment {
                        name: n,
                        kind,
                        music: None,
                        duration: None,
                        skaters: Vec::new(),
                        sequences: ss,
                        docs: Vec::new(),
                        span,
                    }, k + 1))
                } else {
                    None
                }
            } else {
                None
            },
            None => None,
        },
        None => None,
    }
}

fn parse_path_more(ts: &Vec<SpannedToken>, j: usize, f: FileId, acc: Vec<Ident>) -> (r: (Vec<Ident>, usize))
    requires
        j <= ts@.len() < usize::MAX,
    ensures
        (r.0@.map_values(|p: Ident| iv(p)), r.1 as int) == p_path_more(tvs(ts@), j as int, f, acc@.map_values(|p: Ident| iv(p))),
        j <= r.1 <= ts@.len(),
    decreases ts@.len() - j,
{
    if tok_is(ts, j, 9) {
        match parse_ident(ts, j + 1, f) {
            Some((n, k)) => {
                let mut acc = acc;
                let ghost before = acc@;
                let ghost nv = iv(n);
                acc.push(n);
                proof {
                    let g = |p: Ident| iv(p);
                    assert(acc@.map_values(g) =~= before.map_values(g).push(nv));
                }
                parse_path_more(ts, k, f, acc)
            },
            None => (acc, j),
        }
    } else {
        (acc, j)
    }
}

fn parse_import(ts: &Vec<SpannedToken>, i: usize, f: FileId) -> (r: Option<(Import, usize)>)
    requires
        i <= ts@.len() < usize::MAX,
    ensures
        agrees(r, p_import(tvs(ts@), i as int, f), |x: Import| importv(x)),
        r matches Some((_, k)) ==> i < k <= ts@.len(),
{
    if !tok_is(ts, i, 25) {
        return None;
    }
    match parse_ident(ts, i + 1, f) {
        Some((n, j)) => {
            let ghost nv = iv(n);
            let mut path: Vec<Ident> = Vec::new();
            path.push(n);
            assert(path@.map_values(|p: Ident| iv(p)) =~= seq![nv]);
            let (path, k) = parse_path_more(ts, j, f, path);
            let (alias, m) = if tok_is(ts, k, 18) {
                match parse_ident(ts, k + 1, f) {
                    Some((a, m)) => (Some(a), m),
                    None => (None, k),
                }
            } else {
                (None, k)
            };
            let span = span_at(ts, i, m, f);
            Some((Import { path, alias, items: None, span }, m))
        },
        None => None,
    }
}

fn parse_param(ts: &Vec<SpannedToken>, i: usize, f: FileId) -> (r: Option<(Param, usize)>)
    requires
        i <= ts@.len() < usize::MAX,
    ensures
        agrees(r, p_param(tvs(ts@), i as int, f), |p: Param| paramv(p)),
        r matches Some((_, k)) ==> i < k <= ts@.len(),
{
    match parse_ident(ts, i, f) {
        Some((n, j)) => if tok_is(ts, j, 8) {
            match parse_type(ts, j + 1, f) {
                Some((t, k)) => {
                    Some((Param { name: n, ty: Some(t), default: None }, k))
                },
                None => Some((Param { name: n, ty: None, default: None }, j)),
            }
        } else {
            Some((Param { name: n, ty: None, default: None }, j))
        },
        None => None,
    }
}

fn parse_params_more(ts: &Vec<SpannedToken>, j: usize, f: FileId, acc: Vec<Param>) -> (r: (Vec<Param>, usize))
    requires
        j <= ts@.len() < usize::MAX,
    ensures
        (r.0@.map_values(|p: Param| paramv(p)), r.1 as int) == p_params_more(tvs(ts@), j as int, f, acc@.map_values(|p: Param| paramv(p))),
        j <= r.1 <= ts@.len(),
    decreases ts@.len() - j,
{
    if tok_is(ts, j, 6) {
        match parse_param(ts, j + 1, f) {
            Some((p, k)) => if j < k && k <= ts.len() {
                let mut acc = acc;
                let ghost before = acc@;
                let ghost pv = paramv(p);
                acc.push(p);
                proof {
                    let g = |p: Param| paramv(p);
                    assert(acc@.map_values(g) =~= before.map_values(g).push(pv));
                }
                parse_params_more(ts, k, f, acc)
            } else {
                (acc, j)
            },
            None => (acc, j + 1),
        }
    } else {
        (acc, j)
    }
}

fn parse_params(ts: &Vec<SpannedToken>, i: usize, f: FileId) -> (r: (Vec<Param>, usize))
    requires
        i <= ts@.len() < usize::MAX,
    ensures
        (r.0@.map_values(|p: Param| paramv(p)), r.1 as int) == p_params(tvs(ts@), i as int, f),
        i <= r.1 <= ts@.len(),
{
    match parse_param(ts, i, f) {
        Some((p, j)) => {
            let ghost pv = paramv(p);
            let mut acc: Vec<Param> = Vec::new();
            acc.push(p);
            assert(acc@.map_values(|p: Param| paramv(p)) =~= seq![pv]);
            parse_params_more(ts, j, f, acc)
        },
        None => {
            let v: Vec<Param> = Vec::new();
            assert(v@.map_values(|p: Param| paramv(p)) =~= Seq::<(IdentV, Option<TypeV>, bool)>::empty());
            (v, i)
        },
    }
}

fn parse_fn(ts: &Vec<SpannedToken>, i: usize, f: FileId) -> (r: Option<(FnDef, usize)>)
    requires
        i <= ts@.len() < usize::MAX,
    ensures
        agrees(r, p_fn(tvs(ts@), i as int, f), |x: FnDef| fnv(x)),
        r matches Some((_, k)) ==> i < k <= ts@.len(),
{
    if !tok_is(ts, i, 26) {
        return None;
    }
    match parse_ident(ts, i + 1, f) {
        Some((n, j)) => if tok_is(ts, j, 2) {
            let (ps, k) = parse_params(ts, j + 1, f);
            if tok_is(ts, k, 3) {
                let (ret, m) = if tok_is(ts, k + 1, 17) {
                    match parse_type(ts, k + 2, f) {
                        Some((t, m)) => {
                            (Some(t), m)
                        },
                        None => (None, k + 1),
                    }
                } else {
                    (None, k + 1)
                };
                if tok_is(ts, m, 13) {
                    match parse_expr(ts, m + 1, f) {
                        Some((body, e)) => {
                            let span = span_at(ts, i, e, f);
                            Some((FnDef {
                                name: n,
                                type_params: Vec::new(),
                                params: ps,
                                return_ty: ret,
                                body: body.node,
                                docs: Vec::new(),
                                span,
                            }, e))
                        },
                        None => None,
                    }
                } else {
                    None
                }
            } else {
                None
            }
        } else {
            None
        },
        None => None,
    }
}

/// A parsed program item.
enum Item {
    Import(Import),
    Fn(FnDef),
    Segment(Segment),
}

/// The value of an item.
spec fn itemv(x: Item) -> ItemV {
    match x {
        Item::Import(i) => ItemV::Import(importv(i)),
        Item::Fn(f) => ItemV::Fn(fnv(f)),
        Item::Segment(s) => ItemV::Segment(segv(s)),
    }
}

fn parse_item(ts: &Vec<SpannedToken>, i: usize, f: FileId) -> (r: Option<(Item, usize)>)
    requires
        i <= ts@.len() < usize::MAX,
    ensures
        agrees(r, p_item(tvs(ts@), i as int, f), |x: Item| itemv(x)),
        r matches Some((_, k)) ==> i < k <= ts@.len(),
{
    match parse_import(ts, i, f) {
        Some((x, j)) => Some((Item::Import(x), j)),
        None => match parse_fn(ts, i, f) {
            Some((x, j)) => Some((Item::Fn(x), j)),
            None => match parse_segment(ts, i, f) {
                Some((x, j)) => Some((Item::Segment(x), j)),
                None => None,
            },
        },
    }
}

/// A parse error.
#[derive(Debug)]
pub struct ParseError {
    pub span: std::ops::Range<usize>,
    pub message: String,
    pub expected: Vec<String>,
    pub found: Option<String>,
}

/// The byte span where a program that does not parse is reported: the token
/// at the stopping point, or the end of the input (after the last token).
pub open spec fn stop_span(ts: Toks, k: int) -> (int, int) {
    if 0 <= k < ts.len() {
        (ts[k].1, ts[k].2)
    } else if ts.len() > 0 {
        (ts.last().2, ts.last().2)
    } else {
        (0, 0)
    }
}

/// The message for a program that does not parse.
pub open spec fn stop_message(ts: Toks, k: int) -> Seq<char> {
    if 0 <= k < ts.len() {
        "unexpected token: "@ + crate::syntax::token::token_text(ts[k].0)
    } else {
        "unexpected end of input"@
    }
}

/// Does a parse result agree with the grammar on the given tokens?
pub open spec fn parsed(ts: Toks, f: FileId, r: Result<Program, Vec<ParseError>>) -> bool {
    match p_program(ts, f) {
        Some(pv) => r matches Ok(p) && progv(p) == pv,
        None => r matches Err(es) && es@.len() == 1 && {
            let k = program_stop(ts, f);
            &&& es@[0].span.start == stop_span(ts, k).0
            &&& es@[0].span.end == stop_span(ts, k).1
            &&& es@[0].message@ == stop_message(ts, k)
            &&& es@[0].expected@.len() == 0
            &&& (if 0 <= k < ts.len() {
                es@[0].found matches Some(t) && t@ == crate::syntax::token::token_text(ts[k].0)
            } else {
                es@[0].found is None
            })
        },
    }
}

fn parse_docs(ts: &Vec<SpannedToken>, i: usize) -> (r: (Vec<String>, usize))
    requires
        i <= ts@.len() < usize::MAX,
    ensures
        r.0@.map_values(|d: String| d@) == p_docs(tvs(ts@), i as int).0,
        r.1 == p_docs(tvs(ts@), i as int).1,
        i <= r.1 <= ts@.len(),
    decreases ts@.len() - i,
{
    let ghost tv = tvs(ts@);
    if i >= ts.len() {
        let v: Vec<String> = Vec::new();
        assert(v@.map_values(|d: String| d@) =~= Seq::<Seq<char>>::empty());
        return (v, i);
    }
    assert(tv[i as int].0 == tok_view(ts@[i as int].token));
    match &ts[i].token {
        Token::DocComment(d) => {
            let (mut rest, j) = parse_docs(ts, i + 1);
            let ghost before = rest@;
            rest.insert(0, d.clone());
            proof {
                let g = |d: String| d@;
                assert(rest@.map_values(g) =~= seq![d@] + before.map_values(g));
            }
            (rest, j)
        },
        _ => {
            let v: Vec<String> = Vec::new();
            assert(v@.map_values(|d: String| d@) =~= Seq::<Seq<char>>::empty());
            (v, i)
        },
    }
}

proof fn lemma_items_push(done: Seq<ItemV>, x: ItemV)
    ensures
        imports_of(done.push(x)) == imports_of(done) + match x {
            ItemV::Import(y) => seq![y],
            _ => Seq::<ImportV>::empty(),
        },
        functions_of(done.push(x)) == functions_of(done) + match x {
            ItemV::Fn(y) => seq![y],
            _ => Seq::<FnV>::empty(),
        },
        segments_of(done.push(x)) == segments_of(done) + match x {
            ItemV::Segment(y) => seq![y],
            _ => Seq::<SegV>::empty(),
        },
{
    assert(done.push(x).drop_last() =~= done);
}

#[verifier::rlimit(50)]
fn parse_items(
    ts: &Vec<SpannedToken>,
    k: usize,
    f: FileId,
    imports: Vec<Import>,
    functions: Vec<FnDef>,
    segments: Vec<Segment>,
    Ghost(done): Ghost<Seq<ItemV>>,
) -> (r: (Vec<Import>, Vec<FnDef>, Vec<Segment>, usize))
    requires
        k <= ts@.len() < usize::MAX,
        imports@.map_values(|x: Import| importv(x)) == imports_of(done),
        functions@.map_values(|x: FnDef| fnv(x)) == functions_of(done),
        segments@.map_values(|x: Segment| segv(x)) == segments_of(done),
    ensures
        r.0@.map_values(|x: Import| importv(x)) == imports_of(done + p_items(tvs(ts@), k as int, f).0),
        r.1@.map_values(|x: FnDef| fnv(x)) == functions_of(done + p_items(tvs(ts@), k as int, f).0),
        r.2@.map_values(|x: Segment| segv(x)) == segments_of(done + p_items(tvs(ts@), k as int, f).0),
        r.3 == p_items(tvs(ts@), k as int, f).1,
        k <= r.3 <= ts@.len(),
    decreases ts@.len() - k,
{
    let ghost tv = tvs(ts@);
    match parse_item(ts, k, f) {
        Some((x, k2)) => {
            let ghost xv = itemv(x);
            let ghost done2 = done.push(xv);
            proof {
                assert(done2.drop_last() =~= done);
                assert(done2 + p_items(tv, k2 as int, f).0 =~= done + p_items(tv, k as int, f).0);
            }
            let mut imports = imports;
            let mut functions = functions;
            let mut segments = segments;
            proof { lemma_items_push(done, xv); }
            match x {
                Item::Import(y) => {
                    let ghost before = imports@;
                    imports.push(y);
                    proof {
                        let g = |x: Import| importv(x);
                        assert(imports@.map_values(g) =~= before.map_values(g).push(importv(y)));
                        assert(imports_of(done2) =~= imports_of(done).push(importv(y)));
                        assert(functions_of(done2) =~= functions_of(done));
                        assert(segments_of(done2) =~= segments_of(done));
                    }
                },
                Item::Fn(y) => {
                    let ghost before = functions@;
                    functions.push(y);
                    proof {
                        let g = |x: FnDef| fnv(x);
                        assert(functions@.map_values(g) =~= before.map_values(g).push(fnv(y)));
                        assert(imports_of(done2) =~= imports_of(done));
                        assert(functions_of(done2) =~= functions_of(done).push(fnv(y)));
                        assert(segments_of(done2) =~= segments_of(done));
                    }
                },
                Item::Segment(y) => {
                    let ghost before = segments@;
                    segments.push(y);
                    proof {
                        let g = |x: Segment| segv(x);
                        assert(segments@.map_values(g) =~= before.map_values(g).push(segv(y)));
                        assert(imports_of(done2) =~= imports_of(done));
                        assert(functions_of(done2) =~= functions_of(done));
                        assert(segments_of(done2) =~= segments_of(done).push(segv(y)));
                    }
                },
            }
            parse_items(ts, k2, f, imports, functions, segments, Ghost(done2))
        },
        None => {
            assert(done + p_items(tv, k as int, f).0 =~= done);
            (imports, functions, segments, k)
        },
    }
}

/// Parse a token stream into a program.
pub fn parse_tokens(tokens: &Vec<SpannedToken>, file_id: FileId) -> (r: Result<Program, Vec<ParseError>>)
    requires
        tokens@.len() < usize::MAX,
    ensures
        parsed(tvs(tokens@), file_id, r),
{
    let ts = tokens;
    let f = file_id;
    let ghost tv = tvs(ts@);
    let (docs, i) = parse_docs(ts, 0);
    if tok_is(ts, i, 27) {
        match parse_ident(ts, i + 1, f) {
            Some((name, j)) => if tok_is(ts, j, 4) {
                let ghost empty = Seq::<ItemV>::empty();
                let v1: Vec<Import> = Vec::new();
                let v2: Vec<FnDef> = Vec::new();
                let v3: Vec<Segment> = Vec::new();
                proof {
                    assert(v1@.map_values(|x: Import| importv(x)) =~= imports_of(empty));
                    assert(v2@.map_values(|x: FnDef| fnv(x)) =~= functions_of(empty));
                    assert(v3@.map_values(|x: Segment| segv(x)) =~= segments_of(empty));
                }
                let (imports, functions, segments, k) = parse_items(ts, j + 1, f, v1, v2, v3, Ghost(empty));
                proof {
                    assert(empty + p_items(tv, j + 1, f).0 =~= p_items(tv, j + 1, f).0);
                }
                if tok_is(ts, k, 5) && k + 1 == ts.len() {
                    return Ok(Program { name, docs, imports, types: Vec::new(), functions, segments });
                }
                return Err(stop_error(ts, k, tok_is(ts, k, 5)));
            } else {
                return Err(stop_error(ts, j, false));
            },
            None => {
                return Err(stop_error(ts, i + 1, false));
            },
        }
    }
    Err(stop_error(ts, i, false))
}

/// The error for a program that stops at token `k` (after it, when `past`).
fn stop_error(ts: &Vec<SpannedToken>, k: usize, past: bool) -> (r: Vec<ParseError>)
    requires
        k <= ts@.len() < usize::MAX,
    ensures
        r@.len() == 1,
        ({
            let tv = tvs(ts@);
            let s = if past { k + 1 } else { k as int };
            &&& r@[0].span.start == stop_span(tv, s).0
            &&& r@[0].span.end == stop_span(tv, s).1
            &&& r@[0].message@ == stop_message(tv, s)
            &&& r@[0].expected@.len() == 0
            &&& (if 0 <= s < tv.len() {
                r@[0].found matches Some(t) && t@ == crate::syntax::token::token_text(tv[s].0)
            } else {
                r@[0].found is None
            })
        }),
{
    let s = if past { k + 1 } else { k };
    let ghost tv = tvs(ts@);
    let e = if s < ts.len() {
        assert(tv[s as int].0 == tok_view(ts@[s as int].token));
        let text = ts[s].token.to_string();
        let mut message = string_of("unexpected token: ");
        crate::base::text::push_str(&mut message, text.as_str());
        ParseError {
            span: std::ops::Range { start: ts[s].span.start, end: ts[s].span.end },
            message,
            expected: Vec::new(),
            found: Some(text),
        }
    } else {
        let end = if ts.len() > 0 { ts[ts.len() - 1].span.end } else { 0 };
        ParseError {
            span: std::ops::Range { start: end, end },
            message: string_of("unexpected end of input"),
            expected: Vec::new(),
            found: None,
        }
    };
    let mut r = Vec::new();
    r.push(e);
    r
}

impl ParseError {
    /// The error's text: its message, then what was expected and what was
    /// found when known.
    pub fn to_string(&self) -> (r: String)
        ensures
            r@ == self.message@ + (if self.expected@.len() > 0 {
                ", expected one of: "@ + crate::syntax::format::join(self.expected@.map_values(|e: String| e@), ", "@)
            } else {
                Seq::empty()
            }) + (match self.found {
                Some(t) => ", found: "@ + t@,
                None => Seq::empty(),
            }),
    {
        let mut r = self.message.clone();
        if self.expected.len() > 0 {
            crate::base::text::push_str(&mut r, ", expected one of: ");
            let ghost parts = self.expected@.map_values(|e: String| e@);
            let ghost start = r@;
            let mut i: usize = 0;
            while i < self.expected.len()
                invariant
                    i <= self.expected@.len(),
                    parts == self.expected@.map_values(|e: String| e@),
                    self.expected@.len() > 0,
                    r@ == start + crate::syntax::format::join(parts.take(i as int), ", "@),
                decreases self.expected@.len() - i,
            {
                if i > 0 {
                    crate::base::text::push_str(&mut r, ", ");
                }
                crate::base::text::push_str(&mut r, self.expected[i].as_str());
                proof { lemma_join_push(parts.take(i as int), parts[i as int], ", "@); }
                assert(parts.take(i + 1) =~= parts.take(i as int).push(parts[i as int]));
                i = i + 1;
            }
            assert(parts.take(i as int) =~= parts);
        }
        match &self.found {
            Some(t) => {
                crate::base::text::push_str(&mut r, ", found: ");
                crate::base::text::push_str(&mut r, t.as_str());
            },
            None => {},
        }
        r
    }
}

proof fn lemma_join_push(parts: Seq<Seq<char>>, x: Seq<char>, sep: Seq<char>)
    ensures
        crate::syntax::format::join(parts.push(x), sep) == crate::syntax::format::join(parts, sep)
            + (if parts.len() > 0 { sep } else { Seq::empty() }) + x,
    decreases parts.len(),
{
    let q = parts.push(x);
    if parts.len() == 0 {
        assert(Seq::<char>::empty() + Seq::<char>::empty() + x =~= x);
    } else if parts.len() == 1 {
        assert(q.subrange(1, q.len() as int) =~= seq![x]);
        assert(crate::syntax::format::join(seq![x], sep) == x);
        assert(q[0] == parts[0]);
        assert(crate::syntax::format::join(parts, sep) == parts[0]);
    } else {
        let rest = parts.subrange(1, parts.len() as int);
        assert(q.subrange(1, q.len() as int) =~= rest.push(x));
        assert(q[0] == parts[0]);
        lemma_join_push(rest, x, sep);
        let jr = crate::syntax::format::join(rest, sep);
        assert(parts[0] + sep + (jr + sep + x) =~= (parts[0] + sep + jr) + sep + x);
    }
}

/// What parsing the bytes `src` gives: the program's value when the tokens
/// form a program, else the one error at the first failing token or byte.
pub open spec fn parse_outcome(src: Seq<u8>, f: FileId, r: Result<Program, Vec<ParseError>>) -> bool {
    match lex_from(src, 0) {
        Ok(ts) => parsed(ts, f, r),
        Err(e) => r matches Err(es) && es@.len() == 1 && es@[0].span.start == e.0 && es@[0].span.end == e.1
            && es@[0].message@ == crate::syntax::token::lex_error_message(crate::syntax::token::text(src, e.0, e.1))
            && es@[0].expected@.len() == 0 && es@[0].found is None,
    }
}

/// The value of the program that the bytes `src` spell, if they spell one.
pub open spec fn source_program(src: Seq<u8>, f: FileId) -> Option<ProgV> {
    match lex_from(src, 0) {
        Ok(ts) => p_program(ts, f),
        Err(_) => None,
    }
}

/// A parse error as a value: its byte span, message, expected tokens and
/// found token.
pub open spec fn parse_error_view(e: ParseError) -> (usize, usize, Seq<char>, Seq<Seq<char>>, Option<Seq<char>>) {
    (e.span.start, e.span.end, e.message@, e.expected@.map_values(|x: String| x@), match e.found {
        Some(t) => Some(t@),
        None => None,
    })
}

/// A source has one parse outcome: two results that parsing may give both
/// succeed, with programs of one value, or both fail, with the same errors.
pub proof fn law_parse_outcome_unique(src: Seq<u8>, f: FileId, r1: Result<Program, Vec<ParseError>>, r2: Result<Program, Vec<ParseError>>)
    requires
        parse_outcome(src, f, r1),
        parse_outcome(src, f, r2),
    ensures
        r1 is Ok <==> r2 is Ok,
        match (r1, r2) {
            (Ok(p1), Ok(p2)) => progv(p1) == progv(p2),
            (Err(e1), Err(e2)) => e1@.map_values(|e: ParseError| parse_error_view(e))
                == e2@.map_values(|e: ParseError| parse_error_view(e)),
            _ => true,
        },
{
    match (r1, r2) {
        (Err(e1), Err(e2)) => {
            assert(e1@[0].expected@.map_values(|x: String| x@) =~= Seq::<Seq<char>>::empty());
            assert(e2@[0].expected@.map_values(|x: String| x@) =~= Seq::<Seq<char>>::empty());
            assert(e1@.map_values(|e: ParseError| parse_error_view(e)) =~= e2@.map_values(|e: ParseError| parse_error_view(e)));
        },
        _ => {},
    }
}

/// Parse source text into a program: lex it, then parse its tokens.
pub fn parse(source: &str, file_id: FileId) -> (r: Result<Program, Vec<ParseError>>)
    requires
        source.spec_bytes().len() <= isize::MAX,
    ensures
        parse_outcome(source.spec_bytes(), file_id, r),
        r is Ok <==> source_program(source.spec_bytes(), file_id) is Some,
{
    match Lexer::tokenize(source) {
        Ok(tokens) => {
            proof {
                crate::syntax::token::lemma_lex_len(source.spec_bytes(), 0);
            }
            parse_tokens(&tokens, file_id)
        },
        Err(e) => {
            let mut v = Vec::new();
            v.push(ParseError { span: e.span, message: e.message, expected: Vec::new(), found: None });
            Err(v)
        },
    }
}

/// An integer literal read as an operand at any level: the literal, up to
/// the next token.
proof fn lemma_int_operand(ts: Toks, k: int, f: FileId, v: i64)
    requires
        0 <= k < ts.len(),
        ts[k].0 == TokV::Integer(v),
    ensures
        p_unary(ts, k, f) == Some(((ExprV::Int(v), span_of(ts, k, k + 1, f)), k + 1)),
        p_operand(ts, k, f, 1) == Some(((ExprV::Int(v), span_of(ts, k, k + 1, f)), k + 1)),
{
    assert(tok(ts, k) == Some(TokV::Integer(v)));
    assert(p_atom(ts, k, f) == Some(((ExprV::Int(v), span_of(ts, k, k + 1, f)), k + 1)));
    assert(p_unary(ts, k, f) == p_atom(ts, k, f));
}

/// The tokens of the binary operators.
pub open spec fn is_binary_operator(t: TokV) -> bool {
    t is Plus || t is Minus || t is Star || t is Slash || t is Percent || t is EqEq || t is NotEq
        || t is Lt || t is LtEq || t is Gt || t is GtEq || t is AndAnd || t is OrOr
}

/// Multiplicative operators (`*`, `/`, `%`) bind tighter than additive ones
/// (`+`, `-`), and operators of one level group to the left: the tokens
/// `a + b * c` read as `a + (b * c)` and `a * b + c` as `(a * b) + c`, for
/// any integer literals `a`, `b`, `c`, wherever they stand, when no further
/// binary operator follows.
pub proof fn law_operator_precedence(
    ts: Toks,
    i: int,
    f: FileId,
    x: i64,
    y: i64,
    z: i64,
    add_t: TokV,
    add_op: BinOp,
    mul_t: TokV,
    mul_op: BinOp,
    mul_first: bool,
)
    requires
        0 <= i,
        i + 5 <= ts.len(),
        i + 5 == ts.len() || !is_binary_operator(ts[i + 5].0),
        (add_t == TokV::Plus && add_op == BinOp::Add) || (add_t == TokV::Minus && add_op == BinOp::Sub),
        (mul_t == TokV::Star && mul_op == BinOp::Mul) || (mul_t == TokV::Slash && mul_op == BinOp::Div)
            || (mul_t == TokV::Percent && mul_op == BinOp::Mod),
        ts[i].0 == TokV::Integer(x),
        ts[i + 2].0 == TokV::Integer(y),
        ts[i + 4].0 == TokV::Integer(z),
        ts[i + 1].0 == (if mul_first { mul_t } else { add_t }),
        ts[i + 3].0 == (if mul_first { add_t } else { mul_t }),
    ensures
        p_expr(ts, i, f) matches Some((e, j)) && j == i + 5 && (e.0 matches ExprV::BinOp(l, op, r) && if mul_first {
            op == add_op && r.0 == ExprV::Int(z)
                && (l.0 matches ExprV::BinOp(l2, op2, r2) && l2.0 == ExprV::Int(x) && op2 == mul_op && r2.0 == ExprV::Int(y))
        } else {
            op == add_op && l.0 == ExprV::Int(x)
                && (r.0 matches ExprV::BinOp(l2, op2, r2) && l2.0 == ExprV::Int(y) && op2 == mul_op && r2.0 == ExprV::Int(z))
        }),
{
    lemma_int_operand(ts, i, f, x);
    lemma_int_operand(ts, i + 2, f, y);
    lemma_int_operand(ts, i + 4, f, z);
    let a = (ExprV::Int(x), span_of(ts, i, i + 1, f));
    let b = (ExprV::Int(y), span_of(ts, i + 2, i + 3, f));
    let c = (ExprV::Int(z), span_of(ts, i + 4, i + 5, f));
    assert forall|lvl: nat| #[trigger] binop_at(lvl, tok(ts, i + 5)->0) is None || tok(ts, i + 5) is None by {
        if i + 5 < ts.len() {
            let t = ts[i + 5].0;
            assert(tok(ts, i + 5) == Some(t));
        }
    }
    assert(binop_at(1, add_t) is None);
    assert(binop_at(2, mul_t) is None);
    assert(binop_at(1, mul_t) == Some(mul_op));
    assert(binop_at(2, add_t) == Some(add_op));
    assert(binop_at(3, add_t) is None);
    assert(binop_at(4, add_t) is None);
    assert(binop_at(5, add_t) is None);
    assert(p_level_more(ts, i + 5, f, 1, c) == (c, i + 5)) by {
        assert(binop_at(1, tok(ts, i + 5)->0) is None || tok(ts, i + 5) is None);
    }
    assert(p_level(ts, i + 4, f, 1) == Some((c, i + 5)));
    if mul_first {
        let ab = (ExprV::BinOp(Box::new(a), mul_op, Box::new(b)), Span { start: a.1.start, end: b.1.end, file_id: f });
        assert(p_level_more(ts, i + 3, f, 1, ab) == (ab, i + 3));
        assert(p_level_more(ts, i + 1, f, 1, a) == p_level_more(ts, i + 3, f, 1, ab));
        assert(p_level(ts, i, f, 1) == Some((ab, i + 3)));
        assert(p_level(ts, i + 4, f, 1) == Some((c, i + 5)));
        assert(p_operand(ts, i + 4, f, 2) == Some((c, i + 5)));
        let abc = (ExprV::BinOp(Box::new(ab), add_op, Box::new(c)), Span { start: ab.1.start, end: c.1.end, file_id: f });
        assert(binop_at(2, tok(ts, i + 5)->0) is None || tok(ts, i + 5) is None);
        assert(p_level_more(ts, i + 5, f, 2, abc) == (abc, i + 5));
        assert(p_level_more(ts, i + 3, f, 2, ab) == (abc, i + 5));
        assert(p_operand(ts, i, f, 2) == Some((ab, i + 3)));
        assert(p_level(ts, i, f, 2) == Some((abc, i + 5)));
        assert(binop_at(3, tok(ts, i + 5)->0) is None || tok(ts, i + 5) is None);
        assert(p_level_more(ts, i + 5, f, 3, abc) == (abc, i + 5));
        assert(p_level(ts, i, f, 3) == Some((abc, i + 5)));
        assert(binop_at(4, tok(ts, i + 5)->0) is None || tok(ts, i + 5) is None);
        assert(p_level_more(ts, i + 5, f, 4, abc) == (abc, i + 5));
        assert(p_level(ts, i, f, 4) == Some((abc, i + 5)));
        assert(binop_at(5, tok(ts, i + 5)->0) is None || tok(ts, i + 5) is None);
        assert(p_level_more(ts, i + 5, f, 5, abc) == (abc, i + 5));
        assert(p_level(ts, i, f, 5) == Some((abc, i + 5)));
    } else {
        let bc = (ExprV::BinOp(Box::new(b), mul_op, Box::new(c)), Span { start: b.1.start, end: c.1.end, file_id: f });
        assert(p_level_more(ts, i + 5, f, 1, bc) == (bc, i + 5)) by {
            assert(binop_at(1, tok(ts, i + 5)->0) is None || tok(ts, i + 5) is None);
        }
        assert(p_level_more(ts, i + 3, f, 1, b) == (bc, i + 5));
        assert(p_level(ts, i + 2, f, 1) == Some((bc, i + 5)));
        assert(p_level_more(ts, i + 1, f, 1, a) == (a, i + 1));
        assert(p_level(ts, i, f, 1) == Some((a, i + 1)));
        assert(p_operand(ts, i + 2, f, 2) == Some((bc, i + 5)));
        let abc = (ExprV::BinOp(Box::new(a), add_op, Box::new(bc)), Span { start: a.1.start, end: bc.1.end, file_id: f });
        assert(binop_at(2, tok(ts, i + 5)->0) is None || tok(ts, i + 5) is None);
        assert(p_level_more(ts, i + 5, f, 2, abc) == (abc, i + 5));
        assert(p_level_more(ts, i + 1, f, 2, a) == (abc, i + 5));
        assert(p_operand(ts, i, f, 2) == Some((a, i + 1)));
        assert(p_level(ts, i, f, 2) == Some((abc, i + 5)));
        assert(binop_at(3, tok(ts, i + 5)->0) is None || tok(ts, i + 5) is None);
        assert(p_level_more(ts, i + 5, f, 3, abc) == (abc, i + 5));
        assert(p_level(ts, i, f, 3) == Some((abc, i + 5)));
        assert(binop_at(4, tok(ts, i + 5)->0) is None || tok(ts, i + 5) is None);
        assert(p_level_more(ts, i + 5, f, 4, abc) == (abc, i + 5));
        assert(p_level(ts, i, f, 4) == Some((abc, i + 5)));
        assert(binop_at(5, tok(ts, i + 5)->0) is None || tok(ts, i + 5) is None);
        assert(p_level_more(ts, i + 5, f, 5, abc) == (abc, i + 5));
        assert(p_level(ts, i, f, 5) == Some((abc, i + 5)));
    }
}

/// How tightly a binary operator token binds, tightest first: `*`, `/`,
/// `%`; then `+`, `-`; then the comparisons; then `&&`; then `||`. Any
/// other token has rank 0.
pub open spec fn operator_rank(t: TokV) -> nat {
    match t {
        TokV::Star | TokV::Slash | TokV::Percent => 1,
        TokV::Plus | TokV::Minus => 2,
        TokV::EqEq | TokV::NotEq | TokV::Lt | TokV::LtEq | TokV::Gt | TokV::GtEq => 3,
        TokV::AndAnd => 4,
        TokV::OrOr => 5,
        _ => 0,
    }
}

/// The binary operator a token stands for.
pub open spec fn operator_of(t: TokV) -> Option<BinOp> {
    match t {
        TokV::Star => Some(BinOp::Mul),
        TokV::Slash => Some(BinOp::Div),
        TokV::Percent => Some(BinOp::Mod),
        TokV::Plus => Some(BinOp::Add),
        TokV::Minus => Some(BinOp::Sub),
        TokV::EqEq => Some(BinOp::Eq),
        TokV::NotEq => Some(BinOp::NotEq),
        TokV::Lt => Some(BinOp::Lt),
        TokV::LtEq => Some(BinOp::LtEq),
        TokV::Gt => Some(BinOp::Gt),
        TokV::GtEq => Some(BinOp::GtEq),
        TokV::AndAnd => Some(BinOp::And),
        TokV::OrOr => Some(BinOp::Or),
        _ => None,
    }
}

proof fn lemma_binop_at_rank(lvl: nat, t: TokV)
    requires
        1 <= lvl <= 5,
    ensures
        binop_at(lvl, t) == (if operator_rank(t) == lvl { operator_of(t) } else { None }),
{
}

/// No operator of level `lvl` at `j`: the level ends there.
proof fn lemma_level_stops(ts: Toks, j: int, f: FileId, lvl: nat, acc: SpE)
    requires
        1 <= lvl <= 5,
        0 <= j <= ts.len(),
        j == ts.len() || operator_rank(ts[j].0) != lvl,
    ensures
        p_level_more(ts, j, f, lvl, acc) == (acc, j),
{
    if j < ts.len() {
        lemma_binop_at_rank(lvl, ts[j].0);
        assert(tok(ts, j) == Some(ts[j].0));
    } else {
        assert(tok(ts, j) is None);
    }
}

/// An integer literal followed by no operator of level `lvl` or tighter is
/// the whole operand and the whole level.
proof fn lemma_int_level(ts: Toks, k: int, f: FileId, v: i64, lvl: nat)
    requires
        0 <= k < ts.len(),
        ts[k].0 == TokV::Integer(v),
        1 <= lvl <= 5,
        k + 1 == ts.len() || operator_rank(ts[k + 1].0) == 0 || operator_rank(ts[k + 1].0) > lvl,
    ensures
        p_operand(ts, k, f, lvl) == Some(((ExprV::Int(v), span_of(ts, k, k + 1, f)), k + 1)),
        p_level(ts, k, f, lvl) == Some(((ExprV::Int(v), span_of(ts, k, k + 1, f)), k + 1)),
    decreases lvl,
{
    lemma_int_operand(ts, k, f, v);
    if lvl > 1 {
        lemma_int_level(ts, k, f, v, (lvl - 1) as nat);
    }
    lemma_level_stops(ts, k + 1, f, lvl, (ExprV::Int(v), span_of(ts, k, k + 1, f)));
}

/// `b o c` at each level: the literal `b` below the level of `o`, the whole
/// `b o c` from it on.
proof fn lemma_one_op(ts: Toks, k: int, f: FileId, y: i64, z: i64, lvl: nat)
    requires
        0 <= k,
        k + 3 <= ts.len(),
        ts[k].0 == TokV::Integer(y),
        ts[k + 2].0 == TokV::Integer(z),
        operator_rank(ts[k + 1].0) > 0,
        k + 3 == ts.len() || operator_rank(ts[k + 3].0) == 0,
        1 <= lvl <= 5,
    ensures
        ({
            let b = (ExprV::Int(y), span_of(ts, k, k + 1, f));
            let c = (ExprV::Int(z), span_of(ts, k + 2, k + 3, f));
            let bc = (ExprV::BinOp(Box::new(b), operator_of(ts[k + 1].0)->0, Box::new(c)),
                Span { start: b.1.start, end: c.1.end, file_id: f });
            p_level(ts, k, f, lvl) == if lvl < operator_rank(ts[k + 1].0) { Some((b, k + 1)) } else { Some((bc, k + 3)) }
        }),
    decreases lvl,
{
    let o = ts[k + 1].0;
    let r = operator_rank(o);
    let b = (ExprV::Int(y), span_of(ts, k, k + 1, f));
    let c = (ExprV::Int(z), span_of(ts, k + 2, k + 3, f));
    let bc = (ExprV::BinOp(Box::new(b), operator_of(o)->0, Box::new(c)), Span { start: b.1.start, end: c.1.end, file_id: f });
    lemma_int_operand(ts, k, f, y);
    lemma_int_operand(ts, k + 2, f, z);
    if lvl < r {
        lemma_int_level(ts, k, f, y, lvl);
    } else if lvl == r {
        if lvl > 1 {
            lemma_int_level(ts, k, f, y, (lvl - 1) as nat);
            lemma_int_level(ts, k + 2, f, z, (lvl - 1) as nat);
        }
        lemma_binop_at_rank(lvl, o);
        assert(tok(ts, k + 1) == Some(o));
        lemma_level_stops(ts, k + 3, f, lvl, bc);
        assert(binop_at(lvl, o) == Some(operator_of(o)->0));
        assert(p_operand(ts, k + 2, f, lvl) == Some((c, k + 3)));
        assert(p_operand(ts, k, f, lvl) == Some((b, k + 1)));
        assert(p_level_more(ts, k + 1, f, lvl, b) == p_level_more(ts, k + 3, f, lvl, bc));
    } else {
        lemma_one_op(ts, k, f, y, z, (lvl - 1) as nat);
        lemma_level_stops(ts, k + 3, f, lvl, bc);
    }
}

/// `a o1 b o2 c` at each level.
proof fn lemma_two_ops(ts: Toks, i: int, f: FileId, x: i64, y: i64, z: i64, lvl: nat)
    requires
        0 <= i,
        i + 5 <= ts.len(),
        ts[i].0 == TokV::Integer(x),
        ts[i + 2].0 == TokV::Integer(y),
        ts[i + 4].0 == TokV::Integer(z),
        operator_rank(ts[i + 1].0) > 0,
        operator_rank(ts[i + 3].0) > 0,
        i + 5 == ts.len() || operator_rank(ts[i + 5].0) == 0,
        1 <= lvl <= 5,
    ensures
        ({
            let r1 = operator_rank(ts[i + 1].0);
            let r2 = operator_rank(ts[i + 3].0);
            let a = (ExprV::Int(x), span_of(ts, i, i + 1, f));
            let b = (ExprV::Int(y), span_of(ts, i + 2, i + 3, f));
            let c = (ExprV::Int(z), span_of(ts, i + 4, i + 5, f));
            let ab = (ExprV::BinOp(Box::new(a), operator_of(ts[i + 1].0)->0, Box::new(b)),
                Span { start: a.1.start, end: b.1.end, file_id: f });
            let bc = (ExprV::BinOp(Box::new(b), operator_of(ts[i + 3].0)->0, Box::new(c)),
                Span { start: b.1.start, end: c.1.end, file_id: f });
            let left = (ExprV::BinOp(Box::new(ab), operator_of(ts[i + 3].0)->0, Box::new(c)),
                Span { start: ab.1.start, end: c.1.end, file_id: f });
            let right = (ExprV::BinOp(Box::new(a), operator_of(ts[i + 1].0)->0, Box::new(bc)),
                Span { start: a.1.start, end: bc.1.end, file_id: f });
            p_level(ts, i, f, lvl) == if lvl < r1 {
                Some((a, i + 1))
            } else if r1 <= r2 {
                if lvl < r2 { Some((ab, i + 3)) } else { Some((left, i + 5)) }
            } else {
                Some((right, i + 5))
            }
        }),
    decreases lvl,
{
    let o1 = ts[i + 1].0;
    let o2 = ts[i + 3].0;
    let r1 = operator_rank(o1);
    let r2 = operator_rank(o2);
    let a = (ExprV::Int(x), span_of(ts, i, i + 1, f));
    let b = (ExprV::Int(y), span_of(ts, i + 2, i + 3, f));
    let c = (ExprV::Int(z), span_of(ts, i + 4, i + 5, f));
    let ab = (ExprV::BinOp(Box::new(a), operator_of(o1)->0, Box::new(b)), Span { start: a.1.start, end: b.1.end, file_id: f });
    let bc = (ExprV::BinOp(Box::new(b), operator_of(o2)->0, Box::new(c)), Span { start: b.1.start, end: c.1.end, file_id: f });
    let left = (ExprV::BinOp(Box::new(ab), operator_of(o2)->0, Box::new(c)), Span { start: ab.1.start, end: c.1.end, file_id: f });
    let right = (ExprV::BinOp(Box::new(a), operator_of(o1)->0, Box::new(bc)), Span { start: a.1.start, end: bc.1.end, file_id: f });
    lemma_int_operand(ts, i, f, x);
    lemma_int_operand(ts, i + 2, f, y);
    lemma_int_operand(ts, i + 4, f, z);
    assert(tok(ts, i + 1) == Some(o1));
    assert(tok(ts, i + 3) == Some(o2));
    if lvl < r1 {
        lemma_int_level(ts, i, f, x, lvl);
    } else if lvl == r1 {
        if lvl > 1 {
            lemma_int_level(ts, i, f, x, (lvl - 1) as nat);
        }
        lemma_binop_at_rank(lvl, o1);
        if r1 <= r2 {
            if lvl > 1 {
                lemma_int_level(ts, i + 2, f, y, (lvl - 1) as nat);
            }
            if r2 == lvl {
                if lvl > 1 {
                    lemma_int_level(ts, i + 4, f, z, (lvl - 1) as nat);
                }
                lemma_binop_at_rank(lvl, o2);
                lemma_level_stops(ts, i + 5, f, lvl, left);
                assert(binop_at(lvl, o2) == Some(operator_of(o2)->0));
                assert(p_operand(ts, i + 4, f, lvl) == Some((c, i + 5)));
                assert(p_level_more(ts, i + 3, f, lvl, ab) == p_level_more(ts, i + 5, f, lvl, left));
            } else {
                lemma_level_stops(ts, i + 3, f, lvl, ab);
            }
            assert(binop_at(lvl, o1) == Some(operator_of(o1)->0));
            assert(p_operand(ts, i + 2, f, lvl) == Some((b, i + 3)));
            assert(p_level_more(ts, i + 1, f, lvl, a) == p_level_more(ts, i + 3, f, lvl, ab));
        } else {
            lemma_one_op(ts, i + 2, f, y, z, (lvl - 1) as nat);
            lemma_level_stops(ts, i + 5, f, lvl, right);
            assert(p_level_more(ts, i + 1, f, lvl, a) == p_level_more(ts, i + 5, f, lvl, right));
        }
    } else {
        lemma_two_ops(ts, i, f, x, y, z, (lvl - 1) as nat);
        if r1 <= r2 && lvl - 1 < r2 {
            if r2 == lvl {
                lemma_int_level(ts, i + 4, f, z, (lvl - 1) as nat);
                lemma_binop_at_rank(lvl, o2);
                lemma_level_stops(ts, i + 5, f, lvl, left);
                assert(p_level_more(ts, i + 3, f, lvl, ab) == p_level_more(ts, i + 5, f, lvl, left));
            } else {
                lemma_level_stops(ts, i + 3, f, lvl, ab);
            }
        } else if r1 <= r2 {
            lemma_level_stops(ts, i + 5, f, lvl, left);
        } else {
            lemma_level_stops(ts, i + 5, f, lvl, right);
        }
    }
}

/// Binary operators group by their rank: in the tokens `a o1 b o2 c`, with
/// integer literals `a`, `b`, `c` and no binary operator after them, `o1`
/// groups first, `(a o1 b) o2 c`, when it binds at least as tightly as `o2`
/// (operators of one rank group to the left); otherwise `o2` does,
/// `a o1 (b o2 c)`.
pub proof fn law_binary_grouping(ts: Toks, i: int, f: FileId, x: i64, y: i64, z: i64)
    requires
        0 <= i,
        i + 5 <= ts.len(),
        ts[i].0 == TokV::Integer(x),
        ts[i + 2].0 == TokV::Integer(y),
        ts[i + 4].0 == TokV::Integer(z),
        operator_rank(ts[i + 1].0) > 0,
        operator_rank(ts[i + 3].0) > 0,
        i + 5 == ts.len() || operator_rank(ts[i + 5].0) == 0,
    ensures
        p_expr(ts, i, f) matches Some((e, j)) && j == i + 5 && (e.0 matches ExprV::BinOp(l, op, r) &&
            if operator_rank(ts[i + 1].0) <= operator_rank(ts[i + 3].0) {
                operator_of(ts[i + 3].0) == Some(op) && r.0 == ExprV::Int(z)
                    && (l.0 matches ExprV::BinOp(l2, op2, r2) && l2.0 == ExprV::Int(x)
                        && operator_of(ts[i + 1].0) == Some(op2) && r2.0 == ExprV::Int(y))
            } else {
                operator_of(ts[i + 1].0) == Some(op) && l.0 == ExprV::Int(x)
                    && (r.0 matches ExprV::BinOp(l2, op2, r2) && l2.0 == ExprV::Int(y)
                        && operator_of(ts[i + 3].0) == Some(op2) && r2.0 == ExprV::Int(z))
            }),
{
    lemma_two_ops(ts, i, f, x, y, z, 5);
}

} // verus!
