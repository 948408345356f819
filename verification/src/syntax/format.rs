//! Formatter for Anvomidav source code: prints a syntax tree in the
//! canonical layout.

use vstd::prelude::*;
use vstd::string::StringSliceAdditionalSpecFns;
use crate::base::skating::{Edge, JumpKind, Level, LiftGroup, Rotations, SpinPosition};
use crate::base::text::{push_char, push_signed_decimal, push_str, signed_decimal, string_of};
use crate::base::source::FileId;
use crate::syntax::parser::{kindv, law_parse_outcome_unique, level_of, p_kind, p_opt_level, parse, KindV, Toks, parse_error_view, parse_outcome, progv, source_program};
use crate::syntax::token::{lemma_level_texts, token_text, TokV};
use crate::syntax::ast::{
    binop_symbol, step_pattern_word, unop_symbol, BinOp, ChoreographicKind, Element, ElementKind, Expr,
    FnDef, Ident, Import, MatchArm, Param, PositionExpr, Program, Segment, SegmentKind, Sequence,
    Spanned, SpinPositionDef, Stmt, StepPattern, TimeBinOp, TimeExpr, Timing, TransitionElement, TypeExpr,
    UnaryOp, ParallelElement, SyncElement, PatternElement, segment_kind_word,
};

verus! {

broadcast use {vstd::std_specs::vec::axiom_vec_decreases_to_view, vstd::std_specs::vec::axiom_vec_index_decreases};

/// `n` copies of `s`.
pub open spec fn repeat(s: Seq<char>, n: nat) -> Seq<char>
    decreases n,
{
    if n == 0 { Seq::empty() } else { repeat(s, (n - 1) as nat) + s }
}

/// Joins the texts with a separator.
pub open spec fn join(parts: Seq<Seq<char>>, sep: Seq<char>) -> Seq<char>
    decreases parts.len(),
{
    if parts.len() == 0 {
        Seq::empty()
    } else if parts.len() == 1 {
        parts[0]
    } else {
        parts[0] + sep + join(parts.subrange(1, parts.len() as int), sep)
    }
}

/// The word for a rotation count.
pub open spec fn rotations_word(r: Rotations) -> Seq<char> {
    match r {
        Rotations::Single => "single"@,
        Rotations::Double => "double"@,
        Rotations::Triple => "triple"@,
        Rotations::Quad => "quad"@,
    }
}

/// The keyword for a jump kind.
pub open spec fn jump_word(k: JumpKind) -> Seq<char> {
    match k {
        JumpKind::Axel => "axel"@,
        JumpKind::Lutz => "lutz"@,
        JumpKind::Flip => "flip"@,
        JumpKind::Loop => "loop"@,
        JumpKind::Salchow => "salchow"@,
        JumpKind::ToeLoop => "toe_loop"@,
        JumpKind::Euler => "euler"@,
    }
}

/// The keyword for a spin position.
pub open spec fn spin_position_word(p: SpinPosition) -> Seq<char> {
    match p {
        SpinPosition::Upright => "upright"@,
        SpinPosition::Sit => "sit"@,
        SpinPosition::Camel => "camel"@,
        SpinPosition::Layback => "layback"@,
        SpinPosition::Biellmann => "biellmann"@,
    }
}

/// The keyword for a lift group.
pub open spec fn lift_group_word(g: LiftGroup) -> Seq<char> {
    match g {
        LiftGroup::Group1 => "Gr1"@,
        LiftGroup::Group2 => "Gr2"@,
        LiftGroup::Group3 => "Gr3"@,
        LiftGroup::Group4 => "Gr4"@,
        LiftGroup::Group5 => "Gr5"@,
    }
}

/// The keyword for an edge.
pub open spec fn edge_word(e: Edge) -> Seq<char> {
    match e {
        Edge::LFO => "LFO"@,
        Edge::LFI => "LFI"@,
        Edge::LBO => "LBO"@,
        Edge::LBI => "LBI"@,
        Edge::RFO => "RFO"@,
        Edge::RFI => "RFI"@,
        Edge::RBO => "RBO"@,
        Edge::RBI => "RBI"@,
    }
}

/// The keyword for a choreographic element kind.
pub open spec fn choreo_word(k: ChoreographicKind) -> Seq<char> {
    match k {
        ChoreographicKind::Spiral => "spiral"@,
        ChoreographicKind::Spread => "spread"@,
        ChoreographicKind::Ina => "ina"@,
        ChoreographicKind::Hydroblading => "hydroblading"@,
        ChoreographicKind::Pivot => "pivot"@,
        ChoreographicKind::Choreographic => "choreographic"@,
    }
}

/// The keyword for a level.
pub open spec fn level_word(l: Level) -> Seq<char> {
    match l {
        Level::B => "B"@,
        Level::L1 => "L1"@,
        Level::L2 => "L2"@,
        Level::L3 => "L3"@,
        Level::L4 => "L4"@,
    }
}

/// ` level` when a level is given.
pub open spec fn opt_level(l: Option<Level>) -> Seq<char> {
    match l {
        Some(l) => " "@ + level_word(l),
        None => Seq::empty(),
    }
}

/// The text of a time expression.
pub open spec fn f_time(t: TimeExpr) -> Seq<char>
    decreases t,
{
    match t {
        TimeExpr::Literal(f) => f.text@,
        TimeExpr::Formatted(s) => s@,
        TimeExpr::Var(v) => v.node@,
        TimeExpr::BinOp(a, op, b) => f_time(*a) + (match op {
            TimeBinOp::Add => " + "@,
            TimeBinOp::Sub => " - "@,
        }) + f_time(*b),
    }
}

/// The text of a position expression.
pub open spec fn f_position(p: PositionExpr) -> Seq<char>
    decreases p,
{
    match p {
        PositionExpr::Literal(x, y) => "("@ + x.text@ + ", "@ + y.text@ + ")"@,
        PositionExpr::Named(n) => n@,
        PositionExpr::Var(v) => v.node@,
        PositionExpr::Relative(b, dx, dy) => f_position(*b) + " + ("@ + dx.text@ + ", "@ + dy.text@ + ")"@,
    }
}

/// The text of a timing.
pub open spec fn f_timing(t: Timing) -> Seq<char> {
    match t {
        Timing::At(a) => "at "@ + f_time(a),
        Timing::Range(a, b) => f_time(a) + ".."@ + f_time(b),
        Timing::Duration(a) => "duration "@ + f_time(a),
        Timing::Beat(n) => "beat "@ + signed_decimal(n as int),
        Timing::After(a) => "after "@ + f_time(a),
    }
}

/// The text of a type expression.
pub open spec fn f_type(t: TypeExpr, l: usize, ind: Seq<char>) -> Seq<char>
    decreases t,
{
    match t {
        TypeExpr::Named(n) => n.node@,
        TypeExpr::Array(a) => "["@ + f_type(*a, l, ind) + "]"@,
        TypeExpr::Optional(a) => f_type(*a, l, ind) + "?"@,
        TypeExpr::Tuple(ts) => "("@ + f_types(ts@, l, ind) + ")"@,
        TypeExpr::App(b, args) => f_type(*b, l, ind) + "<"@ + f_types(args@, l, ind) + ">"@,
        TypeExpr::Fn(ps, r) => "fn("@ + f_types(ps@, l, ind) + ") -> "@ + f_type(*r, l, ind),
        TypeExpr::Refinement { base, var, predicate } => "{ "@ + var.node@ + ": "@ + f_type(*base, l, ind)
            + " | "@ + f_expr(*predicate, l, ind) + " }"@,
    }
}

/// Type expressions separated by `, `.
pub open spec fn f_types(s: Seq<TypeExpr>, l: usize, ind: Seq<char>) -> Seq<char>
    decreases s,
{
    if s.len() == 0 {
        Seq::empty()
    } else if s.len() == 1 {
        f_type(s[0], l, ind)
    } else {
        f_type(s[0], l, ind) + ", "@ + f_types(s.subrange(1, s.len() as int), l, ind)
    }
}

/// `: type` when a type is given.
pub open spec fn f_opt_type(t: Option<TypeExpr>, l: usize, ind: Seq<char>) -> Seq<char>
    decreases t,
{
    match t {
        Some(t) => ": "@ + f_type(t, l, ind),
        None => Seq::empty(),
    }
}

/// The text of an expression at indentation level `l`.
pub open spec fn f_expr(e: Expr, l: usize, ind: Seq<char>) -> Seq<char>
    decreases e,
{
    match e {
        Expr::Int(n) => signed_decimal(n as int),
        Expr::Float(f) => f.text@,
        Expr::String(s) => "\""@ + s@ + "\""@,
        Expr::Bool(b) => if b { "true"@ } else { "false"@ },
        Expr::Time(t) => f_time(t),
        Expr::Position(p) => f_position(p),
        Expr::Var(v) => v.node@,
        Expr::BinOp(a, op, b) => f_expr(a.node, l, ind) + " "@ + binop_symbol(op) + " "@ + f_expr(b.node, l, ind),
        Expr::UnaryOp(op, a) => unop_symbol(op) + f_expr(a.node, l, ind),
        Expr::Tuple(es) => "("@ + f_exprs(es@, l, ind) + ")"@,
        Expr::Array(es) => "["@ + f_exprs(es@, l, ind) + "]"@,
        Expr::Block(ss) => "{ "@ + f_block(ss@, l, ind) + " }"@,
        Expr::If(c, t, e2) => "if "@ + f_expr(c.node, l, ind) + " then "@ + f_expr(t.node, l, ind) + (match e2 {
            Some(x) => " else "@ + f_expr(x.node, l, ind),
            None => Seq::empty(),
        }),
        Expr::Let(n, ty, v, b) => "let "@ + n.node@ + f_opt_type(ty, l, ind) + " = "@ + f_expr(v.node, l, ind)
            + " in "@ + f_expr(b.node, l, ind),
        Expr::Call(f, args) => f_expr(f.node, l, ind) + "("@ + f_exprs(args@, l, ind) + ")"@,
        Expr::Field(a, n) => f_expr(a.node, l, ind) + "."@ + n.node@,
        Expr::Index(a, i) => f_expr(a.node, l, ind) + "["@ + f_expr(i.node, l, ind) + "]"@,
        Expr::Match(a, arms) => "match "@ + f_expr(a.node, l, ind) + " { "@ + f_arms(arms@, l, ind) + " }"@,
        Expr::Lambda(ps, b) => "|"@ + f_params(ps@, l, ind) + "| "@ + f_expr(b.node, l, ind),
        Expr::Record(fs) => "{ "@ + f_record(fs@, l, ind) + " }"@,
        Expr::Element(el) => f_element(*el, l, ind),
    }
}

/// Expressions separated by `, `.
pub open spec fn f_exprs(s: Seq<Spanned<Expr>>, l: usize, ind: Seq<char>) -> Seq<char>
    decreases s,
{
    if s.len() == 0 {
        Seq::empty()
    } else if s.len() == 1 {
        f_expr(s[0].node, l, ind)
    } else {
        f_expr(s[0].node, l, ind) + ", "@ + f_exprs(s.subrange(1, s.len() as int), l, ind)
    }
}

/// Statements separated by `; `.
pub open spec fn f_block(s: Seq<Spanned<Stmt>>, l: usize, ind: Seq<char>) -> Seq<char>
    decreases s,
{
    if s.len() == 0 {
        Seq::empty()
    } else if s.len() == 1 {
        f_stmt(s[0].node, l, ind)
    } else {
        f_stmt(s[0].node, l, ind) + "; "@ + f_block(s.subrange(1, s.len() as int), l, ind)
    }
}

/// Statements, each followed by `; `.
pub open spec fn f_body(s: Seq<Spanned<Stmt>>, l: usize, ind: Seq<char>) -> Seq<char>
    decreases s,
{
    if s.len() == 0 {
        Seq::empty()
    } else {
        f_stmt(s[0].node, l, ind) + "; "@ + f_body(s.subrange(1, s.len() as int), l, ind)
    }
}

/// Match arms `_ => body` separated by `, ` (patterns print as `_`).
pub open spec fn f_arms(s: Seq<MatchArm>, l: usize, ind: Seq<char>) -> Seq<char>
    decreases s,
{
    if s.len() == 0 {
        Seq::empty()
    } else if s.len() == 1 {
        "_"@ + " => "@ + f_expr(s[0].body.node, l, ind)
    } else {
        "_"@ + " => "@ + f_expr(s[0].body.node, l, ind) + ", "@ + f_arms(s.subrange(1, s.len() as int), l, ind)
    }
}

/// Parameters `name: type` separated by `, `.
pub open spec fn f_params(s: Seq<Param>, l: usize, ind: Seq<char>) -> Seq<char>
    decreases s,
{
    if s.len() == 0 {
        Seq::empty()
    } else if s.len() == 1 {
        s[0].name.node@ + f_opt_type(s[0].ty, l, ind)
    } else {
        s[0].name.node@ + f_opt_type(s[0].ty, l, ind) + ", "@ + f_params(s.subrange(1, s.len() as int), l, ind)
    }
}

/// Record fields `name: value` separated by `, `.
pub open spec fn f_record(s: Seq<(Ident, Spanned<Expr>)>, l: usize, ind: Seq<char>) -> Seq<char>
    decreases s,
{
    if s.len() == 0 {
        Seq::empty()
    } else if s.len() == 1 {
        s[0].0.node@ + ": "@ + f_expr(s[0].1.node, l, ind)
    } else {
        s[0].0.node@ + ": "@ + f_expr(s[0].1.node, l, ind) + ", "@ + f_record(s.subrange(1, s.len() as int), l, ind)
    }
}

/// `= value` or `value` when given.
pub open spec fn f_opt_expr(e: Option<Expr>, l: usize, ind: Seq<char>) -> Seq<char>
    decreases e,
{
    match e {
        Some(x) => " "@ + f_expr(x, l, ind),
        None => Seq::empty(),
    }
}

/// The text of a statement.
pub open spec fn f_stmt(s: Stmt, l: usize, ind: Seq<char>) -> Seq<char>
    decreases s,
{
    match s {
        Stmt::Expr(e) => f_expr(e, l, ind),
        Stmt::Let(n, ty, v) => "let "@ + n.node@ + f_opt_type(ty, l, ind) + " = "@ + f_expr(v, l, ind),
        Stmt::Assign(t, v) => f_expr(t.node, l, ind) + " = "@ + f_expr(v, l, ind),
        Stmt::Return(e) => "return"@ + f_opt_expr(e, l, ind),
        Stmt::For(n, it, body) => "for "@ + n.node@ + " in "@ + f_expr(it, l, ind) + " { "@ + f_body(body@, l, ind) + "}"@,
        Stmt::While(c, body) => "while "@ + f_expr(c, l, ind) + " { "@ + f_body(body@, l, ind) + "}"@,
    }
}

/// The next indentation level (wrapping at the top of `usize`).
pub open spec fn inc(l: usize) -> usize {
    if l == usize::MAX { 0 } else { (l + 1) as usize }
}

/// Spin positions separated by spaces.
pub open spec fn f_spin_positions(s: Seq<SpinPositionDef>) -> Seq<char>
    decreases s.len(),
{
    if s.len() == 0 {
        Seq::empty()
    } else if s.len() == 1 {
        spin_position_word(s[0].position)
    } else {
        spin_position_word(s[0].position) + " "@ + f_spin_positions(s.subrange(1, s.len() as int))
    }
}

/// The word of a level, as written in source.
pub fn level_str(level: Level) -> (r: &'static str)
    ensures
        r@ == level_word(level),
{
    proof {
        reveal_strlit("B");
        reveal_strlit("L1");
        reveal_strlit("L2");
        reveal_strlit("L3");
        reveal_strlit("L4");
    }
    match level {
        Level::B => "B",
        Level::L1 => "L1",
        Level::L2 => "L2",
        Level::L3 => "L3",
        Level::L4 => "L4",
    }
}

/// The text of an element kind, at indentation level `l`.
pub open spec fn f_kind(k: ElementKind, l: usize, ind: Seq<char>) -> Seq<char>
    decreases k,
{
    match k {
        ElementKind::Jump(j) => "jump "@ + rotations_word(j.rotations) + " "@ + jump_word(j.kind),
        ElementKind::Spin(s) => "spin "@ + f_spin_positions(s.positions@) + opt_level(s.level),
        ElementKind::StepSequence(s) => "step "@ + step_pattern_word(s.pattern) + opt_level(s.level),
        ElementKind::Lift(x) => "lift "@ + lift_group_word(x.group) + opt_level(x.level),
        ElementKind::Throw(t) => "throw "@ + rotations_word(t.rotations) + " "@ + jump_word(t.kind),
        ElementKind::Twist(t) => "twist "@ + rotations_word(t.rotations) + opt_level(t.level),
        ElementKind::DeathSpiral(d) => "death_spiral "@ + edge_word(d.edge) + opt_level(d.level),
        ElementKind::Choreographic(c) => "choreographic "@ + choreo_word(c.kind),
        ElementKind::Transition(t) => "transition"@ + (match t.description {
            Some(d) => " \""@ + d@ + "\""@,
            None => Seq::empty(),
        }),
        ElementKind::Pattern(p) => "pattern \""@ + p.name@ + "\""@,
        ElementKind::Parallel(p) => "parallel {"@ + "\n"@ + f_branches(p.branches@, inc(l), ind) + repeat(ind, l as nat) + "}"@,
        ElementKind::Sync(s) => "sync {"@ + "\n"@ + f_elements(s.elements@, inc(l), ind) + repeat(ind, l as nat) + "}"@,
    }
}

/// The level an element kind carries, if any.
pub open spec fn kind_level(k: ElementKind) -> Option<Level> {
    match k {
        ElementKind::Spin(s) => s.level,
        ElementKind::StepSequence(s) => s.level,
        ElementKind::Lift(x) => x.level,
        ElementKind::Twist(t) => t.level,
        ElementKind::DeathSpiral(d) => d.level,
        _ => None,
    }
}

/// The token that stands for a level.
pub open spec fn level_token(lv: Level) -> TokV {
    match lv {
        Level::B => TokV::LevelB,
        Level::L1 => TokV::Level1,
        Level::L2 => TokV::Level2,
        Level::L3 => TokV::Level3,
        Level::L4 => TokV::Level4,
    }
}

/// `s` ends with `w`.
pub open spec fn ends_with(s: Seq<char>, w: Seq<char>) -> bool {
    s.len() >= w.len() && s.subrange(s.len() - w.len(), s.len() as int) == w
}

proof fn lemma_ends_with_concat(pre: Seq<char>, w: Seq<char>)
    ensures
        ends_with(pre + w, w),
{
    assert((pre + w).subrange(pre.len() as int, (pre + w).len() as int) =~= w);
}

/// The level token's text is the level's word, and the parser reads that
/// token as the level.
proof fn lemma_level_token(lv: Level)
    ensures
        token_text(level_token(lv)) == level_word(lv),
        level_of(level_token(lv)) == Some(lv),
{
    lemma_level_texts();
}

/// Formatting keeps an element's level: the text of an element kind that
/// carries a level ends with a space and the text of a token that the
/// parser reads as that level (and that the lexer reads back as that token,
/// by `law_keywords_read_back`).
pub proof fn law_format_keeps_level(k: ElementKind, l: usize, ind: Seq<char>)
    ensures
        kind_level(k) matches Some(lv) ==> level_of(level_token(lv)) == Some(lv)
            && ends_with(f_kind(k, l, ind), " "@ + token_text(level_token(lv))),
{
    match kind_level(k) {
        Some(lv) => {
            let pre = match k {
                ElementKind::Spin(s) => "spin "@ + f_spin_positions(s.positions@),
                ElementKind::StepSequence(s) => "step "@ + step_pattern_word(s.pattern),
                ElementKind::Lift(x) => "lift "@ + lift_group_word(x.group),
                ElementKind::Twist(x) => "twist "@ + rotations_word(x.rotations),
                ElementKind::DeathSpiral(d) => "death_spiral "@ + edge_word(d.edge),
                _ => Seq::empty(),
            };
            lemma_level_token(lv);
            let w = " "@ + token_text(level_token(lv));
            assert(opt_level(Some(lv)) == w);
            assert(f_kind(k, l, ind) == pre + w);
            lemma_ends_with_concat(pre, w);
        },
        None => {},
    }
}

/// The token for a rotation count.
pub open spec fn rotations_token(r: Rotations) -> TokV {
    match r {
        Rotations::Single => TokV::Single,
        Rotations::Double => TokV::Double,
        Rotations::Triple => TokV::Triple,
        Rotations::Quad => TokV::Quad,
    }
}

/// The token for a jump kind.
pub open spec fn jump_token(k: JumpKind) -> TokV {
    match k {
        JumpKind::Axel => TokV::Axel,
        JumpKind::Lutz => TokV::Lutz,
        JumpKind::Flip => TokV::Flip,
        JumpKind::Loop => TokV::Loop,
        JumpKind::Salchow => TokV::Salchow,
        JumpKind::ToeLoop => TokV::ToeLoop,
        JumpKind::Euler => TokV::Euler,
    }
}

/// The token for a lift group.
pub open spec fn lift_group_token(g: LiftGroup) -> TokV {
    match g {
        LiftGroup::Group1 => TokV::LiftGroup1,
        LiftGroup::Group2 => TokV::LiftGroup2,
        LiftGroup::Group3 => TokV::LiftGroup3,
        LiftGroup::Group4 => TokV::LiftGroup4,
        LiftGroup::Group5 => TokV::LiftGroup5,
    }
}

/// The token for an edge.
pub open spec fn edge_token(e: Edge) -> TokV {
    match e {
        Edge::LFO => TokV::LFO,
        Edge::LFI => TokV::LFI,
        Edge::LBO => TokV::LBO,
        Edge::LBI => TokV::LBI,
        Edge::RFO => TokV::RFO,
        Edge::RFI => TokV::RFI,
        Edge::RBO => TokV::RBO,
        Edge::RBI => TokV::RBI,
    }
}

/// The token for a choreographic element kind.
pub open spec fn choreo_token(k: ChoreographicKind) -> TokV {
    match k {
        ChoreographicKind::Spiral => TokV::Spiral,
        ChoreographicKind::Spread => TokV::Spread,
        ChoreographicKind::Ina => TokV::Ina,
        ChoreographicKind::Hydroblading => TokV::Hydroblading,
        ChoreographicKind::Pivot => TokV::Pivot,
        ChoreographicKind::Choreographic => TokV::Choreographic,
    }
}

/// The token of an optional level, if any.
pub open spec fn level_tokens(l: Option<Level>) -> Seq<TokV> {
    match l {
        Some(lv) => seq![level_token(lv)],
        None => Seq::empty(),
    }
}

/// Is the element kind one of those written as a fixed row of keywords
/// (jump, step sequence, lift, throw, twist, death spiral, choreographic)?
pub open spec fn fixed_shape(k: ElementKind) -> bool {
    k is Jump || k is StepSequence || k is Lift || k is Throw || k is Twist || k is DeathSpiral || k is Choreographic
}

/// The tokens of an element kind of fixed shape.
pub open spec fn kind_tokens(k: ElementKind) -> Seq<TokV> {
    match k {
        ElementKind::Jump(j) => seq![TokV::Jump, rotations_token(j.rotations), jump_token(j.kind)],
        ElementKind::StepSequence(s) => seq![TokV::Step, TokV::Ident(step_pattern_word(s.pattern))] + level_tokens(s.level),
        ElementKind::Lift(x) => seq![TokV::Lift, lift_group_token(x.group)] + level_tokens(x.level),
        ElementKind::Throw(t) => seq![TokV::Throw, rotations_token(t.rotations), jump_token(t.kind)],
        ElementKind::Twist(t) => seq![TokV::Twist, rotations_token(t.rotations)] + level_tokens(t.level),
        ElementKind::DeathSpiral(d) => seq![TokV::DeathSpiral, edge_token(d.edge)] + level_tokens(d.level),
        ElementKind::Choreographic(c) => seq![TokV::Choreographic, choreo_token(c.kind)],
        _ => Seq::empty(),
    }
}

/// The texts of tokens, separated by single spaces.
pub open spec fn token_words(ts: Seq<TokV>) -> Seq<char> {
    join(ts.map_values(|t: TokV| token_text(t)), " "@)
}

proof fn lemma_join_small(a: Seq<char>, b: Seq<char>, c: Seq<char>, sep: Seq<char>)
    ensures
        join(seq![a, b], sep) == a + sep + b,
        join(seq![a, b, c], sep) == a + sep + b + sep + c,
{
    assert(seq![a, b].subrange(1, 2) =~= seq![b]);
    assert(seq![a, b, c].subrange(1, 3) =~= seq![b, c]);
    assert(seq![b, c].subrange(1, 2) =~= seq![c]);
    assert(join(seq![b], sep) == b);
    assert(join(seq![c], sep) == c);
    assert(join(seq![b, c], sep) == b + sep + c);
    assert(a + sep + (b + sep + c) =~= a + sep + b + sep + c);
}

proof fn lemma_word_texts(r: Rotations, j: JumpKind, g: LiftGroup, e: Edge, c: ChoreographicKind)
    ensures
        token_text(rotations_token(r)) == rotations_word(r),
        token_text(jump_token(j)) == jump_word(j),
        token_text(lift_group_token(g)) == lift_group_word(g),
        token_text(edge_token(e)) == edge_word(e),
        token_text(choreo_token(c)) == choreo_word(c),
        token_text(TokV::Jump) == "jump"@,
        token_text(TokV::Step) == "step"@,
        token_text(TokV::Lift) == "lift"@,
        token_text(TokV::Throw) == "throw"@,
        token_text(TokV::Twist) == "twist"@,
        token_text(TokV::DeathSpiral) == "death_spiral"@,
        token_text(TokV::Choreographic) == "choreographic"@,
{
}

proof fn lemma_words_with_level(head: TokV, mid: TokV, l: Option<Level>)
    ensures
        token_words(seq![head, mid] + level_tokens(l)) == token_text(head) + " "@ + token_text(mid) + opt_level(l),
{
    match l {
        Some(lv) => {
            lemma_level_token(lv);
            let ts = seq![head, mid] + level_tokens(l);
            assert(ts =~= seq![head, mid, level_token(lv)]);
            assert(ts.map_values(|t: TokV| token_text(t)) =~= seq![token_text(head), token_text(mid), level_word(lv)]);
            lemma_join_small(token_text(head), token_text(mid), level_word(lv), " "@);
            assert(token_text(head) + " "@ + token_text(mid) + " "@ + level_word(lv)
                =~= token_text(head) + " "@ + token_text(mid) + opt_level(l));
        },
        None => {
            let ts = seq![head, mid] + level_tokens(l);
            assert(ts =~= seq![head, mid]);
            assert(ts.map_values(|t: TokV| token_text(t)) =~= seq![token_text(head), token_text(mid)]);
            lemma_join_small(token_text(head), token_text(mid), Seq::empty(), " "@);
            assert(token_text(head) + " "@ + token_text(mid) =~= token_text(head) + " "@ + token_text(mid) + opt_level(l));
        },
    }
}

proof fn lemma_words_three(a: TokV, b: TokV, c: TokV)
    ensures
        token_words(seq![a, b, c]) == token_text(a) + " "@ + token_text(b) + " "@ + token_text(c),
{
    assert(seq![a, b, c].map_values(|t: TokV| token_text(t)) =~= seq![token_text(a), token_text(b), token_text(c)]);
    lemma_join_small(token_text(a), token_text(b), token_text(c), " "@);
}

/// The text of an element kind of fixed shape is the texts of its tokens,
/// separated by spaces.
proof fn lemma_kind_text(k: ElementKind, l: usize, ind: Seq<char>)
    requires
        fixed_shape(k),
    ensures
        f_kind(k, l, ind) == token_words(kind_tokens(k)),
{
    reveal_strlit(" ");
    match k {
        ElementKind::Jump(j) => {
            lemma_word_texts(j.rotations, j.kind, LiftGroup::Group1, Edge::LFO, ChoreographicKind::Spiral);
            lemma_words_three(TokV::Jump, rotations_token(j.rotations), jump_token(j.kind));
            reveal_strlit("jump ");
            reveal_strlit("jump");
            assert("jump "@ =~= "jump"@ + " "@);
        },
        ElementKind::StepSequence(x) => {
            lemma_word_texts(Rotations::Single, JumpKind::Axel, LiftGroup::Group1, Edge::LFO, ChoreographicKind::Spiral);
            lemma_words_with_level(TokV::Step, TokV::Ident(step_pattern_word(x.pattern)), x.level);
            reveal_strlit("step ");
            reveal_strlit("step");
            assert("step "@ =~= "step"@ + " "@);
        },
        ElementKind::Lift(x) => {
            lemma_word_texts(Rotations::Single, JumpKind::Axel, x.group, Edge::LFO, ChoreographicKind::Spiral);
            lemma_words_with_level(TokV::Lift, lift_group_token(x.group), x.level);
            reveal_strlit("lift ");
            reveal_strlit("lift");
            assert("lift "@ =~= "lift"@ + " "@);
        },
        ElementKind::Throw(x) => {
            lemma_word_texts(x.rotations, x.kind, LiftGroup::Group1, Edge::LFO, ChoreographicKind::Spiral);
            lemma_words_three(TokV::Throw, rotations_token(x.rotations), jump_token(x.kind));
            reveal_strlit("throw ");
            reveal_strlit("throw");
            assert("throw "@ =~= "throw"@ + " "@);
        },
        ElementKind::Twist(x) => {
            lemma_word_texts(x.rotations, JumpKind::Axel, LiftGroup::Group1, Edge::LFO, ChoreographicKind::Spiral);
            lemma_words_with_level(TokV::Twist, rotations_token(x.rotations), x.level);
            reveal_strlit("twist ");
            reveal_strlit("twist");
            assert("twist "@ =~= "twist"@ + " "@);
        },
        ElementKind::DeathSpiral(x) => {
            lemma_word_texts(Rotations::Single, JumpKind::Axel, LiftGroup::Group1, x.edge, ChoreographicKind::Spiral);
            lemma_words_with_level(TokV::DeathSpiral, edge_token(x.edge), x.level);
            reveal_strlit("death_spiral ");
            reveal_strlit("death_spiral");
            assert("death_spiral "@ =~= "death_spiral"@ + " "@);
        },
        ElementKind::Choreographic(x) => {
            lemma_word_texts(Rotations::Single, JumpKind::Axel, LiftGroup::Group1, Edge::LFO, x.kind);
            lemma_words_with_level(TokV::Choreographic, choreo_token(x.kind), None);
            assert(kind_tokens(k) =~= seq![TokV::Choreographic, choreo_token(x.kind)] + level_tokens(None));
            reveal_strlit("choreographic ");
            reveal_strlit("choreographic");
            assert("choreographic "@ =~= "choreographic"@ + " "@);
        },
        _ => {},
    }
}

/// The parser reads each token of a fixed-shape kind as the value it stands for.
proof fn lemma_token_values(r: Rotations, j: JumpKind, g: LiftGroup, e: Edge, c: ChoreographicKind, p: StepPattern)
    ensures
        crate::syntax::parser::rotations_of(rotations_token(r)) == Some(r),
        crate::syntax::parser::jump_kind_of(jump_token(j)) == Some(j),
        crate::syntax::parser::lift_group_of(lift_group_token(g)) == Some(g),
        crate::syntax::parser::edge_of(edge_token(e)) == Some(e),
        crate::syntax::parser::choreo_kind_of(choreo_token(c)) == Some(c),
        crate::syntax::parser::step_pattern_of(TokV::Ident(step_pattern_word(p))) == Some(p),
{
    reveal_strlit("straight");
    reveal_strlit("circular");
    reveal_strlit("serpentine");
    reveal_strlit("diagonal");
    reveal_strlit("midline");
    assert("circular"@[0] != "straight"@[0]);
    assert("serpentine"@[1] != "straight"@[1]);
    assert("serpentine"@[0] != "circular"@[0]);
    assert("diagonal"@[0] != "straight"@[0]);
    assert("diagonal"@[0] != "circular"@[0]);
    assert("diagonal"@[0] != "serpentine"@[0]);
    assert("midline"@[0] != "straight"@[0]);
    assert("midline"@[0] != "circular"@[0]);
    assert("midline"@[0] != "serpentine"@[0]);
    assert("midline"@[0] != "diagonal"@[0]);
}

/// An optional level, as its tokens, followed by no level token, reads back.
proof fn lemma_opt_level_back(ts: Toks, j: int, l: Option<Level>)
    requires
        0 <= j,
        j + level_tokens(l).len() <= ts.len(),
        forall|m: int| 0 <= m < level_tokens(l).len() ==> ts[j + m].0 == #[trigger] level_tokens(l)[m],
        j + level_tokens(l).len() == ts.len() || level_of(ts[j + level_tokens(l).len()].0) is None,
    ensures
        p_opt_level(ts, j) == (l, j + level_tokens(l).len()),
{
    match l {
        Some(lv) => {
            lemma_level_token(lv);
            assert(ts[j + 0].0 == level_tokens(l)[0]);
        },
        None => {},
    }
}

/// The parser reads the tokens of an element kind of fixed shape back as
/// the kind's value.
proof fn lemma_kind_parse(k: ElementKind, ts: Toks, i: int)
    requires
        fixed_shape(k),
        kindv(k) != KindV::Other,
        0 <= i,
        i + kind_tokens(k).len() <= ts.len(),
        forall|j: int| 0 <= j < kind_tokens(k).len() ==> ts[i + j].0 == #[trigger] kind_tokens(k)[j],
        i + kind_tokens(k).len() == ts.len() || level_of(ts[i + kind_tokens(k).len()].0) is None,
    ensures
        p_kind(ts, i) == Some((kindv(k), i + kind_tokens(k).len())),
{
    let kt = kind_tokens(k);
    assert(ts[i + 0].0 == kt[0]);
    assert(ts[i + 1].0 == kt[1]);
    match k {
        ElementKind::Jump(x) => {
            assert(ts[i + 2].0 == kt[2]);
            lemma_token_values(x.rotations, x.kind, LiftGroup::Group1, Edge::LFO, ChoreographicKind::Spiral, StepPattern::Straight);
        },
        ElementKind::Throw(x) => {
            assert(ts[i + 2].0 == kt[2]);
            lemma_token_values(x.rotations, x.kind, LiftGroup::Group1, Edge::LFO, ChoreographicKind::Spiral, StepPattern::Straight);
        },
        ElementKind::StepSequence(x) => {
            lemma_token_values(Rotations::Single, JumpKind::Axel, LiftGroup::Group1, Edge::LFO, ChoreographicKind::Spiral, x.pattern);
            assert forall|m: int| 0 <= m < level_tokens(x.level).len() implies ts[i + 2 + m].0 == #[trigger] level_tokens(x.level)[m] by {
                assert(kt[2 + m] == level_tokens(x.level)[m]);
            }
            lemma_opt_level_back(ts, i + 2, x.level);
        },
        ElementKind::Lift(x) => {
            lemma_token_values(Rotations::Single, JumpKind::Axel, x.group, Edge::LFO, ChoreographicKind::Spiral, StepPattern::Straight);
            assert forall|m: int| 0 <= m < level_tokens(x.level).len() implies ts[i + 2 + m].0 == #[trigger] level_tokens(x.level)[m] by {
                assert(kt[2 + m] == level_tokens(x.level)[m]);
            }
            lemma_opt_level_back(ts, i + 2, x.level);
        },
        ElementKind::Twist(x) => {
            lemma_token_values(x.rotations, JumpKind::Axel, LiftGroup::Group1, Edge::LFO, ChoreographicKind::Spiral, StepPattern::Straight);
            assert forall|m: int| 0 <= m < level_tokens(x.level).len() implies ts[i + 2 + m].0 == #[trigger] level_tokens(x.level)[m] by {
                assert(kt[2 + m] == level_tokens(x.level)[m]);
            }
            lemma_opt_level_back(ts, i + 2, x.level);
        },
        ElementKind::DeathSpiral(x) => {
            lemma_token_values(Rotations::Single, JumpKind::Axel, LiftGroup::Group1, x.edge, ChoreographicKind::Spiral, StepPattern::Straight);
            assert forall|m: int| 0 <= m < level_tokens(x.level).len() implies ts[i + 2 + m].0 == #[trigger] level_tokens(x.level)[m] by {
                assert(kt[2 + m] == level_tokens(x.level)[m]);
            }
            lemma_opt_level_back(ts, i + 2, x.level);
        },
        ElementKind::Choreographic(x) => {
            lemma_token_values(Rotations::Single, JumpKind::Axel, LiftGroup::Group1, Edge::LFO, x.kind, StepPattern::Straight);
        },
        _ => {},
    }
}

/// Formatting an element kind of fixed shape (jump, step sequence, lift,
/// throw, twist, death spiral, choreographic) keeps all of it: the formatted
/// text is the texts of the kind's tokens separated by spaces, and the
/// parser reads those tokens back as the same kind, its rotations, jump,
/// pattern, group, edge and level included (where no level token follows).
pub proof fn law_kind_round_trip(k: ElementKind, l: usize, ind: Seq<char>, ts: Toks, i: int)
    requires
        fixed_shape(k),
        kindv(k) != KindV::Other,
        0 <= i,
        i + kind_tokens(k).len() <= ts.len(),
        forall|j: int| 0 <= j < kind_tokens(k).len() ==> ts[i + j].0 == #[trigger] kind_tokens(k)[j],
        i + kind_tokens(k).len() == ts.len() || level_of(ts[i + kind_tokens(k).len()].0) is None,
    ensures
        f_kind(k, l, ind) == token_words(kind_tokens(k)),
        p_kind(ts, i) == Some((kindv(k), i + kind_tokens(k).len())),
{
    lemma_kind_text(k, l, ind);
    lemma_kind_parse(k, ts, i);
}

/// The line of an element at indentation level `l`.
pub open spec fn f_element(e: Element, l: usize, ind: Seq<char>) -> Seq<char>
    decreases e,
{
    repeat(ind, l as nat) + f_kind(e.kind, l, ind) + (match e.timing {
        Some(t) => " "@ + f_timing(t),
        None => Seq::empty(),
    }) + "\n"@
}

/// Elements, one after the other, at level `l`.
pub open spec fn f_elements(s: Seq<Element>, l: usize, ind: Seq<char>) -> Seq<char>
    decreases s,
{
    if s.len() == 0 {
        Seq::empty()
    } else {
        f_element(s[0], l, ind) + f_elements(s.subrange(1, s.len() as int), l, ind)
    }
}

/// The branches of a parallel element at level `l`.
pub open spec fn f_branches(s: Seq<(Ident, Vec<Element>)>, l: usize, ind: Seq<char>) -> Seq<char>
    decreases s,
{
    if s.len() == 0 {
        Seq::empty()
    } else {
        repeat(ind, l as nat) + s[0].0.node@ + ": {"@ + "\n"@ + f_elements(s[0].1@, inc(l), ind) + repeat(ind, l as nat)
            + "}"@ + "\n"@ + f_branches(s.subrange(1, s.len() as int), l, ind)
    }
}

/// Formatting options.
#[derive(Debug, Clone)]
pub struct FormatOptions {
    /// Indentation string (default: 4 spaces).
    pub indent: String,
    /// Maximum line width before breaking.
    pub max_width: usize,
    /// Add blank lines between segments.
    pub blank_between_segments: bool,
    /// Add blank lines between sequences.
    pub blank_between_sequences: bool,
}

impl Default for FormatOptions {
    fn default() -> (o: FormatOptions)
        ensures
            o.indent@ == "    "@,
            o.max_width == 100,
            o.blank_between_segments,
            !o.blank_between_sequences,
    {
        FormatOptions {
            indent: string_of("    "),
            max_width: 100,
            blank_between_segments: true,
            blank_between_sequences: false,
        }
    }
}

/// The layout settings the text of a program depends on.
pub struct Layout {
    pub ind: Seq<char>,
    pub blank_segments: bool,
    pub blank_sequences: bool,
}

/// The layout of formatting options.
pub open spec fn layout_of(o: FormatOptions) -> Layout {
    Layout { ind: o.indent@, blank_segments: o.blank_between_segments, blank_sequences: o.blank_between_sequences }
}

/// The line of an import at level `l`.
pub open spec fn f_import(i: Import, l: usize, ind: Seq<char>) -> Seq<char> {
    repeat(ind, l as nat) + "import "@ + join(i.path@.map_values(|p: Ident| p.node@), "::"@) + (match i.alias {
        Some(a) => " as "@ + a.node@,
        None => Seq::empty(),
    }) + "\n"@
}

/// The line of a function definition at level `l`.
pub open spec fn f_fn(f: FnDef, l: usize, ind: Seq<char>) -> Seq<char> {
    repeat(ind, l as nat) + "fn "@ + f.name.node@ + "("@ + f_params(f.params@, l, ind) + ")"@ + (match f.return_ty {
        Some(t) => " -> "@ + f_type(t, l, ind),
        None => Seq::empty(),
    }) + " = "@ + f_expr(f.body, l, ind) + "\n"@
}

/// A sequence block at level `l`.
pub open spec fn f_sequence(s: Sequence, l: usize, ind: Seq<char>) -> Seq<char> {
    repeat(ind, l as nat) + "sequence"@ + (match s.name {
        Some(n) => " "@ + n.node@,
        None => Seq::empty(),
    }) + " {"@ + "\n"@ + f_elements(s.elements@, inc(l), ind) + repeat(ind, l as nat) + "}"@ + "\n"@
}

/// Sequences from index `i` on, with a blank line before each but the first
/// when the layout asks for it.
pub open spec fn f_sequences(s: Seq<Sequence>, i: int, l: usize, lay: Layout) -> Seq<char>
    decreases s.len() - i,
{
    if i >= s.len() || i < 0 {
        Seq::empty()
    } else {
        (if i > 0 && lay.blank_sequences { "\n"@ } else { Seq::empty() }) + f_sequence(s[i], l, lay.ind)
            + f_sequences(s, i + 1, l, lay)
    }
}

/// Lines each made of `prefix` and one text.
pub open spec fn lines_with(prefix: Seq<char>, texts: Seq<Seq<char>>) -> Seq<char>
    decreases texts.len(),
{
    if texts.len() == 0 {
        Seq::empty()
    } else {
        lines_with(prefix, texts.drop_last()) + prefix + texts.last() + "\n"@
    }
}

/// A segment block at level `l`.
pub open spec fn f_segment(s: Segment, l: usize, lay: Layout) -> Seq<char> {
    lines_with(repeat(lay.ind, l as nat) + "/// "@, s.docs@.map_values(|d: String| d@))
        + repeat(lay.ind, l as nat) + "segment "@ + s.name.node@ + ": "@ + segment_kind_word(s.kind) + " {"@ + "\n"@
        + f_sequences(s.sequences@, 0, inc(l), lay) + repeat(lay.ind, l as nat) + "}"@ + "\n"@
}

/// Segments from index `i` on, with a blank line before each but the first
/// when the layout asks for it.
pub open spec fn f_segments(s: Seq<Segment>, i: int, l: usize, lay: Layout) -> Seq<char>
    decreases s.len() - i,
{
    if i >= s.len() || i < 0 {
        Seq::empty()
    } else {
        (if i > 0 && lay.blank_segments { "\n"@ } else { Seq::empty() }) + f_segment(s[i], l, lay)
            + f_segments(s, i + 1, l, lay)
    }
}

/// The concatenation of texts.
pub open spec fn concat(texts: Seq<Seq<char>>) -> Seq<char>
    decreases texts.len(),
{
    if texts.len() == 0 { Seq::empty() } else { concat(texts.drop_last()) + texts.last() }
}

/// The text of a program whose `program` line is at level `l`.
pub open spec fn f_program(p: Program, l: usize, lay: Layout) -> Seq<char> {
    lines_with("/// "@, p.docs@.map_values(|d: String| d@))
        + "program "@ + p.name.node@ + " {"@ + "\n"@
        + concat(p.imports@.map_values(|i: Import| f_import(i, inc(l), lay.ind)))
        + (if p.imports@.len() > 0 && p.segments@.len() > 0 { "\n"@ } else { Seq::empty() })
        + concat(p.functions@.map_values(|f: FnDef| f_fn(f, inc(l), lay.ind) + "\n"@))
        + f_segments(p.segments@, 0, inc(l), lay)
        + "}"@ + "\n"@
}

/// The text of a program in the given layout, at the top level.
pub open spec fn formatted(p: Program, lay: Layout) -> Seq<char> {
    f_program(p, 0, lay)
}

/// Formatter for Anvomidav programs.
pub struct Formatter {
    options: FormatOptions,
    output: String,
    indent_level: usize,
}

impl Formatter {
    /// The text produced so far.
    pub closed spec fn out(&self) -> Seq<char> {
        self.output@
    }

    /// The current indentation level.
    pub closed spec fn level(&self) -> usize {
        self.indent_level
    }

    /// The layout the options give.
    pub closed spec fn lay(&self) -> Layout {
        layout_of(self.options)
    }

    /// The options.
    pub closed spec fn opts(&self) -> FormatOptions {
        self.options
    }

    /// Is `self` the same formatter as `other` but for the output?
    pub open spec fn keeps(&self, other: &Formatter) -> bool {
        &&& self.level() == other.level()
        &&& self.opts() == other.opts()
        &&& self.lay() == other.lay()
    }

    /// A new formatter with the default options.
    pub fn new() -> (f: Formatter)
        ensures
            f.out().len() == 0,
            f.level() == 0,
            f.lay().ind == "    "@,
            f.lay().blank_segments,
            !f.lay().blank_sequences,
            f.opts().max_width == 100,
    {
        Self::with_options(FormatOptions::default())
    }

    /// A new formatter with the given options.
    pub fn with_options(options: FormatOptions) -> (f: Formatter)
        ensures
            f.out().len() == 0,
            f.level() == 0,
            f.opts() == options,
            f.lay() == layout_of(options),
    {
        Formatter { options, output: String::new(), indent_level: 0 }
    }

    /// Format a program.
    pub fn format(&mut self, program: &Program) -> (r: String)
        ensures
            r@ == f_program(*program, old(self).level(), old(self).lay()),
            final(self).out() == r@,
            final(self).keeps(old(self)),
    {
        self.output = String::new();
        self.format_program(program);
        assert(self.output@ =~= f_program(*program, old(self).level(), old(self).lay()));
        self.output.clone()
    }

    fn indent(&mut self)
        ensures
            final(self).out() == old(self).out() + repeat(old(self).lay().ind, old(self).level() as nat),
            final(self).keeps(old(self)),
    {
        let mut i: usize = 0;
        assert(old(self).output@ + repeat(self.options.indent@, 0) =~= old(self).output@);
        while i < self.indent_level
            invariant
                i <= self.indent_level,
                self.indent_level == old(self).indent_level,
                self.options == old(self).options,
                self.output@ == old(self).output@ + repeat(self.options.indent@, i as nat),
            decreases self.indent_level - i,
        {
            push_str(&mut self.output, self.options.indent.as_str());
            assert(self.output@ =~= old(self).output@ + repeat(self.options.indent@, (i + 1) as nat));
            i = i + 1;
        }
    }

    fn newline(&mut self)
        ensures
            final(self).out() == old(self).out() + "\n"@,
            final(self).keeps(old(self)),
    {
        push_char(&mut self.output, '\n');
        proof { reveal_strlit("\n"); }
        assert(self.output@ =~= old(self).output@ + "\n"@);
    }

    fn push(&mut self, s: &str)
        ensures
            final(self).out() == old(self).out() + s@,
            final(self).keeps(old(self)),
    {
        push_str(&mut self.output, s);
    }

    fn enter(&mut self)
        ensures
            final(self).out() == old(self).out(),
            final(self).level() == inc(old(self).level()),
            final(self).opts() == old(self).opts(),
            final(self).lay() == old(self).lay(),
    {
        self.indent_level = if self.indent_level == usize::MAX { 0 } else { self.indent_level + 1 };
    }

    proof fn lemma_inc_injective(a: usize, b: usize)
        ensures
            inc(a) == inc(b) ==> a == b,
    {
    }

    fn dedent(&mut self)
        ensures
            final(self).out() == old(self).out(),
            inc(final(self).level()) == old(self).level(),
            final(self).opts() == old(self).opts(),
            final(self).lay() == old(self).lay(),
    {
        self.indent_level = if self.indent_level == 0 { usize::MAX } else { self.indent_level - 1 };
    }

    fn format_rotations(&mut self, rot: &Rotations)
        ensures
            final(self).out() == old(self).out() + rotations_word(*rot),
            final(self).keeps(old(self)),
    {
        let s = match rot {
            Rotations::Single => "single",
            Rotations::Double => "double",
            Rotations::Triple => "triple",
            Rotations::Quad => "quad",
        };
        self.push(s);
    }

    fn format_jump_kind(&mut self, kind: &JumpKind)
        ensures
            final(self).out() == old(self).out() + jump_word(*kind),
            final(self).keeps(old(self)),
    {
        let s = match kind {
            JumpKind::Axel => "axel",
            JumpKind::Lutz => "lutz",
            JumpKind::Flip => "flip",
            JumpKind::Loop => "loop",
            JumpKind::Salchow => "salchow",
            JumpKind::ToeLoop => "toe_loop",
            JumpKind::Euler => "euler",
        };
        self.push(s);
    }

    fn format_spin_position(&mut self, pos: &SpinPosition)
        ensures
            final(self).out() == old(self).out() + spin_position_word(*pos),
            final(self).keeps(old(self)),
    {
        let s = match pos {
            SpinPosition::Upright => "upright",
            SpinPosition::Sit => "sit",
            SpinPosition::Camel => "camel",
            SpinPosition::Layback => "layback",
            SpinPosition::Biellmann => "biellmann",
        };
        self.push(s);
    }

    fn format_step_pattern(&mut self, pattern: &StepPattern)
        ensures
            final(self).out() == old(self).out() + step_pattern_word(*pattern),
            final(self).keeps(old(self)),
    {
        let s = match pattern {
            StepPattern::Straight => "straight",
            StepPattern::Circular => "circular",
            StepPattern::Serpentine => "serpentine",
            StepPattern::Diagonal => "diagonal",
            StepPattern::Midline => "midline",
        };
        self.push(s);
    }

    fn format_lift_group(&mut self, group: &LiftGroup)
        ensures
            final(self).out() == old(self).out() + lift_group_word(*group),
            final(self).keeps(old(self)),
    {
        let s = match group {
            LiftGroup::Group1 => "Gr1",
            LiftGroup::Group2 => "Gr2",
            LiftGroup::Group3 => "Gr3",
            LiftGroup::Group4 => "Gr4",
            LiftGroup::Group5 => "Gr5",
        };
        self.push(s);
    }

    fn format_edge(&mut self, edge: &Edge)
        ensures
            final(self).out() == old(self).out() + edge_word(*edge),
            final(self).keeps(old(self)),
    {
        let s = match edge {
            Edge::LFO => "LFO",
            Edge::LFI => "LFI",
            Edge::LBO => "LBO",
            Edge::LBI => "LBI",
            Edge::RFO => "RFO",
            Edge::RFI => "RFI",
            Edge::RBO => "RBO",
            Edge::RBI => "RBI",
        };
        self.push(s);
    }

    fn format_choreo_kind(&mut self, kind: &ChoreographicKind)
        ensures
            final(self).out() == old(self).out() + choreo_word(*kind),
            final(self).keeps(old(self)),
    {
        let s = match kind {
            ChoreographicKind::Spiral => "spiral",
            ChoreographicKind::Spread => "spread",
            ChoreographicKind::Ina => "ina",
            ChoreographicKind::Hydroblading => "hydroblading",
            ChoreographicKind::Pivot => "pivot",
            ChoreographicKind::Choreographic => "choreographic",
        };
        self.push(s);
    }

    fn format_level(&mut self, level: &Level)
        ensures
            final(self).out() == old(self).out() + level_word(*level),
            final(self).keeps(old(self)),
    {
        let s = match level {
            Level::B => "B",
            Level::L1 => "L1",
            Level::L2 => "L2",
            Level::L3 => "L3",
            Level::L4 => "L4",
        };
        self.push(s);
    }

    fn format_opt_level(&mut self, level: &Option<Level>)
        ensures
            final(self).out() == old(self).out() + opt_level(*level),
            final(self).keeps(old(self)),
    {
        match level {
            Some(l) => {
                self.push(" ");
                self.format_level(l);
            },
            None => {},
        }
        assert(self.out() =~= old(self).out() + opt_level(*level));
    }

    fn format_segment_kind(&mut self, kind: &SegmentKind)
        ensures
            final(self).out() == old(self).out() + segment_kind_word(*kind),
            final(self).keeps(old(self)),
    {
        let s = match kind {
            SegmentKind::Short => "short",
            SegmentKind::Free => "free",
            SegmentKind::Pattern => "pattern",
            SegmentKind::Rhythm => "rhythm",
            SegmentKind::Exhibition => "exhibition",
        };
        self.push(s);
    }

    fn format_binop(&mut self, op: &BinOp)
        ensures
            final(self).out() == old(self).out() + binop_symbol(*op),
            final(self).keeps(old(self)),
    {
        self.push(op.symbol());
    }

    fn format_time_expr(&mut self, time: &TimeExpr)
        ensures
            final(self).out() == old(self).out() + f_time(*time),
            final(self).keeps(old(self)),
        decreases time,
    {
        match time {
            TimeExpr::Literal(f) => self.push(f.text.as_str()),
            TimeExpr::Formatted(s) => self.push(s.as_str()),
            TimeExpr::Var(v) => self.push(v.node.as_str()),
            TimeExpr::BinOp(a, op, b) => {
                self.format_time_expr(a);
                let op_str = match op {
                    TimeBinOp::Add => " + ",
                    TimeBinOp::Sub => " - ",
                };
                self.push(op_str);
                self.format_time_expr(b);
            },
        }
        assert(self.out() =~= old(self).out() + f_time(*time));
    }

    fn format_position_expr(&mut self, pos: &PositionExpr)
        ensures
            final(self).out() == old(self).out() + f_position(*pos),
            final(self).keeps(old(self)),
        decreases pos,
    {
        match pos {
            PositionExpr::Literal(x, y) => {
                self.push("(");
                self.push(x.text.as_str());
                self.push(", ");
                self.push(y.text.as_str());
                self.push(")");
            },
            PositionExpr::Named(name) => self.push(name.as_str()),
            PositionExpr::Var(v) => self.push(v.node.as_str()),
            PositionExpr::Relative(base, dx, dy) => {
                self.format_position_expr(base);
                self.push(" + (");
                self.push(dx.text.as_str());
                self.push(", ");
                self.push(dy.text.as_str());
                self.push(")");
            },
        }
        assert(self.out() =~= old(self).out() + f_position(*pos));
    }

    fn format_timing(&mut self, timing: &Timing)
        ensures
            final(self).out() == old(self).out() + f_timing(*timing),
            final(self).keeps(old(self)),
    {
        match timing {
            Timing::At(time) => {
                self.push("at ");
                self.format_time_expr(time);
            },
            Timing::Range(start, end) => {
                self.format_time_expr(start);
                self.push("..");
                self.format_time_expr(end);
            },
            Timing::Duration(time) => {
                self.push("duration ");
                self.format_time_expr(time);
            },
            Timing::Beat(n) => {
                self.push("beat ");
                push_signed_decimal(&mut self.output, *n);
            },
            Timing::After(time) => {
                self.push("after ");
                self.format_time_expr(time);
            },
        }
        assert(self.out() =~= old(self).out() + f_timing(*timing));
    }

    fn format_pattern(&mut self, pattern: &crate::syntax::ast::Pattern)
        ensures
            final(self).out() == old(self).out() + "_"@,
            final(self).keeps(old(self)),
    {
        self.push("_");
    }

    fn format_transition(&mut self, trans: &TransitionElement)
        ensures
            final(self).out() == old(self).out() + "transition"@ + (match trans.description {
                Some(d) => " \""@ + d@ + "\""@,
                None => Seq::empty(),
            }),
            final(self).keeps(old(self)),
    {
        self.push("transition");
        match &trans.description {
            Some(desc) => {
                self.push(" \"");
                self.push(desc.as_str());
                self.push("\"");
            },
            None => {},
        }
        assert(self.out() =~= old(self).out() + "transition"@ + (match trans.description {
            Some(d) => " \""@ + d@ + "\""@,
            None => Seq::empty(),
        }));
    }

    fn format_pattern_element(&mut self, pattern: &PatternElement)
        ensures
            final(self).out() == old(self).out() + "pattern \""@ + pattern.name@ + "\""@,
            final(self).keeps(old(self)),
    {
        self.push("pattern \"");
        self.push(pattern.name.as_str());
        self.push("\"");
        assert(self.out() =~= old(self).out() + "pattern \""@ + pattern.name@ + "\""@);
    }

    fn format_type(&mut self, ty: &TypeExpr)
        ensures
            final(self).out() == old(self).out() + f_type(*ty, old(self).level(), old(self).lay().ind),
            final(self).keeps(old(self)),
        decreases ty, 0nat,
    {
        let ghost l = self.level();
        let ghost ind = self.lay().ind;
        match ty {
            TypeExpr::Named(name) => self.push(name.node.as_str()),
            TypeExpr::Array(inner) => {
                self.push("[");
                self.format_type(inner);
                self.push("]");
            },
            TypeExpr::Optional(inner) => {
                self.format_type(inner);
                self.push("?");
            },
            TypeExpr::Tuple(types) => {
                proof { assert(types@.subrange(0, types@.len() as int) =~= types@); }
                self.push("(");
                self.format_types_from(types, 0);
                self.push(")");
            },
            TypeExpr::App(base, args) => {
                proof { assert(args@.subrange(0, args@.len() as int) =~= args@); }
                self.format_type(base);
                self.push("<");
                self.format_types_from(args, 0);
                self.push(">");
            },
            TypeExpr::Fn(params, ret) => {
                proof { assert(params@.subrange(0, params@.len() as int) =~= params@); }
                self.push("fn(");
                self.format_types_from(params, 0);
                self.push(") -> ");
                self.format_type(ret);
            },
            TypeExpr::Refinement { base, var, predicate } => {
                self.push("{ ");
                self.push(var.node.as_str());
                self.push(": ");
                self.format_type(base);
                self.push(" | ");
                self.format_expr(predicate);
                self.push(" }");
            },
        }
        assert(self.out() =~= old(self).out() + f_type(*ty, l, ind));
    }

    fn format_types_from(&mut self, ts: &Vec<TypeExpr>, i: usize)
        requires
            i <= ts@.len(),
        ensures
            final(self).out() == old(self).out() + f_types(ts@.subrange(i as int, ts@.len() as int), old(self).level(), old(self).lay().ind),
            final(self).keeps(old(self)),
        decreases ts, ts@.len() - i,
    {
        let ghost l = self.level();
        let ghost ind = self.lay().ind;
        let ghost n = ts@.len() as int;
        if i == ts.len() {
            assert(old(self).out() + f_types(ts@.subrange(i as int, n), l, ind) =~= old(self).out());
            return;
        }
        proof {
            let t = ts@.subrange(i as int, n);
            assert(t[0] == ts@[i as int]);
            assert(t.subrange(1, t.len() as int) =~= ts@.subrange(i + 1, n));
        }
        self.format_type(&ts[i]);
        if i + 1 < ts.len() {
            self.push(", ");
        }
        self.format_types_from(ts, i + 1);
        proof {
            if i + 1 == n {
                assert(ts@.subrange(i + 1, n).len() == 0);
            }
        }
        assert(self.out() =~= old(self).out() + f_types(ts@.subrange(i as int, n), l, ind));
    }

    fn format_opt_type(&mut self, ty: &Option<TypeExpr>)
        ensures
            final(self).out() == old(self).out() + f_opt_type(*ty, old(self).level(), old(self).lay().ind),
            final(self).keeps(old(self)),
        decreases ty, 0nat,
    {
        match ty {
            Some(t) => {
                self.push(": ");
                self.format_type(t);
            },
            None => {},
        }
        assert(self.out() =~= old(self).out() + f_opt_type(*ty, old(self).level(), old(self).lay().ind));
    }

    #[verifier::rlimit(60)]
    #[verifier::spinoff_prover]
    fn format_expr(&mut self, expr: &Expr)
        ensures
            final(self).out() == old(self).out() + f_expr(*expr, old(self).level(), old(self).lay().ind),
            final(self).keeps(old(self)),
        decreases expr, 0nat,
    {
        let ghost l = self.level();
        let ghost ind = self.lay().ind;
        match expr {
            Expr::Int(n) => push_signed_decimal(&mut self.output, *n),
            Expr::Float(f) => self.push(f.text.as_str()),
            Expr::String(s) => {
                self.push("\"");
                self.push(s.as_str());
                self.push("\"");
            },
            Expr::Bool(b) => self.push(if *b { "true" } else { "false" }),
            Expr::Time(time) => self.format_time_expr(time),
            Expr::Position(pos) => self.format_position_expr(pos),
            Expr::Var(v) => self.push(v.node.as_str()),
            Expr::BinOp(left, op, right) => {
                self.format_expr(&left.node);
                self.push(" ");
                self.format_binop(op);
                self.push(" ");
                self.format_expr(&right.node);
            },
            Expr::UnaryOp(op, e) => {
                match op {
                    UnaryOp::Neg => self.push("-"),
                    UnaryOp::Not => self.push("!"),
                }
                self.format_expr(&e.node);
            },
            Expr::Tuple(exprs) => {
                proof { assert(exprs@.subrange(0, exprs@.len() as int) =~= exprs@); }
                self.push("(");
                self.format_exprs_from(exprs, 0);
                self.push(")");
            },
            Expr::Array(exprs) => {
                proof { assert(exprs@.subrange(0, exprs@.len() as int) =~= exprs@); }
                self.push("[");
                self.format_exprs_from(exprs, 0);
                self.push("]");
            },
            Expr::Block(stmts) => {
                proof { assert(stmts@.subrange(0, stmts@.len() as int) =~= stmts@); }
                self.push("{ ");
                self.format_block_from(stmts, 0);
                self.push(" }");
            },
            Expr::If(cond, then_branch, else_branch) => {
                self.push("if ");
                self.format_expr(&cond.node);
                self.push(" then ");
                self.format_expr(&then_branch.node);
                match else_branch {
                    Some(e) => {
                        self.push(" else ");
                        self.format_expr(&e.node);
                    },
                    None => {},
                }
            },
            Expr::Let(name, ty, value, body) => {
                self.push("let ");
                self.push(name.node.as_str());
                self.format_opt_type(ty);
                self.push(" = ");
                self.format_expr(&value.node);
                self.push(" in ");
                self.format_expr(&body.node);
            },
            Expr::Call(func, args) => {
                proof { assert(args@.subrange(0, args@.len() as int) =~= args@); }
                self.format_expr(&func.node);
                self.push("(");
                self.format_exprs_from(args, 0);
                self.push(")");
            },
            Expr::Field(e, field) => {
                self.format_expr(&e.node);
                self.push(".");
                self.push(field.node.as_str());
            },
            Expr::Index(e, idx) => {
                self.format_expr(&e.node);
                self.push("[");
                self.format_expr(&idx.node);
                self.push("]");
            },
            Expr::Match(e, arms) => {
                proof { assert(arms@.subrange(0, arms@.len() as int) =~= arms@); }
                self.push("match ");
                self.format_expr(&e.node);
                self.push(" { ");
                self.format_arms_from(arms, 0);
                self.push(" }");
            },
            Expr::Lambda(params, body) => {
                proof { assert(params@.subrange(0, params@.len() as int) =~= params@); }
                self.push("|");
                self.format_params_from(params, 0);
                self.push("| ");
                self.format_expr(&body.node);
            },
            Expr::Record(fields) => {
                proof { assert(fields@.subrange(0, fields@.len() as int) =~= fields@); }
                self.push("{ ");
                self.format_record_from(fields, 0);
                self.push(" }");
            },
            Expr::Element(elem) => self.format_element(elem),
        }
        assert(self.out() =~= old(self).out() + f_expr(*expr, l, ind));
    }

    fn format_exprs_from(&mut self, es: &Vec<Spanned<Expr>>, i: usize)
        requires
            i <= es@.len(),
        ensures
            final(self).out() == old(self).out() + f_exprs(es@.subrange(i as int, es@.len() as int), old(self).level(), old(self).lay().ind),
            final(self).keeps(old(self)),
        decreases es, es@.len() - i,
    {
        let ghost l = self.level();
        let ghost ind = self.lay().ind;
        let ghost n = es@.len() as int;
        if i == es.len() {
            assert(old(self).out() + f_exprs(es@.subrange(i as int, n), l, ind) =~= old(self).out());
            return;
        }
        proof {
            let t = es@.subrange(i as int, n);
            assert(t[0] == es@[i as int]);
            assert(t.subrange(1, t.len() as int) =~= es@.subrange(i + 1, n));
        }
        self.format_expr(&es[i].node);
        if i + 1 < es.len() {
            self.push(", ");
        }
        self.format_exprs_from(es, i + 1);
        proof {
            if i + 1 == n {
                assert(es@.subrange(i + 1, n).len() == 0);
            }
        }
        assert(self.out() =~= old(self).out() + f_exprs(es@.subrange(i as int, n), l, ind));
    }

    fn format_block_from(&mut self, ss: &Vec<Spanned<Stmt>>, i: usize)
        requires
            i <= ss@.len(),
        ensures
            final(self).out() == old(self).out() + f_block(ss@.subrange(i as int, ss@.len() as int), old(self).level(), old(self).lay().ind),
            final(self).keeps(old(self)),
        decreases ss, ss@.len() - i,
    {
        let ghost l = self.level();
        let ghost ind = self.lay().ind;
        let ghost n = ss@.len() as int;
        if i == ss.len() {
            assert(old(self).out() + f_block(ss@.subrange(i as int, n), l, ind) =~= old(self).out());
            return;
        }
        proof {
            let t = ss@.subrange(i as int, n);
            assert(t[0] == ss@[i as int]);
            assert(t.subrange(1, t.len() as int) =~= ss@.subrange(i + 1, n));
        }
        self.format_stmt(&ss[i].node);
        if i + 1 < ss.len() {
            self.push("; ");
        }
        self.format_block_from(ss, i + 1);
        proof {
            if i + 1 == n {
                assert(ss@.subrange(i + 1, n).len() == 0);
            }
        }
        assert(self.out() =~= old(self).out() + f_block(ss@.subrange(i as int, n), l, ind));
    }

    fn format_body_from(&mut self, ss: &Vec<Spanned<Stmt>>, i: usize)
        requires
            i <= ss@.len(),
        ensures
            final(self).out() == old(self).out() + f_body(ss@.subrange(i as int, ss@.len() as int), old(self).level(), old(self).lay().ind),
            final(self).keeps(old(self)),
        decreases ss, ss@.len() - i,
    {
        let ghost l = self.level();
        let ghost ind = self.lay().ind;
        let ghost n = ss@.len() as int;
        if i == ss.len() {
            assert(old(self).out() + f_body(ss@.subrange(i as int, n), l, ind) =~= old(self).out());
            return;
        }
        proof {
            let t = ss@.subrange(i as int, n);
            assert(t[0] == ss@[i as int]);
            assert(t.subrange(1, t.len() as int) =~= ss@.subrange(i + 1, n));
        }
        self.format_stmt(&ss[i].node);
        self.push("; ");
        self.format_body_from(ss, i + 1);
        assert(self.out() =~= old(self).out() + f_body(ss@.subrange(i as int, n), l, ind));
    }

    fn format_arms_from(&mut self, arms: &Vec<MatchArm>, i: usize)
        requires
            i <= arms@.len(),
        ensures
            final(self).out() == old(self).out() + f_arms(arms@.subrange(i as int, arms@.len() as int), old(self).level(), old(self).lay().ind),
            final(self).keeps(old(self)),
        decreases arms, arms@.len() - i,
    {
        let ghost l = self.level();
        let ghost ind = self.lay().ind;
        let ghost n = arms@.len() as int;
        if i == arms.len() {
            assert(old(self).out() + f_arms(arms@.subrange(i as int, n), l, ind) =~= old(self).out());
            return;
        }
        proof {
            let t = arms@.subrange(i as int, n);
            assert(t[0] == arms@[i as int]);
            assert(t.subrange(1, t.len() as int) =~= arms@.subrange(i + 1, n));
        }
        self.format_pattern(&arms[i].pattern);
        self.push(" => ");
        self.format_expr(&arms[i].body.node);
        if i + 1 < arms.len() {
            self.push(", ");
        }
        self.format_arms_from(arms, i + 1);
        proof {
            if i + 1 == n {
                assert(arms@.subrange(i + 1, n).len() == 0);
            }
        }
        assert(self.out() =~= old(self).out() + f_arms(arms@.subrange(i as int, n), l, ind));
    }

    fn format_params_from(&mut self, ps: &Vec<Param>, i: usize)
        requires
            i <= ps@.len(),
        ensures
            final(self).out() == old(self).out() + f_params(ps@.subrange(i as int, ps@.len() as int), old(self).level(), old(self).lay().ind),
            final(self).keeps(old(self)),
        decreases ps, ps@.len() - i,
    {
        let ghost l = self.level();
        let ghost ind = self.lay().ind;
        let ghost n = ps@.len() as int;
        if i == ps.len() {
            assert(old(self).out() + f_params(ps@.subrange(i as int, n), l, ind) =~= old(self).out());
            return;
        }
        proof {
            let t = ps@.subrange(i as int, n);
            assert(t[0] == ps@[i as int]);
            assert(t.subrange(1, t.len() as int) =~= ps@.subrange(i + 1, n));
        }
        self.push(ps[i].name.node.as_str());
        self.format_opt_type(&ps[i].ty);
        if i + 1 < ps.len() {
            self.push(", ");
        }
        self.format_params_from(ps, i + 1);
        proof {
            if i + 1 == n {
                assert(ps@.subrange(i + 1, n).len() == 0);
            }
        }
        assert(self.out() =~= old(self).out() + f_params(ps@.subrange(i as int, n), l, ind));
    }

    fn format_record_from(&mut self, fs: &Vec<(Ident, Spanned<Expr>)>, i: usize)
        requires
            i <= fs@.len(),
        ensures
            final(self).out() == old(self).out() + f_record(fs@.subrange(i as int, fs@.len() as int), old(self).level(), old(self).lay().ind),
            final(self).keeps(old(self)),
        decreases fs, fs@.len() - i,
    {
        let ghost l = self.level();
        let ghost ind = self.lay().ind;
        let ghost n = fs@.len() as int;
        if i == fs.len() {
            assert(old(self).out() + f_record(fs@.subrange(i as int, n), l, ind) =~= old(self).out());
            return;
        }
        proof {
            let t = fs@.subrange(i as int, n);
            assert(t[0] == fs@[i as int]);
            assert(t.subrange(1, t.len() as int) =~= fs@.subrange(i + 1, n));
        }
        self.push(fs[i].0.node.as_str());
        self.push(": ");
        self.format_expr(&fs[i].1.node);
        if i + 1 < fs.len() {
            self.push(", ");
        }
        self.format_record_from(fs, i + 1);
        proof {
            if i + 1 == n {
                assert(fs@.subrange(i + 1, n).len() == 0);
            }
        }
        assert(self.out() =~= old(self).out() + f_record(fs@.subrange(i as int, n), l, ind));
    }

    fn format_stmt(&mut self, stmt: &Stmt)
        ensures
            final(self).out() == old(self).out() + f_stmt(*stmt, old(self).level(), old(self).lay().ind),
            final(self).keeps(old(self)),
        decreases stmt, 0nat,
    {
        let ghost l = self.level();
        let ghost ind = self.lay().ind;
        match stmt {
            Stmt::Expr(e) => self.format_expr(e),
            Stmt::Let(name, ty, value) => {
                self.push("let ");
                self.push(name.node.as_str());
                self.format_opt_type(ty);
                self.push(" = ");
                self.format_expr(value);
            },
            Stmt::Assign(target, value) => {
                self.format_expr(&target.node);
                self.push(" = ");
                self.format_expr(value);
            },
            Stmt::Return(expr) => {
                self.push("return");
                match expr {
                    Some(e) => {
                        self.push(" ");
                        self.format_expr(e);
                    },
                    None => {},
                }
            },
            Stmt::For(name, iter, body) => {
                proof { assert(body@.subrange(0, body@.len() as int) =~= body@); }
                self.push("for ");
                self.push(name.node.as_str());
                self.push(" in ");
                self.format_expr(iter);
                self.push(" { ");
                self.format_body_from(body, 0);
                self.push("}");
            },
            Stmt::While(cond, body) => {
                proof { assert(body@.subrange(0, body@.len() as int) =~= body@); }
                self.push("while ");
                self.format_expr(cond);
                self.push(" { ");
                self.format_body_from(body, 0);
                self.push("}");
            },
        }
        assert(self.out() =~= old(self).out() + f_stmt(*stmt, l, ind));
    }

    fn format_spin_positions_from(&mut self, ps: &Vec<SpinPositionDef>, i: usize)
        requires
            i <= ps@.len(),
        ensures
            final(self).out() == old(self).out() + f_spin_positions(ps@.subrange(i as int, ps@.len() as int)),
            final(self).keeps(old(self)),
        decreases ps@.len() - i,
    {
        let ghost n = ps@.len() as int;
        if i == ps.len() {
            assert(old(self).out() + f_spin_positions(ps@.subrange(i as int, n)) =~= old(self).out());
            return;
        }
        proof {
            let t = ps@.subrange(i as int, n);
            assert(t[0] == ps@[i as int]);
            assert(t.subrange(1, t.len() as int) =~= ps@.subrange(i + 1, n));
        }
        self.format_spin_position(&ps[i].position);
        if i + 1 < ps.len() {
            self.push(" ");
        }
        self.format_spin_positions_from(ps, i + 1);
        proof {
            if i + 1 == n {
                assert(ps@.subrange(i + 1, n).len() == 0);
            }
        }
        assert(self.out() =~= old(self).out() + f_spin_positions(ps@.subrange(i as int, n)));
    }

    #[verifier::rlimit(60)]
    #[verifier::spinoff_prover]
    fn format_element_kind(&mut self, kind: &ElementKind)
        ensures
            final(self).out() == old(self).out() + f_kind(*kind, old(self).level(), old(self).lay().ind),
            final(self).keeps(old(self)),
        decreases kind, 0nat,
    {
        let ghost l = self.level();
        let ghost ind = self.lay().ind;
        match kind {
            ElementKind::Jump(jump) => {
                self.push("jump ");
                self.format_rotations(&jump.rotations);
                self.push(" ");
                self.format_jump_kind(&jump.kind);
            },
            ElementKind::Spin(spin) => {
                proof { assert(spin.positions@.subrange(0, spin.positions@.len() as int) =~= spin.positions@); }
                self.push("spin ");
                self.format_spin_positions_from(&spin.positions, 0);
                self.format_opt_level(&spin.level);
            },
            ElementKind::StepSequence(step) => {
                self.push("step ");
                self.format_step_pattern(&step.pattern);
                self.format_opt_level(&step.level);
            },
            ElementKind::Lift(lift) => {
                self.push("lift ");
                self.format_lift_group(&lift.group);
                self.format_opt_level(&lift.level);
            },
            ElementKind::Throw(throw) => {
                self.push("throw ");
                self.format_rotations(&throw.rotations);
                self.push(" ");
                self.format_jump_kind(&throw.kind);
            },
            ElementKind::Twist(twist) => {
                self.push("twist ");
                self.format_rotations(&twist.rotations);
                self.format_opt_level(&twist.level);
            },
            ElementKind::DeathSpiral(ds) => {
                self.push("death_spiral ");
                self.format_edge(&ds.edge);
                self.format_opt_level(&ds.level);
            },
            ElementKind::Choreographic(choreo) => {
                self.push("choreographic ");
                self.format_choreo_kind(&choreo.kind);
            },
            ElementKind::Transition(trans) => self.format_transition(trans),
            ElementKind::Pattern(pattern) => self.format_pattern_element(pattern),
            ElementKind::Parallel(parallel) => self.format_parallel(parallel),
            ElementKind::Sync(sync) => self.format_sync(sync),
        }
        assert(self.out() =~= old(self).out() + f_kind(*kind, l, ind));
    }

    fn format_element(&mut self, element: &Element)
        ensures
            final(self).out() == old(self).out() + f_element(*element, old(self).level(), old(self).lay().ind),
            final(self).keeps(old(self)),
        decreases element, 0nat,
    {
        let ghost l = self.level();
        let ghost ind = self.lay().ind;
        self.indent();
        self.format_element_kind(&element.kind);
        match &element.timing {
            Some(timing) => {
                self.push(" ");
                self.format_timing(timing);
            },
            None => {},
        }
        self.newline();
        assert(self.out() =~= old(self).out() + f_element(*element, l, ind));
    }

    fn format_elements_from(&mut self, es: &Vec<Element>, i: usize)
        requires
            i <= es@.len(),
        ensures
            final(self).out() == old(self).out() + f_elements(es@.subrange(i as int, es@.len() as int), old(self).level(), old(self).lay().ind),
            final(self).keeps(old(self)),
        decreases es, es@.len() - i,
    {
        let ghost l = self.level();
        let ghost ind = self.lay().ind;
        let ghost n = es@.len() as int;
        if i == es.len() {
            assert(old(self).out() + f_elements(es@.subrange(i as int, n), l, ind) =~= old(self).out());
            return;
        }
        proof {
            let t = es@.subrange(i as int, n);
            assert(t[0] == es@[i as int]);
            assert(t.subrange(1, t.len() as int) =~= es@.subrange(i + 1, n));
        }
        self.format_element(&es[i]);
        self.format_elements_from(es, i + 1);
        assert(self.out() =~= old(self).out() + f_elements(es@.subrange(i as int, n), l, ind));
    }

    fn format_parallel(&mut self, parallel: &ParallelElement)
        ensures
            final(self).out() == old(self).out() + "parallel {"@ + "\n"@
                + f_branches(parallel.branches@, inc(old(self).level()), old(self).lay().ind)
                + repeat(old(self).lay().ind, old(self).level() as nat) + "}"@,
            final(self).keeps(old(self)),
        decreases parallel, 0nat,
    {
        let ghost l = self.level();
        let ghost ind = self.lay().ind;
        proof { assert(parallel.branches@.subrange(0, parallel.branches@.len() as int) =~= parallel.branches@); }
        self.push("parallel {");
        self.newline();
        self.enter();
        self.format_branches_from(&parallel.branches, 0);
        self.dedent();
        proof { Self::lemma_inc_injective(self.level(), l); }
        self.indent();
        self.push("}");
        assert(self.out() =~= old(self).out() + "parallel {"@ + "\n"@ + f_branches(parallel.branches@, inc(l), ind)
            + repeat(ind, l as nat) + "}"@);
    }

    fn format_branches_from(&mut self, bs: &Vec<(Ident, Vec<Element>)>, i: usize)
        requires
            i <= bs@.len(),
        ensures
            final(self).out() == old(self).out() + f_branches(bs@.subrange(i as int, bs@.len() as int), old(self).level(), old(self).lay().ind),
            final(self).keeps(old(self)),
        decreases bs, bs@.len() - i,
    {
        let ghost l = self.level();
        let ghost ind = self.lay().ind;
        let ghost n = bs@.len() as int;
        if i == bs.len() {
            assert(old(self).out() + f_branches(bs@.subrange(i as int, n), l, ind) =~= old(self).out());
            return;
        }
        proof {
            let t = bs@.subrange(i as int, n);
            assert(t[0] == bs@[i as int]);
            assert(t.subrange(1, t.len() as int) =~= bs@.subrange(i + 1, n));
            assert(bs@[i as int].1@.subrange(0, bs@[i as int].1@.len() as int) =~= bs@[i as int].1@);
        }
        self.indent();
        self.push(bs[i].0.node.as_str());
        self.push(": {");
        self.newline();
        self.enter();
        self.format_elements_from(&bs[i].1, 0);
        self.dedent();
        proof { Self::lemma_inc_injective(self.level(), l); }
        self.indent();
        self.push("}");
        self.newline();
        self.format_branches_from(bs, i + 1);
        assert(self.out() =~= old(self).out() + f_branches(bs@.subrange(i as int, n), l, ind));
    }

    fn format_sync(&mut self, sync: &SyncElement)
        ensures
            final(self).out() == old(self).out() + "sync {"@ + "\n"@
                + f_elements(sync.elements@, inc(old(self).level()), old(self).lay().ind)
                + repeat(old(self).lay().ind, old(self).level() as nat) + "}"@,
            final(self).keeps(old(self)),
        decreases sync, 0nat,
    {
        let ghost l = self.level();
        let ghost ind = self.lay().ind;
        proof { assert(sync.elements@.subrange(0, sync.elements@.len() as int) =~= sync.elements@); }
        self.push("sync {");
        self.newline();
        self.enter();
        self.format_elements_from(&sync.elements, 0);
        self.dedent();
        proof { Self::lemma_inc_injective(self.level(), l); }
        self.indent();
        self.push("}");
        assert(self.out() =~= old(self).out() + "sync {"@ + "\n"@ + f_elements(sync.elements@, inc(l), ind)
            + repeat(ind, l as nat) + "}"@);
    }

    fn format_path_from(&mut self, path: &Vec<Ident>, i: usize)
        requires
            i <= path@.len(),
        ensures
            final(self).out() == old(self).out() + join(path@.subrange(i as int, path@.len() as int).map_values(|p: Ident| p.node@), "::"@),
            final(self).keeps(old(self)),
        decreases path@.len() - i,
    {
        let ghost n = path@.len() as int;
        let ghost parts = path@.subrange(i as int, n).map_values(|p: Ident| p.node@);
        if i == path.len() {
            assert(old(self).out() + join(parts, "::"@) =~= old(self).out());
            return;
        }
        proof {
            let rest = path@.subrange(i + 1, n).map_values(|p: Ident| p.node@);
            assert(parts[0] == path@[i as int].node@);
            assert(parts.subrange(1, parts.len() as int) =~= rest);
        }
        self.push(path[i].node.as_str());
        if i + 1 < path.len() {
            self.push("::");
        }
        self.format_path_from(path, i + 1);
        proof {
            if i + 1 == n {
                assert(path@.subrange(i + 1, n).map_values(|p: Ident| p.node@).len() == 0);
            }
        }
        assert(self.out() =~= old(self).out() + join(parts, "::"@));
    }

    fn format_import(&mut self, import: &Import)
        ensures
            final(self).out() == old(self).out() + f_import(*import, old(self).level(), old(self).lay().ind),
            final(self).keeps(old(self)),
    {
        let ghost l = self.level();
        let ghost ind = self.lay().ind;
        proof { assert(import.path@.subrange(0, import.path@.len() as int) =~= import.path@); }
        self.indent();
        self.push("import ");
        self.format_path_from(&import.path, 0);
        match &import.alias {
            Some(alias) => {
                self.push(" as ");
                self.push(alias.node.as_str());
            },
            None => {},
        }
        self.newline();
        assert(self.out() =~= old(self).out() + f_import(*import, l, ind));
    }

    fn format_fn_def(&mut self, func: &FnDef)
        ensures
            final(self).out() == old(self).out() + f_fn(*func, old(self).level(), old(self).lay().ind),
            final(self).keeps(old(self)),
    {
        let ghost l = self.level();
        let ghost ind = self.lay().ind;
        proof { assert(func.params@.subrange(0, func.params@.len() as int) =~= func.params@); }
        self.indent();
        self.push("fn ");
        self.push(func.name.node.as_str());
        self.push("(");
        self.format_params_from(&func.params, 0);
        self.push(")");
        match &func.return_ty {
            Some(ret) => {
                self.push(" -> ");
                self.format_type(ret);
            },
            None => {},
        }
        self.push(" = ");
        self.format_expr(&func.body);
        self.newline();
        assert(self.out() =~= old(self).out() + f_fn(*func, l, ind));
    }

    fn format_sequence(&mut self, seq: &Sequence)
        ensures
            final(self).out() == old(self).out() + f_sequence(*seq, old(self).level(), old(self).lay().ind),
            final(self).keeps(old(self)),
    {
        let ghost l = self.level();
        let ghost ind = self.lay().ind;
        proof { assert(seq.elements@.subrange(0, seq.elements@.len() as int) =~= seq.elements@); }
        self.indent();
        self.push("sequence");
        match &seq.name {
            Some(name) => {
                self.push(" ");
                self.push(name.node.as_str());
            },
            None => {},
        }
        self.push(" {");
        self.newline();
        self.enter();
        self.format_elements_from(&seq.elements, 0);
        self.dedent();
        proof { Self::lemma_inc_injective(self.level(), l); }
        self.indent();
        self.push("}");
        self.newline();
        assert(self.out() =~= old(self).out() + f_sequence(*seq, l, ind));
    }

    fn format_sequences_from(&mut self, seqs: &Vec<Sequence>, i: usize)
        requires
            i <= seqs@.len(),
        ensures
            final(self).out() == old(self).out() + f_sequences(seqs@, i as int, old(self).level(), old(self).lay()),
            final(self).keeps(old(self)),
        decreases seqs@.len() - i,
    {
        let ghost l = self.level();
        let ghost lay = self.lay();
        if i == seqs.len() {
            assert(old(self).out() + f_sequences(seqs@, i as int, l, lay) =~= old(self).out());
            return;
        }
        if i > 0 && self.options.blank_between_sequences {
            self.newline();
        }
        self.format_sequence(&seqs[i]);
        self.format_sequences_from(seqs, i + 1);
        assert(self.out() =~= old(self).out() + f_sequences(seqs@, i as int, l, lay));
    }

    fn format_docs(&mut self, docs: &Vec<String>, with_indent: bool)
        ensures
            final(self).out() == old(self).out() + lines_with(
                (if with_indent { repeat(old(self).lay().ind, old(self).level() as nat) } else { Seq::empty() }) + "/// "@,
                docs@.map_values(|d: String| d@),
            ),
            final(self).keeps(old(self)),
    {
        let ghost prefix = (if with_indent { repeat(self.lay().ind, self.level() as nat) } else { Seq::<char>::empty() }) + "/// "@;
        let ghost texts = docs@.map_values(|d: String| d@);
        let mut i: usize = 0;
        assert(texts.take(0) =~= Seq::<Seq<char>>::empty());
        assert(old(self).out() + lines_with(prefix, texts.take(0)) =~= old(self).out());
        while i < docs.len()
            invariant
                i <= docs@.len(),
                texts == docs@.map_values(|d: String| d@),
                prefix == (if with_indent { repeat(old(self).lay().ind, old(self).level() as nat) } else { Seq::<char>::empty() }) + "/// "@,
                self.keeps(old(self)),
                self.out() == old(self).out() + lines_with(prefix, texts.take(i as int)),
            decreases docs@.len() - i,
        {
            if with_indent {
                self.indent();
            }
            self.push("/// ");
            self.push(docs[i].as_str());
            self.newline();
            proof {
                let t = texts.take(i + 1);
                assert(t.drop_last() =~= texts.take(i as int));
                assert(t.last() == docs@[i as int]@);
            }
            assert(self.out() =~= old(self).out() + lines_with(prefix, texts.take(i + 1)));
            i = i + 1;
        }
        assert(texts.take(i as int) =~= texts);
    }

    fn format_segment(&mut self, segment: &Segment)
        ensures
            final(self).out() == old(self).out() + f_segment(*segment, old(self).level(), old(self).lay()),
            final(self).keeps(old(self)),
    {
        let ghost l = self.level();
        let ghost lay = self.lay();
        self.format_docs(&segment.docs, true);
        self.indent();
        self.push("segment ");
        self.push(segment.name.node.as_str());
        self.push(": ");
        self.format_segment_kind(&segment.kind);
        self.push(" {");
        self.newline();
        self.enter();
        self.format_sequences_from(&segment.sequences, 0);
        self.dedent();
        proof { Self::lemma_inc_injective(self.level(), l); }
        self.indent();
        self.push("}");
        self.newline();
        assert(self.out() =~= old(self).out() + f_segment(*segment, l, lay));
    }

    fn format_segments_from(&mut self, segs: &Vec<Segment>, i: usize)
        requires
            i <= segs@.len(),
        ensures
            final(self).out() == old(self).out() + f_segments(segs@, i as int, old(self).level(), old(self).lay()),
            final(self).keeps(old(self)),
        decreases segs@.len() - i,
    {
        let ghost l = self.level();
        let ghost lay = self.lay();
        if i == segs.len() {
            assert(old(self).out() + f_segments(segs@, i as int, l, lay) =~= old(self).out());
            return;
        }
        if i > 0 && self.options.blank_between_segments {
            self.newline();
        }
        self.format_segment(&segs[i]);
        self.format_segments_from(segs, i + 1);
        assert(self.out() =~= old(self).out() + f_segments(segs@, i as int, l, lay));
    }

    fn format_imports(&mut self, imports: &Vec<Import>)
        ensures
            final(self).out() == old(self).out() + concat(imports@.map_values(|i: Import| f_import(i, old(self).level(), old(self).lay().ind))),
            final(self).keeps(old(self)),
    {
        let ghost l = self.level();
        let ghost lay = self.lay();
        let ghost mid = self.out();
        let ghost items = imports@.map_values(|i: Import| f_import(i, l, lay.ind));
        let mut i: usize = 0;
        assert(items.take(0) =~= Seq::<Seq<char>>::empty());
        assert(mid + concat(items.take(0)) =~= mid);
        while i < imports.len()
            invariant
                i <= imports@.len(),
                items == imports@.map_values(|i: Import| f_import(i, l, lay.ind)),
                self.keeps(old(self)),
                l == old(self).level(),
                lay == old(self).lay(),
                self.out() == mid + concat(items.take(i as int)),
            decreases imports@.len() - i,
        {
            self.format_import(&imports[i]);
            proof {
                let t = items.take(i + 1);
                assert(t.drop_last() =~= items.take(i as int));
            }
            assert(self.out() =~= mid + concat(items.take(i + 1)));
            i = i + 1;
        }
        assert(items.take(i as int) =~= items);
    }

    fn format_functions(&mut self, functions: &Vec<FnDef>)
        ensures
            final(self).out() == old(self).out() + concat(functions@.map_values(|f: FnDef| f_fn(f, old(self).level(), old(self).lay().ind) + "\n"@)),
            final(self).keeps(old(self)),
    {
        let ghost l = self.level();
        let ghost lay = self.lay();
        let ghost mid = self.out();
        let ghost items = functions@.map_values(|f: FnDef| f_fn(f, l, lay.ind) + "\n"@);
        let mut j: usize = 0;
        assert(items.take(0) =~= Seq::<Seq<char>>::empty());
        assert(mid + concat(items.take(0)) =~= mid);
        while j < functions.len()
            invariant
                j <= functions@.len(),
                items == functions@.map_values(|f: FnDef| f_fn(f, l, lay.ind) + "\n"@),
                self.keeps(old(self)),
                l == old(self).level(),
                lay == old(self).lay(),
                self.out() == mid + concat(items.take(j as int)),
            decreases functions@.len() - j,
        {
            self.format_fn_def(&functions[j]);
            self.newline();
            proof {
                let t = items.take(j + 1);
                assert(t.drop_last() =~= items.take(j as int));
            }
            assert(self.out() =~= mid + concat(items.take(j + 1)));
            j = j + 1;
        }
        assert(items.take(j as int) =~= items);
    }

    fn format_program(&mut self, program: &Program)
        ensures
            final(self).out() == old(self).out() + f_program(*program, old(self).level(), old(self).lay()),
            final(self).keeps(old(self)),
    {
        let ghost l = self.level();
        let ghost lay = self.lay();
        self.format_docs(&program.docs, false);
        assert(Seq::<char>::empty() + "/// "@ =~= "/// "@);
        self.push("program ");
        self.push(program.name.node.as_str());
        self.push(" {");
        self.newline();
        self.enter();
        self.format_imports(&program.imports);
        if program.imports.len() > 0 && program.segments.len() > 0 {
            self.newline();
        }
        self.format_functions(&program.functions);
        self.format_segments_from(&program.segments, 0);
        self.dedent();
        proof { Self::lemma_inc_injective(self.level(), l); }
        self.push("}");
        self.newline();
        assert(self.out() =~= old(self).out() + f_program(*program, l, lay));
    }
}


/// The default layout: four spaces of indentation, a blank line between
/// segments and none between sequences.
pub open spec fn default_layout() -> Layout {
    Layout { ind: "    "@, blank_segments: true, blank_sequences: false }
}

/// What formatting the bytes `b` in the layout `lay` may give: the text of
/// the program they parse to, or the errors that parsing gives.
pub open spec fn format_outcome(b: Seq<u8>, lay: Layout, r: Result<String, Vec<crate::syntax::parser::ParseError>>) -> bool {
    &&& (r is Ok <==> source_program(b, FileId(0)) is Some)
    &&& match r {
        Ok(t) => exists|p: Program| #![trigger progv(p)]
            parse_outcome(b, FileId(0), Ok(p)) && t@ == formatted(p, lay),
        Err(es) => parse_outcome(b, FileId(0), Err(es)),
    }
}

/// Formatting with options that hold the default values allows exactly the
/// results that `format` allows, on every source: the same parse errors, or
/// the text of the parsed program in the same layout.
pub proof fn law_format_default_options(b: Seq<u8>, o: FormatOptions, r: Result<String, Vec<crate::syntax::parser::ParseError>>)
    requires
        o.indent@ == "    "@,
        o.blank_between_segments,
        !o.blank_between_sequences,
    ensures
        format_outcome(b, layout_of(o), r) == format_outcome(b, default_layout(), r),
{
    assert(layout_of(o) == default_layout());
}

/// What `format` gives and what `format_with_options` gives with options
/// that hold the default values agree: both succeed, with the texts of
/// programs of one value in the same layout, or both fail, with the same
/// parse errors.
pub proof fn law_format_default_results(
    b: Seq<u8>,
    o: FormatOptions,
    r1: Result<String, Vec<crate::syntax::parser::ParseError>>,
    r2: Result<String, Vec<crate::syntax::parser::ParseError>>,
)
    requires
        o.indent@ == "    "@,
        o.blank_between_segments,
        !o.blank_between_sequences,
        format_outcome(b, default_layout(), r1),
        format_outcome(b, layout_of(o), r2),
    ensures
        r1 is Ok <==> r2 is Ok,
        match (r1, r2) {
            (Ok(t1), Ok(t2)) => exists|p1: Program, p2: Program| #![trigger progv(p1), progv(p2)]
                progv(p1) == progv(p2) && t1@ == formatted(p1, default_layout()) && t2@ == formatted(p2, default_layout()),
            (Err(e1), Err(e2)) => e1@.map_values(|e: crate::syntax::parser::ParseError| parse_error_view(e))
                == e2@.map_values(|e: crate::syntax::parser::ParseError| parse_error_view(e)),
            _ => true,
        },
{
    assert(layout_of(o) == default_layout());
    match (r1, r2) {
        (Ok(t1), Ok(t2)) => {
            let p1 = choose|p: Program| #![trigger progv(p)] parse_outcome(b, FileId(0), Ok(p)) && t1@ == formatted(p, default_layout());
            let p2 = choose|p: Program| #![trigger progv(p)] parse_outcome(b, FileId(0), Ok(p)) && t2@ == formatted(p, default_layout());
            law_parse_outcome_unique(b, FileId(0), Ok::<Program, Vec<crate::syntax::parser::ParseError>>(p1), Ok::<Program, Vec<crate::syntax::parser::ParseError>>(p2));
        },
        (Err(e1), Err(e2)) => {
            law_parse_outcome_unique(b, FileId(0), Err::<Program, Vec<crate::syntax::parser::ParseError>>(e1), Err::<Program, Vec<crate::syntax::parser::ParseError>>(e2));
        },
        _ => {},
    }
}

/// Format source code: parse it, then print the program in the default layout.
pub fn format(source: &str) -> (r: Result<String, Vec<crate::syntax::parser::ParseError>>)
    requires
        source.spec_bytes().len() <= isize::MAX,
    ensures
        format_outcome(source.spec_bytes(), default_layout(), r),
{
    match parse(source, FileId(0)) {
        Ok(program) => {
            let mut formatter = Formatter::new();
            let t = formatter.format(&program);
            proof { let _ = progv(program); }
            Ok(t)
        },
        Err(es) => Err(es),
    }
}

/// Format source code with custom options.
pub fn format_with_options(source: &str, options: FormatOptions) -> (r: Result<String, Vec<crate::syntax::parser::ParseError>>)
    requires
        source.spec_bytes().len() <= isize::MAX,
    ensures
        format_outcome(source.spec_bytes(), layout_of(options), r),
{
    match parse(source, FileId(0)) {
        Ok(program) => {
            let mut formatter = Formatter::with_options(options);
            let t = formatter.format(&program);
            proof { let _ = progv(program); }
            Ok(t)
        },
        Err(es) => Err(es),
    }
}

} // verus!
