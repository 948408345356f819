//! Abstract syntax tree of Anvomidav programs.
//!
//! Numbers written with a fractional part are kept as the text the source
//! wrote (see `FloatLit`), so the tree holds no floating-point values.

use vstd::prelude::*;
use crate::base::skating::{Curve, Edge, JumpKind, Level, LiftGroup, Rotations, SpinPosition};
use crate::base::source::Span;
use crate::base::text::string_of;

verus! {

/// A node with its source location.
#[derive(Debug, Clone, PartialEq, Eq)]
pub struct Spanned<T> {
    pub node: T,
    pub span: Span,
}

impl<T> Spanned<T> {
    /// A node with its span.
    pub fn new(node: T, span: Span) -> (r: Spanned<T>)
        ensures
            r.node == node,
            r.span == span,
    {
        Spanned { node, span }
    }

    /// Apply `f` to the node, keeping the span.
    pub fn map<U, F: FnOnce(T) -> U>(self, f: F) -> (r: Spanned<U>)
        requires
            f.requires((self.node,)),
        ensures
            f.ensures((self.node,), r.node),
            r.span == self.span,
    {
        Spanned { node: f(self.node), span: self.span }
    }
}

/// An identifier with its span.
pub type Ident = Spanned<String>;

/// A number with a fractional part, as written in the source (for example
/// `1.50` or `2.0e3`).
#[derive(Debug, Clone, PartialEq, Eq)]
pub struct FloatLit {
    pub text: String,
}

/// A program: the top-level compilation unit.
#[derive(Debug, PartialEq)]
pub struct Program {
    /// Program name.
    pub name: Ident,
    /// Documentation comments.
    pub docs: Vec<String>,
    /// Import declarations.
    pub imports: Vec<Import>,
    /// Type definitions.
    pub types: Vec<TypeDef>,
    /// Function definitions.
    pub functions: Vec<FnDef>,
    /// Segment definitions (the main content).
    pub segments: Vec<Segment>,
}

/// An import declaration.
#[derive(Debug, Clone, PartialEq)]
pub struct Import {
    /// Module path.
    pub path: Vec<Ident>,
    /// Optional alias.
    pub alias: Option<Ident>,
    /// Specific items to import (none means all).
    pub items: Option<Vec<ImportItem>>,
    pub span: Span,
}

/// An imported item.
#[derive(Debug, Clone, PartialEq)]
pub struct ImportItem {
    pub name: Ident,
    pub alias: Option<Ident>,
}

/// A type definition.
#[derive(Debug, PartialEq)]
pub struct TypeDef {
    pub name: Ident,
    pub params: Vec<TypeParam>,
    pub body: TypeBody,
    pub docs: Vec<String>,
    pub span: Span,
}

/// A type parameter.
#[derive(Debug, PartialEq)]
pub struct TypeParam {
    pub name: Ident,
    pub bounds: Vec<TypeExpr>,
}

/// The body of a type definition.
#[derive(Debug, PartialEq)]
pub enum TypeBody {
    /// Type alias.
    Alias(TypeExpr),
    /// Record type.
    Record(Vec<Field>),
    /// Enum / variant type.
    Enum(Vec<Variant>),
}

/// A record field.
#[derive(Debug, PartialEq)]
pub struct Field {
    pub name: Ident,
    pub ty: TypeExpr,
    pub docs: Vec<String>,
}

/// An enum variant.
#[derive(Debug, PartialEq)]
pub struct Variant {
    pub name: Ident,
    pub fields: Option<Vec<Field>>,
    pub docs: Vec<String>,
}

/// A type expression.
#[derive(Debug, PartialEq)]
pub enum TypeExpr {
    /// Named type.
    Named(Ident),
    /// Generic type application.
    App(Box<TypeExpr>, Vec<TypeExpr>),
    /// Function type.
    Fn(Vec<TypeExpr>, Box<TypeExpr>),
    /// Tuple type.
    Tuple(Vec<TypeExpr>),
    /// Array type.
    Array(Box<TypeExpr>),
    /// Optional type.
    Optional(Box<TypeExpr>),
    /// Refinement type: `{ x: T | P(x) }`.
    Refinement { base: Box<TypeExpr>, var: Ident, predicate: Box<Expr> },
}

/// A function definition.
#[derive(Debug, PartialEq)]
pub struct FnDef {
    pub name: Ident,
    pub type_params: Vec<TypeParam>,
    pub params: Vec<Param>,
    pub return_ty: Option<TypeExpr>,
    pub body: Expr,
    pub docs: Vec<String>,
    pub span: Span,
}

/// A function parameter.
#[derive(Debug, PartialEq)]
pub struct Param {
    pub name: Ident,
    pub ty: Option<TypeExpr>,
    pub default: Option<Expr>,
}

/// A program segment (short program, free skate, ...).
#[derive(Debug, PartialEq)]
pub struct Segment {
    pub name: Ident,
    pub kind: SegmentKind,
    pub music: Option<MusicDef>,
    pub duration: Option<DurationDef>,
    pub skaters: Vec<SkaterDef>,
    pub sequences: Vec<Sequence>,
    pub docs: Vec<String>,
    pub span: Span,
}

/// Segment kind.
#[derive(Debug, Clone, Copy, PartialEq, Eq, Structural)]
pub enum SegmentKind {
    /// Short program (singles / pairs).
    Short,
    /// Free skate (singles / pairs).
    Free,
    /// Pattern dance (ice dance).
    Pattern,
    /// Rhythm dance (ice dance).
    Rhythm,
    /// Exhibition / gala performance.
    Exhibition,
}

/// The keyword of a segment kind.
pub open spec fn segment_kind_word(k: SegmentKind) -> Seq<char> {
    match k {
        SegmentKind::Short => "short"@,
        SegmentKind::Free => "free"@,
        SegmentKind::Pattern => "pattern"@,
        SegmentKind::Rhythm => "rhythm"@,
        SegmentKind::Exhibition => "exhibition"@,
    }
}

impl SegmentKind {
    /// The keyword of the segment kind, such as `short`.
    pub fn to_string(&self) -> (r: String)
        ensures
            r@ == segment_kind_word(*self),
    {
        match self {
            SegmentKind::Short => string_of("short"),
            SegmentKind::Free => string_of("free"),
            SegmentKind::Pattern => string_of("pattern"),
            SegmentKind::Rhythm => string_of("rhythm"),
            SegmentKind::Exhibition => string_of("exhibition"),
        }
    }
}

/// Music definition.
#[derive(Debug, PartialEq)]
pub struct MusicDef {
    /// Music file or reference.
    pub source: String,
    /// Tempo in beats per minute, as written.
    pub tempo: Option<FloatLit>,
    /// Beat structure.
    pub beats: Option<Vec<BeatMark>>,
    pub span: Span,
}

/// A beat marker.
#[derive(Debug, PartialEq)]
pub struct BeatMark {
    pub time: TimeExpr,
    pub beat: i64,
}

/// Duration constraints.
#[derive(Debug, PartialEq)]
pub struct DurationDef {
    pub min: Option<TimeExpr>,
    pub max: Option<TimeExpr>,
    pub span: Span,
}

/// Skater definition (pairs / ice dance).
#[derive(Debug, Clone, PartialEq)]
pub struct SkaterDef {
    pub name: Ident,
    pub role: Option<SkaterRole>,
    pub span: Span,
}

/// Skater role in pairs.
#[derive(Debug, Clone, Copy, PartialEq, Eq, Structural)]
pub enum SkaterRole {
    Lead,
    Follow,
}

/// A sequence of elements.
#[derive(Debug, PartialEq)]
pub struct Sequence {
    pub name: Option<Ident>,
    pub elements: Vec<Element>,
    pub span: Span,
}

/// A skating element.
#[derive(Debug, PartialEq)]
pub struct Element {
    pub kind: ElementKind,
    pub timing: Option<Timing>,
    pub position: Option<PositionExpr>,
    pub annotations: Vec<Annotation>,
    pub span: Span,
}

/// Element kind.
#[derive(Debug, PartialEq)]
pub enum ElementKind {
    Jump(JumpElement),
    Spin(SpinElement),
    StepSequence(StepSequence),
    Lift(LiftElement),
    DeathSpiral(DeathSpiralElement),
    Throw(ThrowElement),
    Twist(TwistElement),
    Transition(TransitionElement),
    Choreographic(ChoreographicElement),
    Pattern(PatternElement),
    Parallel(ParallelElement),
    Sync(SyncElement),
}

/// A jump element.
#[derive(Debug, PartialEq)]
pub struct JumpElement {
    pub kind: JumpKind,
    pub rotations: Rotations,
    pub entry_edge: Option<Edge>,
    pub exit_edge: Option<Edge>,
    /// Following jumps of a combination.
    pub combination: Vec<JumpElement>,
}

/// A spin element.
#[derive(Debug, Clone, PartialEq)]
pub struct SpinElement {
    pub positions: Vec<SpinPositionDef>,
    pub min_revs: Option<i64>,
    pub features: Vec<SpinFeature>,
    pub level: Option<Level>,
}

/// A spin position definition.
#[derive(Debug, Clone, PartialEq)]
pub struct SpinPositionDef {
    pub position: SpinPosition,
    pub revolutions: Option<i64>,
    pub change_edge: bool,
    pub change_foot: bool,
}

/// Spin level features.
#[derive(Debug, Clone, Copy, PartialEq, Eq, Structural)]
pub enum SpinFeature {
    DifficultVariation,
    ChangeOfFoot,
    ChangeOfEdge,
    JumpEntry,
    FlyingEntry,
    BackEntry,
    DifficultPosition,
    TravelSuppressed,
}

/// A step sequence.
#[derive(Debug, Clone, PartialEq)]
pub struct StepSequence {
    pub pattern: StepPattern,
    pub level: Option<Level>,
    pub steps: Vec<StepDef>,
}

/// Step sequence pattern.
#[derive(Debug, Clone, Copy, PartialEq, Eq, Structural)]
pub enum StepPattern {
    Straight,
    Circular,
    Serpentine,
    Diagonal,
    Midline,
}

/// The word of a step pattern.
pub open spec fn step_pattern_word(p: StepPattern) -> Seq<char> {
    match p {
        StepPattern::Straight => "straight"@,
        StepPattern::Circular => "circular"@,
        StepPattern::Serpentine => "serpentine"@,
        StepPattern::Diagonal => "diagonal"@,
        StepPattern::Midline => "midline"@,
    }
}

impl StepPattern {
    /// The word of the pattern, such as `circular`.
    pub fn to_string(&self) -> (r: String)
        ensures
            r@ == step_pattern_word(*self),
    {
        match self {
            StepPattern::Straight => string_of("straight"),
            StepPattern::Circular => string_of("circular"),
            StepPattern::Serpentine => string_of("serpentine"),
            StepPattern::Diagonal => string_of("diagonal"),
            StepPattern::Midline => string_of("midline"),
        }
    }
}

/// A step definition.
#[derive(Debug, Clone, PartialEq)]
pub struct StepDef {
    pub edge: Edge,
    pub curve: Option<Curve>,
    pub turn: Option<TurnKind>,
}

/// Turn types.
#[derive(Debug, Clone, Copy, PartialEq, Eq, Structural)]
pub enum TurnKind {
    ThreeTurn,
    Bracket,
    Rocker,
    Counter,
    Mohawk,
    Choctaw,
    Twizzle,
}

/// A lift element (pairs).
#[derive(Debug, Clone, PartialEq)]
pub struct LiftElement {
    pub group: LiftGroup,
    pub level: Option<Level>,
    pub entry: Option<String>,
    pub exit: Option<String>,
}

/// A death spiral element (pairs).
#[derive(Debug, Clone, PartialEq)]
pub struct DeathSpiralElement {
    pub edge: Edge,
    pub level: Option<Level>,
}

/// A throw jump element (pairs).
#[derive(Debug, Clone, PartialEq)]
pub struct ThrowElement {
    pub kind: JumpKind,
    pub rotations: Rotations,
}

/// A twist lift element (pairs).
#[derive(Debug, Clone, PartialEq)]
pub struct TwistElement {
    pub rotations: Rotations,
    pub level: Option<Level>,
}

/// A transition element.
#[derive(Debug, Clone, PartialEq)]
pub struct TransitionElement {
    pub description: Option<String>,
    pub quality: Option<MovementQuality>,
}

/// Movement quality.
#[derive(Debug, Clone, Copy, PartialEq, Eq, Structural)]
pub enum MovementQuality {
    Gliding,
    Stroking,
    Crossovers,
    EdgeWork,
    Footwork,
}

/// A choreographic element.
#[derive(Debug, Clone, PartialEq)]
pub struct ChoreographicElement {
    pub kind: ChoreographicKind,
    pub description: Option<String>,
}

/// Choreographic element kind.
#[derive(Debug, Clone, Copy, PartialEq, Eq, Structural)]
pub enum ChoreographicKind {
    Spiral,
    Spread,
    Ina,
    Hydroblading,
    Pivot,
    Choreographic,
}

/// A pattern element (ice dance).
#[derive(Debug, PartialEq)]
pub struct PatternElement {
    pub name: String,
    pub key_points: Vec<KeyPoint>,
}

/// A key point of a pattern.
#[derive(Debug, PartialEq)]
pub struct KeyPoint {
    pub position: PositionExpr,
    pub edge: Edge,
}

/// Parallel execution for pairs / ice dance: one branch per skater.
#[derive(Debug, PartialEq)]
pub struct ParallelElement {
    pub branches: Vec<(Ident, Vec<Element>)>,
}

/// Synchronized execution.
#[derive(Debug, PartialEq)]
pub struct SyncElement {
    pub elements: Vec<Element>,
}

/// Timing specification.
#[derive(Debug, PartialEq)]
pub enum Timing {
    /// At a specific time.
    At(TimeExpr),
    /// A range of time.
    Range(TimeExpr, TimeExpr),
    /// Duration only.
    Duration(TimeExpr),
    /// Beat-relative.
    Beat(i64),
    /// After the previous element.
    After(TimeExpr),
}

/// Time expression.
#[derive(Debug, PartialEq)]
pub enum TimeExpr {
    /// Literal time in seconds, as written.
    Literal(FloatLit),
    /// Time in `mm:ss` form.
    Formatted(String),
    /// Variable reference.
    Var(Ident),
    /// Binary operation.
    BinOp(Box<TimeExpr>, TimeBinOp, Box<TimeExpr>),
}

/// Time binary operators.
#[derive(Debug, Clone, Copy, PartialEq, Eq, Structural)]
pub enum TimeBinOp {
    Add,
    Sub,
}

/// Position expression.
#[derive(Debug, PartialEq)]
pub enum PositionExpr {
    /// Literal `(x, y)` in meters, as written.
    Literal(FloatLit, FloatLit),
    /// Named position (center, corner, ...).
    Named(String),
    /// Variable reference.
    Var(Ident),
    /// Relative to another position.
    Relative(Box<PositionExpr>, FloatLit, FloatLit),
}

/// An annotation on an element.
#[derive(Debug, PartialEq)]
pub struct Annotation {
    pub name: Ident,
    pub args: Vec<Expr>,
}

/// An expression.
#[derive(Debug, PartialEq)]
pub enum Expr {
    Int(i64),
    Float(FloatLit),
    String(String),
    Bool(bool),
    Time(TimeExpr),
    Position(PositionExpr),
    Var(Ident),
    BinOp(Box<Spanned<Expr>>, BinOp, Box<Spanned<Expr>>),
    UnaryOp(UnaryOp, Box<Spanned<Expr>>),
    Call(Box<Spanned<Expr>>, Vec<Spanned<Expr>>),
    Field(Box<Spanned<Expr>>, Ident),
    Index(Box<Spanned<Expr>>, Box<Spanned<Expr>>),
    If(Box<Spanned<Expr>>, Box<Spanned<Expr>>, Option<Box<Spanned<Expr>>>),
    Match(Box<Spanned<Expr>>, Vec<MatchArm>),
    Let(Ident, Option<TypeExpr>, Box<Spanned<Expr>>, Box<Spanned<Expr>>),
    Block(Vec<Spanned<Stmt>>),
    Lambda(Vec<Param>, Box<Spanned<Expr>>),
    Tuple(Vec<Spanned<Expr>>),
    Array(Vec<Spanned<Expr>>),
    Record(Vec<(Ident, Spanned<Expr>)>),
    /// An inline skating element.
    Element(Box<Element>),
}

/// Binary operators.
#[derive(Debug, Clone, Copy, PartialEq, Eq, Structural)]
pub enum BinOp {
    Add,
    Sub,
    Mul,
    Div,
    Mod,
    Eq,
    NotEq,
    Lt,
    LtEq,
    Gt,
    GtEq,
    And,
    Or,
}

/// The symbol of a binary operator.
pub open spec fn binop_symbol(op: BinOp) -> Seq<char> {
    match op {
        BinOp::Add => "+"@,
        BinOp::Sub => "-"@,
        BinOp::Mul => "*"@,
        BinOp::Div => "/"@,
        BinOp::Mod => "%"@,
        BinOp::Eq => "=="@,
        BinOp::NotEq => "!="@,
        BinOp::Lt => "<"@,
        BinOp::LtEq => "<="@,
        BinOp::Gt => ">"@,
        BinOp::GtEq => ">="@,
        BinOp::And => "&&"@,
        BinOp::Or => "||"@,
    }
}

impl BinOp {
    /// The operator's symbol as a string slice.
    pub fn symbol(&self) -> (r: &'static str)
        ensures
            r@ == binop_symbol(*self),
    {
        match self {
            BinOp::Add => "+",
            BinOp::Sub => "-",
            BinOp::Mul => "*",
            BinOp::Div => "/",
            BinOp::Mod => "%",
            BinOp::Eq => "==",
            BinOp::NotEq => "!=",
            BinOp::Lt => "<",
            BinOp::LtEq => "<=",
            BinOp::Gt => ">",
            BinOp::GtEq => ">=",
            BinOp::And => "&&",
            BinOp::Or => "||",
        }
    }

    /// The operator's symbol, such as `<=`.
    pub fn to_string(&self) -> (r: String)
        ensures
            r@ == binop_symbol(*self),
    {
        string_of(self.symbol())
    }
}

/// Unary operators.
#[derive(Debug, Clone, Copy, PartialEq, Eq, Structural)]
pub enum UnaryOp {
    Neg,
    Not,
}

/// The symbol of a unary operator.
pub open spec fn unop_symbol(op: UnaryOp) -> Seq<char> {
    match op {
        UnaryOp::Neg => "-"@,
        UnaryOp::Not => "!"@,
    }
}

impl UnaryOp {
    /// The operator's symbol (`-` or `!`).
    pub fn to_string(&self) -> (r: String)
        ensures
            r@ == unop_symbol(*self),
    {
        match self {
            UnaryOp::Neg => string_of("-"),
            UnaryOp::Not => string_of("!"),
        }
    }
}

/// A match arm.
#[derive(Debug, PartialEq)]
pub struct MatchArm {
    pub pattern: Pattern,
    pub guard: Option<Spanned<Expr>>,
    pub body: Spanned<Expr>,
}

/// A pattern for matching.
#[derive(Debug, PartialEq)]
pub enum Pattern {
    Wildcard,
    Var(Ident),
    Literal(Literal),
    Constructor(Ident, Vec<Pattern>),
    Tuple(Vec<Pattern>),
    Record(Vec<(Ident, Pattern)>),
    Or(Vec<Pattern>),
    Guard(Box<Pattern>, Spanned<Expr>),
}

/// A literal value.
#[derive(Debug, Clone, PartialEq)]
pub enum Literal {
    Int(i64),
    Float(FloatLit),
    String(String),
    Bool(bool),
}

/// A statement.
#[derive(Debug, PartialEq)]
pub enum Stmt {
    Expr(Expr),
    Let(Ident, Option<TypeExpr>, Expr),
    Assign(Spanned<Expr>, Expr),
    Return(Option<Expr>),
    For(Ident, Expr, Vec<Spanned<Stmt>>),
    While(Expr, Vec<Spanned<Stmt>>),
}

} // verus!
