//! Types of the Anvomidav type system: primitives, skating domain types,
//! compound types and unification variables.

use vstd::prelude::*;
use std::collections::HashMap;
use crate::base::text::{decimal, push_char, push_decimal, push_str, str_eq};

verus! {

broadcast use {vstd::std_specs::vec::axiom_vec_decreases_to_view, vstd::std_specs::hash::group_hash_axioms};

/// Identifier of a type variable.
#[derive(Debug, Clone, Copy, PartialEq, Eq, Hash, Structural)]
pub struct TypeVar(pub u32);

impl TypeVar {
    /// A fresh type variable: the counter's current value, after which the
    /// counter moves on by one (wrapping around at `u32::MAX`).
    pub fn fresh(counter: &mut u32) -> (v: TypeVar)
        ensures
            v == TypeVar(*old(counter)),
            *final(counter) == (if *old(counter) == u32::MAX { 0 } else { (*old(counter) + 1) as u32 }),
            *final(counter) == counter_after(*old(counter), 1),
    {
        let v = TypeVar(*counter);
        *counter = counter.wrapping_add(1);
        v
    }
}

/// A type in the Anvomidav type system.
#[derive(Debug, PartialEq, Eq)]
pub enum Type {
    Unit,
    Bool,
    Int,
    Float,
    String,
    Time,
    Duration,
    Position,
    Position3,
    Angle,
    Velocity,
    Beat,
    Edge,
    Level,
    Jump,
    Spin,
    StepSequence,
    Lift,
    Throw,
    Twist,
    DeathSpiral,
    Transition,
    Choreographic,
    Element,
    Sequence,
    Segment,
    Program,
    /// Function type: parameter types and return type.
    Fn(Vec<Type>, Box<Type>),
    /// Tuple type.
    Tuple(Vec<Type>),
    /// Array type.
    Array(Box<Type>),
    /// Optional type.
    Optional(Box<Type>),
    /// Record type: named fields.
    Record(Vec<(String, Type)>),
    /// Enum / variant type: named variants with an optional payload.
    Variant(Vec<(String, Option<Type>)>),
    /// Named (user-defined or imported) type.
    Named(String),
    /// Generic type application.
    App(Box<Type>, Vec<Type>),
    /// Unification variable.
    Var(TypeVar),
    /// Refinement type `{ x: T | predicate }`, the predicate kept as text.
    Refinement { base: Box<Type>, predicate: String },
    /// Error type, used after a type error.
    Error,
}

/// A type as a value: the shape of `Type` with sequences for vectors and
/// character sequences for strings.
pub enum TypeV {
    Unit,
    Bool,
    Int,
    Float,
    Str,
    Time,
    Duration,
    Position,
    Position3,
    Angle,
    Velocity,
    Beat,
    Edge,
    Level,
    Jump,
    Spin,
    StepSequence,
    Lift,
    Throw,
    Twist,
    DeathSpiral,
    Transition,
    Choreographic,
    Element,
    Sequence,
    Segment,
    Program,
    Fn(Seq<TypeV>, Box<TypeV>),
    Tuple(Seq<TypeV>),
    Array(Box<TypeV>),
    Optional(Box<TypeV>),
    Record(Seq<(Seq<char>, TypeV)>),
    Variant(Seq<(Seq<char>, Option<TypeV>)>),
    Named(Seq<char>),
    App(Box<TypeV>, Seq<TypeV>),
    Var(TypeVar),
    Refinement(Box<TypeV>, Seq<char>),
    Error,
}

/// The value of a type.
pub open spec fn tview(t: Type) -> TypeV
    decreases t,
{
    match t {
        Type::Unit => TypeV::Unit,
        Type::Bool => TypeV::Bool,
        Type::Int => TypeV::Int,
        Type::Float => TypeV::Float,
        Type::String => TypeV::Str,
        Type::Time => TypeV::Time,
        Type::Duration => TypeV::Duration,
        Type::Position => TypeV::Position,
        Type::Position3 => TypeV::Position3,
        Type::Angle => TypeV::Angle,
        Type::Velocity => TypeV::Velocity,
        Type::Beat => TypeV::Beat,
        Type::Edge => TypeV::Edge,
        Type::Level => TypeV::Level,
        Type::Jump => TypeV::Jump,
        Type::Spin => TypeV::Spin,
        Type::StepSequence => TypeV::StepSequence,
        Type::Lift => TypeV::Lift,
        Type::Throw => TypeV::Throw,
        Type::Twist => TypeV::Twist,
        Type::DeathSpiral => TypeV::DeathSpiral,
        Type::Transition => TypeV::Transition,
        Type::Choreographic => TypeV::Choreographic,
        Type::Element => TypeV::Element,
        Type::Sequence => TypeV::Sequence,
        Type::Segment => TypeV::Segment,
        Type::Program => TypeV::Program,
        Type::Fn(ps, r) => TypeV::Fn(tviews(ps@), Box::new(tview(*r))),
        Type::Tuple(ts) => TypeV::Tuple(tviews(ts@)),
        Type::Array(a) => TypeV::Array(Box::new(tview(*a))),
        Type::Optional(a) => TypeV::Optional(Box::new(tview(*a))),
        Type::Record(fs) => TypeV::Record(field_views(fs@)),
        Type::Variant(vs) => TypeV::Variant(variant_views(vs@)),
        Type::Named(n) => TypeV::Named(n@),
        Type::App(b, args) => TypeV::App(Box::new(tview(*b)), tviews(args@)),
        Type::Var(v) => TypeV::Var(v),
        Type::Refinement { base, predicate } => TypeV::Refinement(Box::new(tview(*base)), predicate@),
        Type::Error => TypeV::Error,
    }
}

/// The values of a sequence of types.
pub open spec fn tviews(s: Seq<Type>) -> Seq<TypeV>
    decreases s,
{
    if s.len() == 0 {
        Seq::empty()
    } else {
        seq![tview(s[0])] + tviews(s.subrange(1, s.len() as int))
    }
}

/// The values of record fields.
pub open spec fn field_views(s: Seq<(String, Type)>) -> Seq<(Seq<char>, TypeV)>
    decreases s,
{
    if s.len() == 0 {
        Seq::empty()
    } else {
        seq![(s[0].0@, tview(s[0].1))] + field_views(s.subrange(1, s.len() as int))
    }
}

/// The values of enum variants.
pub open spec fn variant_views(s: Seq<(String, Option<Type>)>) -> Seq<(Seq<char>, Option<TypeV>)>
    decreases s,
{
    if s.len() == 0 {
        Seq::empty()
    } else {
        seq![(s[0].0@, match s[0].1 { Some(t) => Some(tview(t)), None => None })]
            + variant_views(s.subrange(1, s.len() as int))
    }
}

/// The type variables of a type, each occurrence in pre-order.
pub open spec fn tv_vars(t: TypeV) -> Seq<TypeVar>
    decreases t,
{
    match t {
        TypeV::Var(v) => seq![v],
        TypeV::Fn(ps, r) => tvs_vars(ps) + tv_vars(*r),
        TypeV::Tuple(ts) => tvs_vars(ts),
        TypeV::Array(a) => tv_vars(*a),
        TypeV::Optional(a) => tv_vars(*a),
        TypeV::Record(fs) => fields_vars(fs),
        TypeV::Variant(vs) => variants_vars(vs),
        TypeV::App(b, args) => tv_vars(*b) + tvs_vars(args),
        TypeV::Refinement(b, _) => tv_vars(*b),
        _ => Seq::empty(),
    }
}

/// The type variables of a sequence of types, in order.
pub open spec fn tvs_vars(s: Seq<TypeV>) -> Seq<TypeVar>
    decreases s,
{
    if s.len() == 0 {
        Seq::empty()
    } else {
        tv_vars(s[0]) + tvs_vars(s.subrange(1, s.len() as int))
    }
}

/// The type variables of record fields, in order.
pub open spec fn fields_vars(s: Seq<(Seq<char>, TypeV)>) -> Seq<TypeVar>
    decreases s,
{
    if s.len() == 0 {
        Seq::empty()
    } else {
        tv_vars(s[0].1) + fields_vars(s.subrange(1, s.len() as int))
    }
}

/// The type variables of enum variants' payloads, in order.
pub open spec fn variants_vars(s: Seq<(Seq<char>, Option<TypeV>)>) -> Seq<TypeVar>
    decreases s,
{
    if s.len() == 0 {
        Seq::empty()
    } else {
        (match s[0].1 {
            Some(t) => tv_vars(t),
            None => Seq::empty(),
        }) + variants_vars(s.subrange(1, s.len() as int))
    }
}

/// `acc` followed by the items of `s` it does not hold yet, each once, in
/// the order of their first occurrence.
pub open spec fn add_new(acc: Seq<TypeVar>, s: Seq<TypeVar>) -> Seq<TypeVar>
    decreases s.len(),
{
    if s.len() == 0 {
        acc
    } else {
        let acc2 = if acc.contains(s[0]) { acc } else { acc.push(s[0]) };
        add_new(acc2, s.subrange(1, s.len() as int))
    }
}

/// Adding the items of two sequences one after the other.
pub proof fn lemma_add_new_concat(acc: Seq<TypeVar>, a: Seq<TypeVar>, b: Seq<TypeVar>)
    ensures
        add_new(acc, a + b) == add_new(add_new(acc, a), b),
    decreases a.len(),
{
    if a.len() == 0 {
        assert(a + b =~= b);
    } else {
        let acc2 = if acc.contains(a[0]) { acc } else { acc.push(a[0]) };
        assert((a + b).subrange(1, (a + b).len() as int) =~= a.subrange(1, a.len() as int) + b);
        lemma_add_new_concat(acc2, a.subrange(1, a.len() as int), b);
    }
}

/// The result of adding holds no duplicates when `acc` held none, and holds
/// exactly the items of `acc` and `s`.
pub proof fn lemma_add_new_props(acc: Seq<TypeVar>, s: Seq<TypeVar>)
    requires
        acc.no_duplicates(),
    ensures
        add_new(acc, s).no_duplicates(),
        forall|v: TypeVar| add_new(acc, s).contains(v) <==> (acc.contains(v) || s.contains(v)),
    decreases s.len(),
{
    if s.len() > 0 {
        let acc2 = if acc.contains(s[0]) { acc } else { acc.push(s[0]) };
        let rest = s.subrange(1, s.len() as int);
        assert forall|v: TypeVar| acc2.contains(v) <==> (acc.contains(v) || v == s[0]) by {
            if !acc.contains(s[0]) {
                if acc2.contains(v) && v != s[0] {
                    let i = choose|i: int| 0 <= i < acc2.len() && acc2[i] == v;
                    assert(acc[i] == v);
                }
                if acc.contains(v) {
                    let i = choose|i: int| 0 <= i < acc.len() && acc[i] == v;
                    assert(acc2[i] == v);
                }
                if v == s[0] {
                    assert(acc2[acc.len() as int] == v);
                }
            }
        }
        assert forall|v: TypeVar| s.contains(v) <==> (v == s[0] || rest.contains(v)) by {
            if s.contains(v) && v != s[0] {
                let i = choose|i: int| 0 <= i < s.len() && s[i] == v;
                assert(rest[i - 1] == v);
            }
            if rest.contains(v) {
                let i = choose|i: int| 0 <= i < rest.len() && rest[i] == v;
                assert(s[i + 1] == v);
            }
            if v == s[0] {
                assert(s[0] == v);
            }
        }
        lemma_add_new_props(acc2, rest);
    }
}

/// Replace type variables bound in `m`.
pub open spec fn tv_subst(t: TypeV, m: Map<u32, TypeV>) -> TypeV
    decreases t,
{
    match t {
        TypeV::Var(v) => if m.contains_key(v.0) { m[v.0] } else { t },
        TypeV::Fn(ps, r) => TypeV::Fn(tvs_subst(ps, m), Box::new(tv_subst(*r, m))),
        TypeV::Tuple(ts) => TypeV::Tuple(tvs_subst(ts, m)),
        TypeV::Array(a) => TypeV::Array(Box::new(tv_subst(*a, m))),
        TypeV::Optional(a) => TypeV::Optional(Box::new(tv_subst(*a, m))),
        TypeV::Record(fs) => TypeV::Record(fields_subst(fs, m)),
        TypeV::Variant(vs) => TypeV::Variant(variants_subst(vs, m)),
        TypeV::App(b, args) => TypeV::App(Box::new(tv_subst(*b, m)), tvs_subst(args, m)),
        TypeV::Refinement(b, p) => TypeV::Refinement(Box::new(tv_subst(*b, m)), p),
        _ => t,
    }
}

/// Substitution in each of a sequence of types.
pub open spec fn tvs_subst(s: Seq<TypeV>, m: Map<u32, TypeV>) -> Seq<TypeV>
    decreases s,
{
    if s.len() == 0 {
        Seq::empty()
    } else {
        seq![tv_subst(s[0], m)] + tvs_subst(s.subrange(1, s.len() as int), m)
    }
}

/// Substitution in record fields' types.
pub open spec fn fields_subst(s: Seq<(Seq<char>, TypeV)>, m: Map<u32, TypeV>) -> Seq<(Seq<char>, TypeV)>
    decreases s,
{
    if s.len() == 0 {
        Seq::empty()
    } else {
        seq![(s[0].0, tv_subst(s[0].1, m))] + fields_subst(s.subrange(1, s.len() as int), m)
    }
}

/// Substitution in enum variants' payloads.
pub open spec fn variants_subst(s: Seq<(Seq<char>, Option<TypeV>)>, m: Map<u32, TypeV>) -> Seq<(Seq<char>, Option<TypeV>)>
    decreases s,
{
    if s.len() == 0 {
        Seq::empty()
    } else {
        seq![(s[0].0, match s[0].1 { Some(t) => Some(tv_subst(t, m)), None => None })]
            + variants_subst(s.subrange(1, s.len() as int), m)
    }
}

/// The substitution a map of types stands for.
pub open spec fn subst_view(m: Map<u32, Type>) -> Map<u32, TypeV> {
    m.map_values(|t: Type| tview(t))
}

impl View for Type {
    type V = TypeV;

    open spec fn view(&self) -> TypeV {
        tview(*self)
    }
}

pub(crate) proof fn lemma_tviews_step(s: Seq<Type>, i: int)
    requires
        0 <= i < s.len(),
    ensures
        tviews(s.subrange(i, s.len() as int)) == seq![tview(s[i])] + tviews(s.subrange(i + 1, s.len() as int)),
{
    let t = s.subrange(i, s.len() as int);
    assert(t.subrange(1, t.len() as int) =~= s.subrange(i + 1, s.len() as int));
}

pub(crate) proof fn lemma_field_views_step(s: Seq<(String, Type)>, i: int)
    requires
        0 <= i < s.len(),
    ensures
        field_views(s.subrange(i, s.len() as int)) == seq![(s[i].0@, tview(s[i].1))] + field_views(s.subrange(i + 1, s.len() as int)),
{
    let t = s.subrange(i, s.len() as int);
    assert(t.subrange(1, t.len() as int) =~= s.subrange(i + 1, s.len() as int));
}

proof fn lemma_variant_views_step(s: Seq<(String, Option<Type>)>, i: int)
    requires
        0 <= i < s.len(),
    ensures
        variant_views(s.subrange(i, s.len() as int)) == seq![(s[i].0@, match s[i].1 { Some(t) => Some(tview(t)), None => None })]
            + variant_views(s.subrange(i + 1, s.len() as int)),
{
    let t = s.subrange(i, s.len() as int);
    assert(t.subrange(1, t.len() as int) =~= s.subrange(i + 1, s.len() as int));
}

proof fn lemma_tvs_cons(x: TypeV, rest: Seq<TypeV>, m: Map<u32, TypeV>)
    ensures
        tvs_vars(seq![x] + rest) == tv_vars(x) + tvs_vars(rest),
        tvs_subst(seq![x] + rest, m) == seq![tv_subst(x, m)] + tvs_subst(rest, m),
{
    let c = seq![x] + rest;
    assert(c[0] == x);
    assert(c.subrange(1, c.len() as int) =~= rest);
}

proof fn lemma_fields_cons(x: (Seq<char>, TypeV), rest: Seq<(Seq<char>, TypeV)>, m: Map<u32, TypeV>)
    ensures
        fields_vars(seq![x] + rest) == tv_vars(x.1) + fields_vars(rest),
        fields_subst(seq![x] + rest, m) == seq![(x.0, tv_subst(x.1, m))] + fields_subst(rest, m),
{
    let c = seq![x] + rest;
    assert(c[0] == x);
    assert(c.subrange(1, c.len() as int) =~= rest);
}

proof fn lemma_variants_cons(x: (Seq<char>, Option<TypeV>), rest: Seq<(Seq<char>, Option<TypeV>)>, m: Map<u32, TypeV>)
    ensures
        variants_vars(seq![x] + rest) == (match x.1 { Some(t) => tv_vars(t), None => Seq::empty() }) + variants_vars(rest),
        variants_subst(seq![x] + rest, m) == seq![(x.0, match x.1 { Some(t) => Some(tv_subst(t, m)), None => None })]
            + variants_subst(rest, m),
{
    let c = seq![x] + rest;
    assert(c[0] == x);
    assert(c.subrange(1, c.len() as int) =~= rest);
}

/// Is the type one of the primitive types?
pub open spec fn tv_is_primitive(t: TypeV) -> bool {
    t is Unit || t is Bool || t is Int || t is Float || t is Str
}

/// Is the type one of the skating domain types?
pub open spec fn tv_is_domain(t: TypeV) -> bool {
    t is Time || t is Duration || t is Position || t is Position3 || t is Angle || t is Velocity
        || t is Beat || t is Edge || t is Level
}

/// Is the type one of the skating element types?
pub open spec fn tv_is_element(t: TypeV) -> bool {
    t is Jump || t is Spin || t is StepSequence || t is Lift || t is Throw || t is Twist
        || t is DeathSpiral || t is Transition || t is Choreographic || t is Element
}

impl Type {
    /// Is this a primitive type (unit, bool, int, float, string)?
    pub fn is_primitive(&self) -> (b: bool)
        ensures
            b == tv_is_primitive(self@),
    {
        match self {
            Type::Unit | Type::Bool | Type::Int | Type::Float | Type::String => true,
            _ => false,
        }
    }

    /// Is this a skating domain type (time, position, edge, ...)?
    pub fn is_domain(&self) -> (b: bool)
        ensures
            b == tv_is_domain(self@),
    {
        match self {
            Type::Time | Type::Duration | Type::Position | Type::Position3 | Type::Angle
            | Type::Velocity | Type::Beat | Type::Edge | Type::Level => true,
            _ => false,
        }
    }

    /// Is this a skating element type?
    pub fn is_element(&self) -> (b: bool)
        ensures
            b == tv_is_element(self@),
    {
        match self {
            Type::Jump | Type::Spin | Type::StepSequence | Type::Lift | Type::Throw | Type::Twist
            | Type::DeathSpiral | Type::Transition | Type::Choreographic | Type::Element => true,
            _ => false,
        }
    }

    /// Is this a function type?
    pub fn is_function(&self) -> (b: bool)
        ensures
            b == (self@ is Fn),
    {
        match self {
            Type::Fn(_, _) => true,
            _ => false,
        }
    }

    /// Does the type contain type variables?
    pub fn has_vars(&self) -> (b: bool)
        ensures
            b == (tv_vars(self@).len() > 0),
        decreases self, 0nat,
    {
        match self {
            Type::Var(_) => true,
            Type::Fn(ps, r) => {
                let a = list_has_vars(ps, 0);
                let b = r.has_vars();
                proof { assert(ps@.subrange(0, ps@.len() as int) =~= ps@); }
                a || b
            },
            Type::Tuple(ts) => {
                proof { assert(ts@.subrange(0, ts@.len() as int) =~= ts@); }
                list_has_vars(ts, 0)
            },
            Type::Array(t) => t.has_vars(),
            Type::Optional(t) => t.has_vars(),
            Type::Record(fs) => {
                proof { assert(fs@.subrange(0, fs@.len() as int) =~= fs@); }
                fields_have_vars(fs, 0)
            },
            Type::Variant(vs) => {
                proof { assert(vs@.subrange(0, vs@.len() as int) =~= vs@); }
                variants_have_vars(vs, 0)
            },
            Type::App(b, args) => {
                let x = b.has_vars();
                let y = list_has_vars(args, 0);
                proof { assert(args@.subrange(0, args@.len() as int) =~= args@); }
                x || y
            },
            Type::Refinement { base, .. } => base.has_vars(),
            _ => false,
        }
    }
}

fn list_has_vars(ts: &Vec<Type>, i: usize) -> (b: bool)
    requires
        i <= ts@.len(),
    ensures
        b == (tvs_vars(tviews(ts@.subrange(i as int, ts@.len() as int))).len() > 0),
    decreases ts, ts@.len() - i,
{
    if i == ts.len() {
        return false;
    }
    proof {
        lemma_tviews_step(ts@, i as int);
        lemma_tvs_cons(tview(ts@[i as int]), tviews(ts@.subrange(i + 1, ts@.len() as int)), Map::empty());
    }
    let a = ts[i].has_vars();
    let b = list_has_vars(ts, i + 1);
    a || b
}

fn fields_have_vars(fs: &Vec<(String, Type)>, i: usize) -> (b: bool)
    requires
        i <= fs@.len(),
    ensures
        b == (fields_vars(field_views(fs@.subrange(i as int, fs@.len() as int))).len() > 0),
    decreases fs, fs@.len() - i,
{
    if i == fs.len() {
        return false;
    }
    proof {
        lemma_field_views_step(fs@, i as int);
        lemma_fields_cons((fs@[i as int].0@, tview(fs@[i as int].1)), field_views(fs@.subrange(i + 1, fs@.len() as int)), Map::empty());
    }
    let a = fs[i].1.has_vars();
    let b = fields_have_vars(fs, i + 1);
    a || b
}

fn variants_have_vars(vs: &Vec<(String, Option<Type>)>, i: usize) -> (b: bool)
    requires
        i <= vs@.len(),
    ensures
        b == (variants_vars(variant_views(vs@.subrange(i as int, vs@.len() as int))).len() > 0),
    decreases vs, vs@.len() - i,
{
    if i == vs.len() {
        return false;
    }
    proof {
        lemma_variant_views_step(vs@, i as int);
        lemma_variants_cons(
            (vs@[i as int].0@, match vs@[i as int].1 { Some(t) => Some(tview(t)), None => None }),
            variant_views(vs@.subrange(i + 1, vs@.len() as int)),
            Map::empty(),
        );
    }
    let a = match &vs[i].1 {
        Some(t) => t.has_vars(),
        None => false,
    };
    let b = variants_have_vars(vs, i + 1);
    a || b
}

impl Type {
    /// The type variables of the type, each once, in order of first
    /// occurrence.
    pub fn free_vars(&self) -> (vars: Vec<TypeVar>)
        ensures
            vars@ == add_new(Seq::empty(), tv_vars(self@)),
    {
        let mut vars: Vec<TypeVar> = Vec::new();
        self.collect_vars(&mut vars);
        vars
    }

    /// Append to `vars` the type variables of the type that it does not hold
    /// yet, in order of first occurrence.
    pub fn collect_vars(&self, vars: &mut Vec<TypeVar>)
        ensures
            final(vars)@ == add_new(old(vars)@, tv_vars(self@)),
        decreases self, 0nat,
    {
        match self {
            Type::Var(v) => {
                let ghost v0 = vars@;
                proof {
                    let s = seq![*v];
                    assert(s.subrange(1, 1) =~= Seq::<TypeVar>::empty());
                    assert(add_new(v0, s) == add_new(if v0.contains(*v) { v0 } else { v0.push(*v) }, Seq::empty()));
                }
                if !vec_contains(vars, v) {
                    vars.push(*v);
                }
            },
            Type::Fn(ps, r) => {
                proof { assert(ps@.subrange(0, ps@.len() as int) =~= ps@); }
                let ghost v0 = vars@;
                list_collect_vars(ps, 0, vars);
                r.collect_vars(vars);
                proof { lemma_add_new_concat(v0, tvs_vars(tviews(ps@)), tv_vars(r@)); }
            },
            Type::Tuple(ts) => {
                proof { assert(ts@.subrange(0, ts@.len() as int) =~= ts@); }
                list_collect_vars(ts, 0, vars);
            },
            Type::Array(t) => t.collect_vars(vars),
            Type::Optional(t) => t.collect_vars(vars),
            Type::Record(fs) => {
                proof { assert(fs@.subrange(0, fs@.len() as int) =~= fs@); }
                fields_collect_vars(fs, 0, vars);
            },
            Type::Variant(vs) => {
                proof { assert(vs@.subrange(0, vs@.len() as int) =~= vs@); }
                variants_collect_vars(vs, 0, vars);
            },
            Type::App(b, args) => {
                proof { assert(args@.subrange(0, args@.len() as int) =~= args@); }
                let ghost v0 = vars@;
                b.collect_vars(vars);
                list_collect_vars(args, 0, vars);
                proof { lemma_add_new_concat(v0, tv_vars(b@), tvs_vars(tviews(args@))); }
            },
            Type::Refinement { base, .. } => base.collect_vars(vars),
            _ => {},
        }
    }
}

pub(crate) fn vec_contains(vars: &Vec<TypeVar>, v: &TypeVar) -> (b: bool)
    ensures
        b == vars@.contains(*v),
{
    let mut i: usize = 0;
    while i < vars.len()
        invariant
            i <= vars@.len(),
            forall|j: int| 0 <= j < i ==> vars@[j] != *v,
        decreases vars@.len() - i,
    {
        if vars[i].0 == v.0 {
            return true;
        }
        i = i + 1;
    }
    false
}

fn list_collect_vars(ts: &Vec<Type>, i: usize, vars: &mut Vec<TypeVar>)
    requires
        i <= ts@.len(),
    ensures
        final(vars)@ == add_new(old(vars)@, tvs_vars(tviews(ts@.subrange(i as int, ts@.len() as int)))),
    decreases ts, ts@.len() - i,
{
    if i == ts.len() {
        return;
    }
    proof {
        lemma_tviews_step(ts@, i as int);
        lemma_tvs_cons(tview(ts@[i as int]), tviews(ts@.subrange(i + 1, ts@.len() as int)), Map::empty());
        lemma_add_new_concat(old(vars)@, tv_vars(tview(ts@[i as int])), tvs_vars(tviews(ts@.subrange(i + 1, ts@.len() as int))));
    }
    ts[i].collect_vars(vars);
    list_collect_vars(ts, i + 1, vars);
}

fn fields_collect_vars(fs: &Vec<(String, Type)>, i: usize, vars: &mut Vec<TypeVar>)
    requires
        i <= fs@.len(),
    ensures
        final(vars)@ == add_new(old(vars)@, fields_vars(field_views(fs@.subrange(i as int, fs@.len() as int)))),
    decreases fs, fs@.len() - i,
{
    if i == fs.len() {
        return;
    }
    proof {
        lemma_field_views_step(fs@, i as int);
        lemma_fields_cons((fs@[i as int].0@, tview(fs@[i as int].1)), field_views(fs@.subrange(i + 1, fs@.len() as int)), Map::empty());
        lemma_add_new_concat(old(vars)@, tv_vars(tview(fs@[i as int].1)), fields_vars(field_views(fs@.subrange(i + 1, fs@.len() as int))));
    }
    fs[i].1.collect_vars(vars);
    fields_collect_vars(fs, i + 1, vars);
}

fn variants_collect_vars(vs: &Vec<(String, Option<Type>)>, i: usize, vars: &mut Vec<TypeVar>)
    requires
        i <= vs@.len(),
    ensures
        final(vars)@ == add_new(old(vars)@, variants_vars(variant_views(vs@.subrange(i as int, vs@.len() as int)))),
    decreases vs, vs@.len() - i,
{
    if i == vs.len() {
        return;
    }
    let ghost head = match vs@[i as int].1 { Some(t) => tv_vars(tview(t)), None => Seq::<TypeVar>::empty() };
    proof {
        lemma_variant_views_step(vs@, i as int);
        lemma_variants_cons(
            (vs@[i as int].0@, match vs@[i as int].1 { Some(t) => Some(tview(t)), None => None }),
            variant_views(vs@.subrange(i + 1, vs@.len() as int)),
            Map::empty(),
        );
        lemma_add_new_concat(old(vars)@, head, variants_vars(variant_views(vs@.subrange(i + 1, vs@.len() as int))));
    }
    match &vs[i].1 {
        Some(t) => t.collect_vars(vars),
        None => {},
    }
    variants_collect_vars(vs, i + 1, vars);
}

/// The type variables listed by `free_vars` are distinct and are exactly
/// those that occur in the type.
pub proof fn law_free_vars_distinct_and_complete(t: TypeV)
    ensures
        add_new(Seq::empty(), tv_vars(t)).no_duplicates(),
        forall|v: TypeVar| add_new(Seq::empty(), tv_vars(t)).contains(v) <==> tv_vars(t).contains(v),
{
    lemma_add_new_props(Seq::empty(), tv_vars(t));
}

impl Type {
    /// A copy of the type.
    pub fn deep_clone(&self) -> (r: Type)
        ensures
            r@ == self@,
        decreases self, 0nat,
    {
        match self {
            Type::Unit => Type::Unit,
            Type::Bool => Type::Bool,
            Type::Int => Type::Int,
            Type::Float => Type::Float,
            Type::String => Type::String,
            Type::Time => Type::Time,
            Type::Duration => Type::Duration,
            Type::Position => Type::Position,
            Type::Position3 => Type::Position3,
            Type::Angle => Type::Angle,
            Type::Velocity => Type::Velocity,
            Type::Beat => Type::Beat,
            Type::Edge => Type::Edge,
            Type::Level => Type::Level,
            Type::Jump => Type::Jump,
            Type::Spin => Type::Spin,
            Type::StepSequence => Type::StepSequence,
            Type::Lift => Type::Lift,
            Type::Throw => Type::Throw,
            Type::Twist => Type::Twist,
            Type::DeathSpiral => Type::DeathSpiral,
            Type::Transition => Type::Transition,
            Type::Choreographic => Type::Choreographic,
            Type::Element => Type::Element,
            Type::Sequence => Type::Sequence,
            Type::Segment => Type::Segment,
            Type::Program => Type::Program,
            Type::Fn(ps, r) => {
                proof { assert(ps@.subrange(0, ps@.len() as int) =~= ps@); }
                Type::Fn(list_clone(ps, 0), Box::new(r.deep_clone()))
            },
            Type::Tuple(ts) => {
                proof { assert(ts@.subrange(0, ts@.len() as int) =~= ts@); }
                Type::Tuple(list_clone(ts, 0))
            },
            Type::Array(t) => Type::Array(Box::new(t.deep_clone())),
            Type::Optional(t) => Type::Optional(Box::new(t.deep_clone())),
            Type::Record(fs) => {
                proof { assert(fs@.subrange(0, fs@.len() as int) =~= fs@); }
                Type::Record(fields_clone(fs, 0))
            },
            Type::Variant(vs) => {
                proof { assert(vs@.subrange(0, vs@.len() as int) =~= vs@); }
                Type::Variant(variants_clone(vs, 0))
            },
            Type::Named(n) => Type::Named(n.clone()),
            Type::App(b, args) => {
                proof { assert(args@.subrange(0, args@.len() as int) =~= args@); }
                Type::App(Box::new(b.deep_clone()), list_clone(args, 0))
            },
            Type::Var(v) => Type::Var(*v),
            Type::Refinement { base, predicate } => Type::Refinement {
                base: Box::new(base.deep_clone()),
                predicate: predicate.clone(),
            },
            Type::Error => Type::Error,
        }
    }

    /// Replace the type variables that `subst` binds (keyed by the variable's
    /// number) by their types.
    pub fn substitute(&self, subst: &HashMap<u32, Type>) -> (r: Type)
        ensures
            r@ == tv_subst(self@, subst_view(subst@)),
        decreases self, 0nat,
    {
        match self {
            Type::Var(v) => {
                match subst.get(&v.0) {
                    Some(t) => t.deep_clone(),
                    None => Type::Var(*v),
                }
            },
            Type::Fn(ps, r) => {
                proof { assert(ps@.subrange(0, ps@.len() as int) =~= ps@); }
                Type::Fn(list_subst(ps, 0, subst), Box::new(r.substitute(subst)))
            },
            Type::Tuple(ts) => {
                proof { assert(ts@.subrange(0, ts@.len() as int) =~= ts@); }
                Type::Tuple(list_subst(ts, 0, subst))
            },
            Type::Array(t) => Type::Array(Box::new(t.substitute(subst))),
            Type::Optional(t) => Type::Optional(Box::new(t.substitute(subst))),
            Type::Record(fs) => {
                proof { assert(fs@.subrange(0, fs@.len() as int) =~= fs@); }
                Type::Record(fields_subst_exec(fs, 0, subst))
            },
            Type::Variant(vs) => {
                proof { assert(vs@.subrange(0, vs@.len() as int) =~= vs@); }
                Type::Variant(variants_subst_exec(vs, 0, subst))
            },
            Type::App(b, args) => {
                proof { assert(args@.subrange(0, args@.len() as int) =~= args@); }
                Type::App(Box::new(b.substitute(subst)), list_subst(args, 0, subst))
            },
            Type::Refinement { base, predicate } => Type::Refinement {
                base: Box::new(base.substitute(subst)),
                predicate: predicate.clone(),
            },
            _ => self.deep_clone(),
        }
    }
}

fn list_clone(ts: &Vec<Type>, i: usize) -> (r: Vec<Type>)
    requires
        i <= ts@.len(),
    ensures
        tviews(r@) == tviews(ts@.subrange(i as int, ts@.len() as int)),
    decreases ts, ts@.len() - i,
{
    if i == ts.len() {
        return Vec::new();
    }
    let x = ts[i].deep_clone();
    let mut rest = list_clone(ts, i + 1);
    let ghost old_rest = rest@;
    rest.insert(0, x);
    proof {
        lemma_tviews_step(ts@, i as int);
        assert(rest@.subrange(1, rest@.len() as int) =~= old_rest);
    }
    rest
}

fn fields_clone(fs: &Vec<(String, Type)>, i: usize) -> (r: Vec<(String, Type)>)
    requires
        i <= fs@.len(),
    ensures
        field_views(r@) == field_views(fs@.subrange(i as int, fs@.len() as int)),
    decreases fs, fs@.len() - i,
{
    if i == fs.len() {
        return Vec::new();
    }
    let x = (fs[i].0.clone(), fs[i].1.deep_clone());
    let mut rest = fields_clone(fs, i + 1);
    let ghost old_rest = rest@;
    rest.insert(0, x);
    proof {
        lemma_field_views_step(fs@, i as int);
        assert(rest@.subrange(1, rest@.len() as int) =~= old_rest);
    }
    rest
}

fn variants_clone(vs: &Vec<(String, Option<Type>)>, i: usize) -> (r: Vec<(String, Option<Type>)>)
    requires
        i <= vs@.len(),
    ensures
        variant_views(r@) == variant_views(vs@.subrange(i as int, vs@.len() as int)),
    decreases vs, vs@.len() - i,
{
    if i == vs.len() {
        return Vec::new();
    }
    let payload = match &vs[i].1 {
        Some(t) => Some(t.deep_clone()),
        None => None,
    };
    let x = (vs[i].0.clone(), payload);
    let mut rest = variants_clone(vs, i + 1);
    let ghost old_rest = rest@;
    rest.insert(0, x);
    proof {
        lemma_variant_views_step(vs@, i as int);
        assert(rest@.subrange(1, rest@.len() as int) =~= old_rest);
    }
    rest
}

fn list_subst(ts: &Vec<Type>, i: usize, subst: &HashMap<u32, Type>) -> (r: Vec<Type>)
    requires
        i <= ts@.len(),
    ensures
        tviews(r@) == tvs_subst(tviews(ts@.subrange(i as int, ts@.len() as int)), subst_view(subst@)),
    decreases ts, ts@.len() - i,
{
    if i == ts.len() {
        return Vec::new();
    }
    let x = ts[i].substitute(subst);
    let mut rest = list_subst(ts, i + 1, subst);
    let ghost old_rest = rest@;
    rest.insert(0, x);
    proof {
        lemma_tviews_step(ts@, i as int);
        lemma_tvs_cons(tview(ts@[i as int]), tviews(ts@.subrange(i + 1, ts@.len() as int)), subst_view(subst@));
        assert(rest@.subrange(1, rest@.len() as int) =~= old_rest);
    }
    rest
}

fn fields_subst_exec(fs: &Vec<(String, Type)>, i: usize, subst: &HashMap<u32, Type>) -> (r: Vec<(String, Type)>)
    requires
        i <= fs@.len(),
    ensures
        field_views(r@) == fields_subst(field_views(fs@.subrange(i as int, fs@.len() as int)), subst_view(subst@)),
    decreases fs, fs@.len() - i,
{
    if i == fs.len() {
        return Vec::new();
    }
    let x = (fs[i].0.clone(), fs[i].1.substitute(subst));
    let mut rest = fields_subst_exec(fs, i + 1, subst);
    let ghost old_rest = rest@;
    rest.insert(0, x);
    proof {
        lemma_field_views_step(fs@, i as int);
        lemma_fields_cons((fs@[i as int].0@, tview(fs@[i as int].1)), field_views(fs@.subrange(i + 1, fs@.len() as int)), subst_view(subst@));
        assert(rest@.subrange(1, rest@.len() as int) =~= old_rest);
    }
    rest
}

fn variants_subst_exec(vs: &Vec<(String, Option<Type>)>, i: usize, subst: &HashMap<u32, Type>) -> (r: Vec<(String, Option<Type>)>)
    requires
        i <= vs@.len(),
    ensures
        variant_views(r@) == variants_subst(variant_views(vs@.subrange(i as int, vs@.len() as int)), subst_view(subst@)),
    decreases vs, vs@.len() - i,
{
    if i == vs.len() {
        return Vec::new();
    }
    let payload = match &vs[i].1 {
        Some(t) => Some(t.substitute(subst)),
        None => None,
    };
    let x = (vs[i].0.clone(), payload);
    let mut rest = variants_subst_exec(vs, i + 1, subst);
    let ghost old_rest = rest@;
    rest.insert(0, x);
    proof {
        lemma_variant_views_step(vs@, i as int);
        lemma_variants_cons(
            (vs@[i as int].0@, match vs@[i as int].1 { Some(t) => Some(tview(t)), None => None }),
            variant_views(vs@.subrange(i + 1, vs@.len() as int)),
            subst_view(subst@),
        );
        assert(rest@.subrange(1, rest@.len() as int) =~= old_rest);
    }
    rest
}

/// The name of a type variable: a Greek letter for the first eight, then
/// `τ` and the number.
pub open spec fn var_text(v: TypeVar) -> Seq<char> {
    if v.0 == 0 { seq!['α'] }
    else if v.0 == 1 { seq!['β'] }
    else if v.0 == 2 { seq!['γ'] }
    else if v.0 == 3 { seq!['δ'] }
    else if v.0 == 4 { seq!['ε'] }
    else if v.0 == 5 { seq!['ζ'] }
    else if v.0 == 6 { seq!['η'] }
    else if v.0 == 7 { seq!['θ'] }
    else { seq!['τ'] + decimal(v.0 as nat) }
}

/// The text of a type.
pub open spec fn type_text(t: TypeV) -> Seq<char>
    decreases t,
{
    match t {
        TypeV::Unit => "()"@,
        TypeV::Bool => "Bool"@,
        TypeV::Int => "Int"@,
        TypeV::Float => "Float"@,
        TypeV::Str => "String"@,
        TypeV::Time => "Time"@,
        TypeV::Duration => "Duration"@,
        TypeV::Position => "Position"@,
        TypeV::Position3 => "Position3"@,
        TypeV::Angle => "Angle"@,
        TypeV::Velocity => "Velocity"@,
        TypeV::Beat => "Beat"@,
        TypeV::Edge => "Edge"@,
        TypeV::Level => "Level"@,
        TypeV::Jump => "Jump"@,
        TypeV::Spin => "Spin"@,
        TypeV::StepSequence => "StepSequence"@,
        TypeV::Lift => "Lift"@,
        TypeV::Throw => "Throw"@,
        TypeV::Twist => "Twist"@,
        TypeV::DeathSpiral => "DeathSpiral"@,
        TypeV::Transition => "Transition"@,
        TypeV::Choreographic => "Choreographic"@,
        TypeV::Element => "Element"@,
        TypeV::Sequence => "Sequence"@,
        TypeV::Segment => "Segment"@,
        TypeV::Program => "Program"@,
        TypeV::Error => "<error>"@,
        TypeV::Fn(ps, r) => "("@ + types_text(ps) + ") -> "@ + type_text(*r),
        TypeV::Tuple(ts) => "("@ + types_text(ts) + ")"@,
        TypeV::Array(a) => "["@ + type_text(*a) + "]"@,
        TypeV::Optional(a) => type_text(*a) + "?"@,
        TypeV::Record(fs) => "{ "@ + fields_text(fs) + " }"@,
        TypeV::Variant(vs) => variants_text(vs),
        TypeV::Named(n) => n,
        TypeV::App(b, args) => type_text(*b) + "<"@ + types_text(args) + ">"@,
        TypeV::Var(v) => var_text(v),
        TypeV::Refinement(b, p) => "{ x: "@ + type_text(*b) + " | "@ + p + " }"@,
    }
}

/// The texts of types, separated by `, `.
pub open spec fn types_text(s: Seq<TypeV>) -> Seq<char>
    decreases s,
{
    if s.len() == 0 {
        Seq::empty()
    } else if s.len() == 1 {
        type_text(s[0])
    } else {
        type_text(s[0]) + ", "@ + types_text(s.subrange(1, s.len() as int))
    }
}

/// The texts of record fields `name: type`, separated by `, `.
pub open spec fn fields_text(s: Seq<(Seq<char>, TypeV)>) -> Seq<char>
    decreases s,
{
    if s.len() == 0 {
        Seq::empty()
    } else if s.len() == 1 {
        s[0].0 + ": "@ + type_text(s[0].1)
    } else {
        s[0].0 + ": "@ + type_text(s[0].1) + ", "@ + fields_text(s.subrange(1, s.len() as int))
    }
}

/// The text of one variant: its name, and its payload in brackets.
pub open spec fn variant_text(v: (Seq<char>, Option<TypeV>)) -> Seq<char>
    decreases v,
{
    match v.1 {
        Some(t) => v.0 + "("@ + type_text(t) + ")"@,
        None => v.0,
    }
}

/// The texts of enum variants, separated by ` | `.
pub open spec fn variants_text(s: Seq<(Seq<char>, Option<TypeV>)>) -> Seq<char>
    decreases s,
{
    if s.len() == 0 {
        Seq::empty()
    } else if s.len() == 1 {
        variant_text(s[0])
    } else {
        variant_text(s[0]) + " | "@ + variants_text(s.subrange(1, s.len() as int))
    }
}

impl TypeVar {
    /// The name of the variable (`α`, `β`, ..., then `τ8`, `τ9`, ...).
    pub fn to_string(&self) -> (r: String)
        ensures
            r@ == var_text(*self),
    {
        let mut s = String::new();
        let c = if self.0 == 0 { 'α' }
            else if self.0 == 1 { 'β' }
            else if self.0 == 2 { 'γ' }
            else if self.0 == 3 { 'δ' }
            else if self.0 == 4 { 'ε' }
            else if self.0 == 5 { 'ζ' }
            else if self.0 == 6 { 'η' }
            else if self.0 == 7 { 'θ' }
            else { 'τ' };
        push_char(&mut s, c);
        if self.0 >= 8 {
            push_decimal(&mut s, self.0 as u64);
        }
        proof {
            if self.0 < 8 {
                assert(s@ =~= var_text(*self));
            } else {
                assert(s@ =~= var_text(*self));
            }
        }
        s
    }
}

impl Type {
    /// Append the text of the type to `out`.
    pub fn write_to(&self, out: &mut String)
        ensures
            final(out)@ == old(out)@ + type_text(self@),
        decreases self, 0nat,
    {
        let ghost o = out@;
        match self {
            Type::Unit => push_str(out, "()"),
            Type::Bool => push_str(out, "Bool"),
            Type::Int => push_str(out, "Int"),
            Type::Float => push_str(out, "Float"),
            Type::String => push_str(out, "String"),
            Type::Time => push_str(out, "Time"),
            Type::Duration => push_str(out, "Duration"),
            Type::Position => push_str(out, "Position"),
            Type::Position3 => push_str(out, "Position3"),
            Type::Angle => push_str(out, "Angle"),
            Type::Velocity => push_str(out, "Velocity"),
            Type::Beat => push_str(out, "Beat"),
            Type::Edge => push_str(out, "Edge"),
            Type::Level => push_str(out, "Level"),
            Type::Jump => push_str(out, "Jump"),
            Type::Spin => push_str(out, "Spin"),
            Type::StepSequence => push_str(out, "StepSequence"),
            Type::Lift => push_str(out, "Lift"),
            Type::Throw => push_str(out, "Throw"),
            Type::Twist => push_str(out, "Twist"),
            Type::DeathSpiral => push_str(out, "DeathSpiral"),
            Type::Transition => push_str(out, "Transition"),
            Type::Choreographic => push_str(out, "Choreographic"),
            Type::Element => push_str(out, "Element"),
            Type::Sequence => push_str(out, "Sequence"),
            Type::Segment => push_str(out, "Segment"),
            Type::Program => push_str(out, "Program"),
            Type::Error => push_str(out, "<error>"),
            Type::Fn(ps, r) => {
                proof { assert(ps@.subrange(0, ps@.len() as int) =~= ps@); }
                push_str(out, "(");
                write_types(ps, 0, out);
                push_str(out, ") -> ");
                r.write_to(out);
            },
            Type::Tuple(ts) => {
                proof { assert(ts@.subrange(0, ts@.len() as int) =~= ts@); }
                push_str(out, "(");
                write_types(ts, 0, out);
                push_str(out, ")");
            },
            Type::Array(t) => {
                push_str(out, "[");
                t.write_to(out);
                push_str(out, "]");
            },
            Type::Optional(t) => {
                t.write_to(out);
                push_str(out, "?");
            },
            Type::Record(fs) => {
                proof { assert(fs@.subrange(0, fs@.len() as int) =~= fs@); }
                push_str(out, "{ ");
                write_fields(fs, 0, out);
                push_str(out, " }");
            },
            Type::Variant(vs) => {
                proof { assert(vs@.subrange(0, vs@.len() as int) =~= vs@); }
                write_variants(vs, 0, out);
            },
            Type::Named(n) => push_str(out, n.as_str()),
            Type::App(b, args) => {
                proof { assert(args@.subrange(0, args@.len() as int) =~= args@); }
                b.write_to(out);
                push_str(out, "<");
                write_types(args, 0, out);
                push_str(out, ">");
            },
            Type::Var(v) => {
                let t = v.to_string();
                push_str(out, t.as_str());
            },
            Type::Refinement { base, predicate } => {
                push_str(out, "{ x: ");
                base.write_to(out);
                push_str(out, " | ");
                push_str(out, predicate.as_str());
                push_str(out, " }");
            },
        }
        proof {
            assert(out@ =~= o + type_text(self@));
        }
    }

    /// The text of the type, such as `(Int, Int) -> Bool` or `[Element]`.
    pub fn to_string(&self) -> (r: String)
        ensures
            r@ == type_text(self@),
    {
        let mut s = String::new();
        self.write_to(&mut s);
        assert(s@ =~= type_text(self@));
        s
    }
}

proof fn lemma_types_text_step(s: Seq<TypeV>)
    requires
        s.len() > 0,
    ensures
        types_text(s) == type_text(s[0]) + (if s.len() > 1 { ", "@ + types_text(s.subrange(1, s.len() as int)) } else { Seq::empty() }),
{
    if s.len() == 1 {
        assert(type_text(s[0]) + Seq::<char>::empty() =~= type_text(s[0]));
    }
}

fn write_types(ts: &Vec<Type>, i: usize, out: &mut String)
    requires
        i <= ts@.len(),
    ensures
        final(out)@ == old(out)@ + types_text(tviews(ts@.subrange(i as int, ts@.len() as int))),
    decreases ts, ts@.len() - i,
{
    if i == ts.len() {
        assert(old(out)@ + Seq::<char>::empty() =~= old(out)@);
        return;
    }
    let ghost o = out@;
    proof {
        lemma_tviews_step(ts@, i as int);
        let rest = tviews(ts@.subrange(i + 1, ts@.len() as int));
        let all = seq![tview(ts@[i as int])] + rest;
        assert(all[0] == tview(ts@[i as int]));
        assert(all.subrange(1, all.len() as int) =~= rest);
        lemma_types_text_step(all);
    }
    ts[i].write_to(out);
    if i + 1 < ts.len() {
        push_str(out, ", ");
    }
    write_types(ts, i + 1, out);
    proof {
        let rest = tviews(ts@.subrange(i + 1, ts@.len() as int));
        if i + 1 == ts@.len() {
            assert(rest.len() == 0);
        }
        assert(out@ =~= o + types_text(tviews(ts@.subrange(i as int, ts@.len() as int))));
    }
}

fn write_fields(fs: &Vec<(String, Type)>, i: usize, out: &mut String)
    requires
        i <= fs@.len(),
    ensures
        final(out)@ == old(out)@ + fields_text(field_views(fs@.subrange(i as int, fs@.len() as int))),
    decreases fs, fs@.len() - i,
{
    if i == fs.len() {
        assert(old(out)@ + Seq::<char>::empty() =~= old(out)@);
        return;
    }
    let ghost o = out@;
    proof {
        lemma_field_views_step(fs@, i as int);
        let rest = field_views(fs@.subrange(i + 1, fs@.len() as int));
        let all = seq![(fs@[i as int].0@, tview(fs@[i as int].1))] + rest;
        assert(all[0] == (fs@[i as int].0@, tview(fs@[i as int].1)));
        assert(all.subrange(1, all.len() as int) =~= rest);
    }
    push_str(out, fs[i].0.as_str());
    push_str(out, ": ");
    fs[i].1.write_to(out);
    if i + 1 < fs.len() {
        push_str(out, ", ");
    }
    write_fields(fs, i + 1, out);
    proof {
        let rest = field_views(fs@.subrange(i + 1, fs@.len() as int));
        if i + 1 == fs@.len() {
            assert(rest.len() == 0);
        }
        assert(out@ =~= o + fields_text(field_views(fs@.subrange(i as int, fs@.len() as int))));
    }
}

fn write_variants(vs: &Vec<(String, Option<Type>)>, i: usize, out: &mut String)
    requires
        i <= vs@.len(),
    ensures
        final(out)@ == old(out)@ + variants_text(variant_views(vs@.subrange(i as int, vs@.len() as int))),
    decreases vs, vs@.len() - i,
{
    if i == vs.len() {
        assert(old(out)@ + Seq::<char>::empty() =~= old(out)@);
        return;
    }
    let ghost o = out@;
    let ghost head = (vs@[i as int].0@, match vs@[i as int].1 { Some(t) => Some(tview(t)), None => None });
    proof {
        lemma_variant_views_step(vs@, i as int);
        let rest = variant_views(vs@.subrange(i + 1, vs@.len() as int));
        let all = seq![head] + rest;
        assert(all[0] == head);
        assert(all.subrange(1, all.len() as int) =~= rest);
    }
    push_str(out, vs[i].0.as_str());
    match &vs[i].1 {
        Some(t) => {
            push_str(out, "(");
            t.write_to(out);
            push_str(out, ")");
        },
        None => {},
    }
    proof {
        assert(out@ =~= o + variant_text(head));
    }
    if i + 1 < vs.len() {
        push_str(out, " | ");
    }
    write_variants(vs, i + 1, out);
    proof {
        let rest = variant_views(vs@.subrange(i + 1, vs@.len() as int));
        if i + 1 == vs@.len() {
            assert(rest.len() == 0);
        }
        assert(out@ =~= o + variants_text(variant_views(vs@.subrange(i as int, vs@.len() as int))));
    }
}

/// A type scheme: a type with quantified type variables.
#[derive(Debug, PartialEq, Eq)]
pub struct TypeScheme {
    /// Quantified type variables.
    pub vars: Vec<TypeVar>,
    /// The body type.
    pub ty: Type,
}

/// The counter value after `k` fresh variables were drawn from `c`.
pub open spec fn counter_after(c: u32, k: nat) -> u32 {
    ((c as nat + k) % 0x1_0000_0000) as u32
}

/// Drawing from one counter moves it on one step at a time, and the
/// variables drawn in a row from it are pairwise different as long as fewer
/// than 2^32 are drawn: the i-th and the j-th draw differ.
pub proof fn law_fresh_distinct(c: u32, i: nat, j: nat)
    requires
        i < j < 0x1_0000_0000,
    ensures
        counter_after(counter_after(c, i), 1) == counter_after(c, i + 1),
        counter_after(c, i) != counter_after(c, j),
{
    let m: int = 0x1_0000_0000;
    let a: int = c as int + i;
    let b: int = c as int + j;
    assert(0 < b - a < m);
    assert((a % m + 1) % m == (a + 1) % m) by (nonlinear_arith)
        requires m == 0x1_0000_0000, a >= 0;
    assert(a % m != b % m) by (nonlinear_arith)
        requires m == 0x1_0000_0000, 0 < b - a < m, a >= 0;
}

/// The substitution an instantiation builds: the `k`-th quantified variable
/// maps to the `k`-th fresh variable drawn from `c`; a variable listed twice
/// keeps its last fresh variable.
pub open spec fn instantiation(vars: Seq<TypeVar>, c: u32) -> Map<u32, TypeV>
    decreases vars.len(),
{
    if vars.len() == 0 {
        Map::empty()
    } else {
        instantiation(vars.drop_last(), c).insert(
            vars.last().0,
            TypeV::Var(TypeVar(counter_after(c, (vars.len() - 1) as nat))),
        )
    }
}

impl TypeScheme {
    /// A monomorphic scheme: no quantified variables.
    pub fn mono(ty: Type) -> (s: TypeScheme)
        ensures
            s.vars@ == Seq::<TypeVar>::empty(),
            s.ty == ty,
    {
        TypeScheme { vars: Vec::new(), ty }
    }

    /// A polymorphic scheme.
    pub fn poly(vars: Vec<TypeVar>, ty: Type) -> (s: TypeScheme)
        ensures
            s.vars == vars,
            s.ty == ty,
    {
        TypeScheme { vars, ty }
    }

    /// Instantiate the scheme: each quantified variable is replaced by a fresh
    /// variable drawn, in order, from `counter`.
    pub fn instantiate(&self, counter: &mut u32) -> (t: Type)
        ensures
            t@ == tv_subst(self.ty@, instantiation(self.vars@, *old(counter))),
            *final(counter) == counter_after(*old(counter), self.vars@.len()),
    {
        let mut subst: HashMap<u32, Type> = HashMap::new();
        let ghost c0 = *counter;
        let mut i: usize = 0;
        proof {
            assert(self.vars@.take(0) =~= Seq::<TypeVar>::empty());
            assert(subst_view(subst@) =~= instantiation(self.vars@.take(0), c0));
        }
        while i < self.vars.len()
            invariant
                i <= self.vars@.len(),
                *counter == counter_after(c0, i as nat),
                subst_view(subst@) == instantiation(self.vars@.take(i as int), c0),
            decreases self.vars@.len() - i,
        {
            let ghost before = subst@;
            let fresh = TypeVar::fresh(counter);
            subst.insert(self.vars[i].0, Type::Var(fresh));
            proof {
                let t = self.vars@.take(i + 1);
                assert(t.drop_last() =~= self.vars@.take(i as int));
                assert(t.last() == self.vars@[i as int]);
                assert(subst_view(subst@) =~= subst_view(before).insert(self.vars@[i as int].0, TypeV::Var(fresh)));
                assert(counter_after(c0, (i + 1) as nat) == (if counter_after(c0, i as nat) == u32::MAX { 0 } else { (counter_after(c0, i as nat) + 1) as u32 }));
            }
            i = i + 1;
        }
        proof {
            assert(self.vars@.take(i as int) =~= self.vars@);
        }
        self.ty.substitute(&subst)
    }

    /// The text of the scheme: the type, preceded by `∀` and the quantified
    /// variables when there are any.
    pub fn to_string(&self) -> (r: String)
        ensures
            r@ == scheme_text(self.vars@, self.ty@),
    {
        let mut s = String::new();
        if self.vars.len() > 0 {
            push_char(&mut s, '∀');
            let mut i: usize = 0;
            while i < self.vars.len()
                invariant
                    i <= self.vars@.len(),
                    self.vars@.len() > 0,
                    s@ == seq!['∀'] + vars_text(self.vars@.take(i as int)),
                decreases self.vars@.len() - i,
            {
                let ghost before = s@;
                if i > 0 {
                    push_str(&mut s, ", ");
                }
                let v = self.vars[i].to_string();
                push_str(&mut s, v.as_str());
                proof {
                    let t = self.vars@.take(i + 1);
                    assert(t.drop_last() =~= self.vars@.take(i as int));
                    assert(s@ =~= seq!['∀'] + vars_text(t));
                }
                i = i + 1;
            }
            assert(self.vars@.take(i as int) =~= self.vars@);
            push_str(&mut s, ". ");
        }
        self.ty.write_to(&mut s);
        proof {
            assert(s@ =~= scheme_text(self.vars@, self.ty@));
        }
        s
    }
}

/// The names of type variables separated by `, `.
pub open spec fn vars_text(vs: Seq<TypeVar>) -> Seq<char>
    decreases vs.len(),
{
    if vs.len() == 0 {
        Seq::empty()
    } else if vs.len() == 1 {
        var_text(vs[0])
    } else {
        vars_text(vs.drop_last()) + ", "@ + var_text(vs.last())
    }
}

/// The text of a scheme.
pub open spec fn scheme_text(vars: Seq<TypeVar>, ty: TypeV) -> Seq<char> {
    if vars.len() == 0 {
        type_text(ty)
    } else {
        seq!['∀'] + vars_text(vars) + ". "@ + type_text(ty)
    }
}


// ---------------------------------------------------------------------------
// Facts about substitution
// ---------------------------------------------------------------------------

/// No type variable of `t` is bound by `m`.
pub open spec fn free_of(t: TypeV, m: Map<u32, TypeV>) -> bool {
    forall|v: TypeVar| #[trigger] tv_vars(t).contains(v) ==> !m.contains_key(v.0)
}

/// A substitution is idempotent: no type it binds mentions a variable it
/// binds.
pub open spec fn idempotent(m: Map<u32, TypeV>) -> bool {
    forall|k: u32| #[trigger] m.contains_key(k) ==> free_of(m[k], m)
}

proof fn lemma_concat_contains<A>(a: Seq<A>, b: Seq<A>, x: A)
    ensures
        (a + b).contains(x) <==> (a.contains(x) || b.contains(x)),
{
    if (a + b).contains(x) {
        let i = choose|i: int| 0 <= i < (a + b).len() && (a + b)[i] == x;
        if i < a.len() {
            assert(a[i] == x);
        } else {
            assert(b[i - a.len()] == x);
        }
    }
    if a.contains(x) {
        let i = choose|i: int| 0 <= i < a.len() && a[i] == x;
        assert((a + b)[i] == x);
    }
    if b.contains(x) {
        let i = choose|i: int| 0 <= i < b.len() && b[i] == x;
        assert((a + b)[a.len() + i] == x);
    }
}

/// Substituting in a type none of whose variables are bound changes nothing.
pub proof fn lemma_subst_id(t: TypeV, m: Map<u32, TypeV>)
    requires
        free_of(t, m),
    ensures
        tv_subst(t, m) == t,
    decreases t, 0nat,
{
    match t {
        TypeV::Var(v) => {
            assert(tv_vars(t).contains(v)) by { assert(tv_vars(t)[0] == v); }
        },
        TypeV::Fn(ps, r) => {
            assert(tv_vars(t) == tvs_vars(ps) + tv_vars(*r));
            assert forall|v: TypeVar| #[trigger] tvs_vars(ps).contains(v) implies !m.contains_key(v.0) by {
                lemma_concat_contains(tvs_vars(ps), tv_vars(*r), v);
                assert(tv_vars(t).contains(v));
            }
            assert forall|v: TypeVar| #[trigger] tv_vars(*r).contains(v) implies !m.contains_key(v.0) by {
                lemma_concat_contains(tvs_vars(ps), tv_vars(*r), v);
                assert(tv_vars(t).contains(v));
            }
            lemma_tvs_subst_id(ps, m);
            lemma_subst_id(*r, m);
        },
        TypeV::Tuple(ts) => {
            assert(tv_vars(t) == tvs_vars(ts));
            lemma_tvs_subst_id(ts, m);
        },
        TypeV::Array(a) => {
            assert(tv_vars(t) == tv_vars(*a));
            lemma_subst_id(*a, m);
        },
        TypeV::Optional(a) => {
            assert(tv_vars(t) == tv_vars(*a));
            lemma_subst_id(*a, m);
        },
        TypeV::Record(fs) => {
            assert(tv_vars(t) == fields_vars(fs));
            lemma_fields_subst_id(fs, m);
        },
        TypeV::Variant(vs) => {
            assert(tv_vars(t) == variants_vars(vs));
            lemma_variants_subst_id(vs, m);
        },
        TypeV::App(b, args) => {
            assert(tv_vars(t) == tv_vars(*b) + tvs_vars(args));
            assert forall|v: TypeVar| #[trigger] tv_vars(*b).contains(v) implies !m.contains_key(v.0) by {
                lemma_concat_contains(tv_vars(*b), tvs_vars(args), v);
                assert(tv_vars(t).contains(v));
            }
            assert forall|v: TypeVar| #[trigger] tvs_vars(args).contains(v) implies !m.contains_key(v.0) by {
                lemma_concat_contains(tv_vars(*b), tvs_vars(args), v);
                assert(tv_vars(t).contains(v));
            }
            lemma_subst_id(*b, m);
            lemma_tvs_subst_id(args, m);
        },
        TypeV::Refinement(b, _) => {
            assert(tv_vars(t) == tv_vars(*b));
            lemma_subst_id(*b, m);
        },
        _ => {},
    }
}

proof fn lemma_tvs_subst_id(s: Seq<TypeV>, m: Map<u32, TypeV>)
    requires
        forall|v: TypeVar| #[trigger] tvs_vars(s).contains(v) ==> !m.contains_key(v.0),
    ensures
        tvs_subst(s, m) == s,
    decreases s, 0nat,
{
    if s.len() > 0 {
        let rest = s.subrange(1, s.len() as int);
        assert(tvs_vars(s) == tv_vars(s[0]) + tvs_vars(rest));
        assert forall|v: TypeVar| #[trigger] tv_vars(s[0]).contains(v) implies !m.contains_key(v.0) by {
            lemma_concat_contains(tv_vars(s[0]), tvs_vars(rest), v);
            assert(tvs_vars(s).contains(v));
        }
        assert forall|v: TypeVar| #[trigger] tvs_vars(rest).contains(v) implies !m.contains_key(v.0) by {
            lemma_concat_contains(tv_vars(s[0]), tvs_vars(rest), v);
            assert(tvs_vars(s).contains(v));
        }
        lemma_subst_id(s[0], m);
        lemma_tvs_subst_id(rest, m);
        assert(tvs_subst(s, m) =~= s);
    }
}

proof fn lemma_fields_subst_id(s: Seq<(Seq<char>, TypeV)>, m: Map<u32, TypeV>)
    requires
        forall|v: TypeVar| #[trigger] fields_vars(s).contains(v) ==> !m.contains_key(v.0),
    ensures
        fields_subst(s, m) == s,
    decreases s, 0nat,
{
    if s.len() > 0 {
        let rest = s.subrange(1, s.len() as int);
        assert(fields_vars(s) == tv_vars(s[0].1) + fields_vars(rest));
        assert forall|v: TypeVar| #[trigger] tv_vars(s[0].1).contains(v) implies !m.contains_key(v.0) by {
            lemma_concat_contains(tv_vars(s[0].1), fields_vars(rest), v);
            assert(fields_vars(s).contains(v));
        }
        assert forall|v: TypeVar| #[trigger] fields_vars(rest).contains(v) implies !m.contains_key(v.0) by {
            lemma_concat_contains(tv_vars(s[0].1), fields_vars(rest), v);
            assert(fields_vars(s).contains(v));
        }
        lemma_subst_id(s[0].1, m);
        lemma_fields_subst_id(rest, m);
        assert(fields_subst(s, m) =~= s);
    }
}

proof fn lemma_variants_subst_id(s: Seq<(Seq<char>, Option<TypeV>)>, m: Map<u32, TypeV>)
    requires
        forall|v: TypeVar| #[trigger] variants_vars(s).contains(v) ==> !m.contains_key(v.0),
    ensures
        variants_subst(s, m) == s,
    decreases s, 0nat,
{
    if s.len() > 0 {
        let rest = s.subrange(1, s.len() as int);
        let head = match s[0].1 { Some(t) => tv_vars(t), None => Seq::empty() };
        assert(variants_vars(s) == head + variants_vars(rest));
        assert forall|v: TypeVar| #[trigger] head.contains(v) implies !m.contains_key(v.0) by {
            lemma_concat_contains(head, variants_vars(rest), v);
            assert(variants_vars(s).contains(v));
        }
        assert forall|v: TypeVar| #[trigger] variants_vars(rest).contains(v) implies !m.contains_key(v.0) by {
            lemma_concat_contains(head, variants_vars(rest), v);
            assert(variants_vars(s).contains(v));
        }
        match s[0].1 {
            Some(t) => { lemma_subst_id(t, m); },
            None => {},
        }
        lemma_variants_subst_id(rest, m);
        assert(variants_subst(s, m) =~= s);
    }
}

/// Where the variables of a substituted type come from: each is a variable
/// of the type that the substitution does not bind, or a variable of the
/// type bound to one that it binds.
pub open spec fn subst_var_origin(t: TypeV, m: Map<u32, TypeV>, x: TypeVar) -> bool {
    origin_in(tv_vars(t), m, x)
}

/// Every variable of a substituted type has an origin.
pub proof fn lemma_subst_vars(t: TypeV, m: Map<u32, TypeV>, x: TypeVar)
    requires
        tv_vars(tv_subst(t, m)).contains(x),
    ensures
        subst_var_origin(t, m, x),
    decreases t, 0nat,
{
    match t {
        TypeV::Var(v) => {
            assert(tv_vars(t)[0] == v);
            if m.contains_key(v.0) {
                assert(tv_vars(t).contains(v));
            } else {
                assert(tv_vars(t) =~= seq![v]);
                assert(tv_vars(tv_subst(t, m))[0] == v);
            }
        },
        TypeV::Fn(ps, r) => {
            assert(tv_vars(t) == tvs_vars(ps) + tv_vars(*r));
            assert(tv_vars(tv_subst(t, m)) == tvs_vars(tvs_subst(ps, m)) + tv_vars(tv_subst(*r, m)));
            lemma_concat_contains(tvs_vars(tvs_subst(ps, m)), tv_vars(tv_subst(*r, m)), x);
            if tvs_vars(tvs_subst(ps, m)).contains(x) {
                lemma_tvs_subst_vars(ps, m, x);
                lift_origin(tvs_vars(ps), tv_vars(*r), true, m, x);
            } else {
                lemma_subst_vars(*r, m, x);
                lift_origin(tvs_vars(ps), tv_vars(*r), false, m, x);
            }
            assert(origin_in(tv_vars(t), m, x));
        },
        TypeV::Tuple(ts) => {
            assert(tv_vars(t) == tvs_vars(ts));
            lemma_tvs_subst_vars(ts, m, x);
            assert(origin_in(tv_vars(t), m, x));
        },
        TypeV::Array(a) => {
            assert(tv_vars(t) == tv_vars(*a));
            lemma_subst_vars(*a, m, x);
        },
        TypeV::Optional(a) => {
            assert(tv_vars(t) == tv_vars(*a));
            lemma_subst_vars(*a, m, x);
        },
        TypeV::Record(fs) => {
            assert(tv_vars(t) == fields_vars(fs));
            lemma_fields_subst_vars(fs, m, x);
            assert(origin_in(tv_vars(t), m, x));
        },
        TypeV::Variant(vs) => {
            assert(tv_vars(t) == variants_vars(vs));
            lemma_variants_subst_vars(vs, m, x);
            assert(origin_in(tv_vars(t), m, x));
        },
        TypeV::App(b, args) => {
            assert(tv_vars(t) == tv_vars(*b) + tvs_vars(args));
            assert(tv_vars(tv_subst(t, m)) == tv_vars(tv_subst(*b, m)) + tvs_vars(tvs_subst(args, m)));
            lemma_concat_contains(tv_vars(tv_subst(*b, m)), tvs_vars(tvs_subst(args, m)), x);
            if tv_vars(tv_subst(*b, m)).contains(x) {
                lemma_subst_vars(*b, m, x);
                lift_origin(tv_vars(*b), tvs_vars(args), true, m, x);
            } else {
                lemma_tvs_subst_vars(args, m, x);
                lift_origin(tv_vars(*b), tvs_vars(args), false, m, x);
            }
            assert(origin_in(tv_vars(t), m, x));
        },
        TypeV::Refinement(b, _) => {
            assert(tv_vars(t) == tv_vars(*b));
            lemma_subst_vars(*b, m, x);
        },
        _ => {},
    }
}

/// The origin condition over a list of variables.
pub open spec fn origin_in(vs: Seq<TypeVar>, m: Map<u32, TypeV>, x: TypeVar) -> bool {
    (vs.contains(x) && !m.contains_key(x.0))
        || exists|k: TypeVar| #[trigger] vs.contains(k) && m.contains_key(k.0) && tv_vars(m[k.0]).contains(x)
}

proof fn lift_origin(a: Seq<TypeVar>, b: Seq<TypeVar>, left: bool, m: Map<u32, TypeV>, x: TypeVar)
    requires
        if left { origin_in(a, m, x) } else { origin_in(b, m, x) },
    ensures
        origin_in(a + b, m, x),
{
    if left {
        if a.contains(x) && !m.contains_key(x.0) {
            lemma_concat_contains(a, b, x);
        } else {
            let k = choose|k: TypeVar| #[trigger] a.contains(k) && m.contains_key(k.0) && tv_vars(m[k.0]).contains(x);
            lemma_concat_contains(a, b, k);
        }
    } else {
        if b.contains(x) && !m.contains_key(x.0) {
            lemma_concat_contains(a, b, x);
        } else {
            let k = choose|k: TypeVar| #[trigger] b.contains(k) && m.contains_key(k.0) && tv_vars(m[k.0]).contains(x);
            lemma_concat_contains(a, b, k);
        }
    }
}

proof fn lemma_tvs_subst_vars(s: Seq<TypeV>, m: Map<u32, TypeV>, x: TypeVar)
    requires
        tvs_vars(tvs_subst(s, m)).contains(x),
    ensures
        origin_in(tvs_vars(s), m, x),
    decreases s, 0nat,
{
    if s.len() > 0 {
        let rest = s.subrange(1, s.len() as int);
        assert(s == seq![s[0]] + rest);
        lemma_tvs_cons(s[0], rest, m);
        lemma_tvs_cons(tv_subst(s[0], m), tvs_subst(rest, m), m);
        lemma_concat_contains(tv_vars(tv_subst(s[0], m)), tvs_vars(tvs_subst(rest, m)), x);
        if tv_vars(tv_subst(s[0], m)).contains(x) {
            lemma_subst_vars(s[0], m, x);
            lift_origin(tv_vars(s[0]), tvs_vars(rest), true, m, x);
        } else {
            lemma_tvs_subst_vars(rest, m, x);
            lift_origin(tv_vars(s[0]), tvs_vars(rest), false, m, x);
        }
    }
}

proof fn lemma_fields_subst_vars(s: Seq<(Seq<char>, TypeV)>, m: Map<u32, TypeV>, x: TypeVar)
    requires
        fields_vars(fields_subst(s, m)).contains(x),
    ensures
        origin_in(fields_vars(s), m, x),
    decreases s, 0nat,
{
    if s.len() > 0 {
        let rest = s.subrange(1, s.len() as int);
        assert(s == seq![s[0]] + rest);
        lemma_fields_cons(s[0], rest, m);
        lemma_fields_cons((s[0].0, tv_subst(s[0].1, m)), fields_subst(rest, m), m);
        lemma_concat_contains(tv_vars(tv_subst(s[0].1, m)), fields_vars(fields_subst(rest, m)), x);
        if tv_vars(tv_subst(s[0].1, m)).contains(x) {
            lemma_subst_vars(s[0].1, m, x);
            lift_origin(tv_vars(s[0].1), fields_vars(rest), true, m, x);
        } else {
            lemma_fields_subst_vars(rest, m, x);
            lift_origin(tv_vars(s[0].1), fields_vars(rest), false, m, x);
        }
    }
}

proof fn lemma_variants_subst_vars(s: Seq<(Seq<char>, Option<TypeV>)>, m: Map<u32, TypeV>, x: TypeVar)
    requires
        variants_vars(variants_subst(s, m)).contains(x),
    ensures
        origin_in(variants_vars(s), m, x),
    decreases s, 0nat,
{
    if s.len() > 0 {
        let rest = s.subrange(1, s.len() as int);
        let head = match s[0].1 { Some(t) => tv_vars(t), None => Seq::empty() };
        let shead = match s[0].1 { Some(t) => tv_vars(tv_subst(t, m)), None => Seq::empty() };
        assert(s == seq![s[0]] + rest);
        lemma_variants_cons(s[0], rest, m);
        lemma_variants_cons((s[0].0, match s[0].1 { Some(t) => Some(tv_subst(t, m)), None => None }), variants_subst(rest, m), m);
        lemma_concat_contains(shead, variants_vars(variants_subst(rest, m)), x);
        if shead.contains(x) {
            match s[0].1 {
                Some(t) => { lemma_subst_vars(t, m, x); },
                None => {},
            }
            lift_origin(head, variants_vars(rest), true, m, x);
        } else {
            lemma_variants_subst_vars(rest, m, x);
            lift_origin(head, variants_vars(rest), false, m, x);
        }
    }
}

/// A type substituted by an idempotent substitution mentions none of the
/// variables it binds.
pub proof fn lemma_applied_free(t: TypeV, m: Map<u32, TypeV>)
    requires
        idempotent(m),
    ensures
        free_of(tv_subst(t, m), m),
{
    assert forall|v: TypeVar| #[trigger] tv_vars(tv_subst(t, m)).contains(v) implies !m.contains_key(v.0) by {
        lemma_subst_vars(t, m, v);
        if !(tv_vars(t).contains(v) && !m.contains_key(v.0)) {
            let k = choose|k: TypeVar| #[trigger] tv_vars(t).contains(k) && m.contains_key(k.0) && tv_vars(m[k.0]).contains(v);
            assert(free_of(m[k.0], m));
        }
    }
}

/// The values of a sequence of types, element by element.
pub proof fn lemma_tviews_index(s: Seq<Type>)
    ensures
        tviews(s).len() == s.len(),
        forall|i: int| 0 <= i < s.len() ==> #[trigger] tviews(s)[i] == tview(s[i]),
    decreases s.len(),
{
    if s.len() > 0 {
        let rest = s.subrange(1, s.len() as int);
        lemma_tviews_index(rest);
        assert forall|i: int| 0 <= i < s.len() implies #[trigger] tviews(s)[i] == tview(s[i]) by {
            if i > 0 {
                assert(rest[i - 1] == s[i]);
            }
        }
    }
}

/// The values of record fields, field by field.
pub proof fn lemma_field_views_index(s: Seq<(String, Type)>)
    ensures
        field_views(s).len() == s.len(),
        forall|i: int| 0 <= i < s.len() ==> #[trigger] field_views(s)[i] == (s[i].0@, tview(s[i].1)),
    decreases s.len(),
{
    if s.len() > 0 {
        let rest = s.subrange(1, s.len() as int);
        lemma_field_views_index(rest);
        assert forall|i: int| 0 <= i < s.len() implies #[trigger] field_views(s)[i] == (s[i].0@, tview(s[i].1)) by {
            if i > 0 {
                assert(rest[i - 1] == s[i]);
            }
        }
    }
}


impl Type {
    /// Structural equality of two types.
    pub fn equals(&self, other: &Type) -> (r: bool)
        ensures
            r == (self@ == other@),
        decreases self, 0nat,
    {
        match (self, other) {
            (Type::Unit, Type::Unit) | (Type::Bool, Type::Bool) | (Type::Int, Type::Int)
            | (Type::Float, Type::Float) | (Type::String, Type::String) | (Type::Time, Type::Time)
            | (Type::Duration, Type::Duration) | (Type::Position, Type::Position)
            | (Type::Position3, Type::Position3) | (Type::Angle, Type::Angle)
            | (Type::Velocity, Type::Velocity) | (Type::Beat, Type::Beat) | (Type::Edge, Type::Edge)
            | (Type::Level, Type::Level) | (Type::Jump, Type::Jump) | (Type::Spin, Type::Spin)
            | (Type::StepSequence, Type::StepSequence) | (Type::Lift, Type::Lift)
            | (Type::Throw, Type::Throw) | (Type::Twist, Type::Twist)
            | (Type::DeathSpiral, Type::DeathSpiral) | (Type::Transition, Type::Transition)
            | (Type::Choreographic, Type::Choreographic) | (Type::Element, Type::Element)
            | (Type::Sequence, Type::Sequence) | (Type::Segment, Type::Segment)
            | (Type::Program, Type::Program) | (Type::Error, Type::Error) => true,
            (Type::Fn(p1, r1), Type::Fn(p2, r2)) => list_equals(p1, p2) && r1.equals(r2),
            (Type::Tuple(a), Type::Tuple(b)) => list_equals(a, b),
            (Type::Array(a), Type::Array(b)) => a.equals(b),
            (Type::Optional(a), Type::Optional(b)) => a.equals(b),
            (Type::Record(a), Type::Record(b)) => fields_equal(a, b),
            (Type::Variant(a), Type::Variant(b)) => variants_equal(a, b),
            (Type::Named(a), Type::Named(b)) => str_eq(a.as_str(), b.as_str()),
            (Type::App(a, x), Type::App(b, y)) => a.equals(b) && list_equals(x, y),
            (Type::Var(v), Type::Var(w)) => v.0 == w.0,
            (Type::Refinement { base: a, predicate: p }, Type::Refinement { base: b, predicate: q }) =>
                a.equals(b) && str_eq(p.as_str(), q.as_str()),
            _ => false,
        }
    }
}

fn list_equals(a: &Vec<Type>, b: &Vec<Type>) -> (r: bool)
    ensures
        r == (tviews(a@) == tviews(b@)),
    decreases a, 1nat,
{
    proof {
        lemma_tviews_index(a@);
        lemma_tviews_index(b@);
    }
    if a.len() != b.len() {
        return false;
    }
    let mut i: usize = 0;
    while i < a.len()
        invariant
            i <= a@.len(),
            a@.len() == b@.len(),
            tviews(a@).len() == a@.len(),
            tviews(b@).len() == b@.len(),
            forall|j: int| 0 <= j < a@.len() ==> #[trigger] tviews(a@)[j] == tview(a@[j]),
            forall|j: int| 0 <= j < b@.len() ==> #[trigger] tviews(b@)[j] == tview(b@[j]),
            forall|j: int| 0 <= j < i ==> tview(a@[j]) == tview(b@[j]),
        decreases a@.len() - i,
    {
        if !a[i].equals(&b[i]) {
            assert(tviews(a@)[i as int] != tviews(b@)[i as int]);
            return false;
        }
        i = i + 1;
    }
    assert(tviews(a@) =~= tviews(b@));
    true
}

fn fields_equal(a: &Vec<(String, Type)>, b: &Vec<(String, Type)>) -> (r: bool)
    ensures
        r == (field_views(a@) == field_views(b@)),
    decreases a, 1nat,
{
    proof {
        lemma_field_views_index(a@);
        lemma_field_views_index(b@);
    }
    if a.len() != b.len() {
        return false;
    }
    let mut i: usize = 0;
    while i < a.len()
        invariant
            i <= a@.len(),
            a@.len() == b@.len(),
            field_views(a@).len() == a@.len(),
            field_views(b@).len() == b@.len(),
            forall|j: int| 0 <= j < a@.len() ==> #[trigger] field_views(a@)[j] == (a@[j].0@, tview(a@[j].1)),
            forall|j: int| 0 <= j < b@.len() ==> #[trigger] field_views(b@)[j] == (b@[j].0@, tview(b@[j].1)),
            forall|j: int| 0 <= j < i ==> a@[j].0@ == b@[j].0@ && tview(a@[j].1) == tview(b@[j].1),
        decreases a@.len() - i,
    {
        if !str_eq(a[i].0.as_str(), b[i].0.as_str()) || !a[i].1.equals(&b[i].1) {
            assert(field_views(a@)[i as int] != field_views(b@)[i as int]);
            return false;
        }
        i = i + 1;
    }
    assert(field_views(a@) =~= field_views(b@));
    true
}

/// The values of enum variants, variant by variant.
pub proof fn lemma_variant_views_index(s: Seq<(String, Option<Type>)>)
    ensures
        variant_views(s).len() == s.len(),
        forall|i: int| 0 <= i < s.len() ==> #[trigger] variant_views(s)[i]
            == (s[i].0@, match s[i].1 { Some(t) => Some(tview(t)), None => None }),
    decreases s.len(),
{
    if s.len() > 0 {
        let rest = s.subrange(1, s.len() as int);
        lemma_variant_views_index(rest);
        assert forall|i: int| 0 <= i < s.len() implies #[trigger] variant_views(s)[i]
            == (s[i].0@, match s[i].1 { Some(t) => Some(tview(t)), None => None }) by {
            if i > 0 {
                assert(rest[i - 1] == s[i]);
            }
        }
    }
}

fn variants_equal(a: &Vec<(String, Option<Type>)>, b: &Vec<(String, Option<Type>)>) -> (r: bool)
    ensures
        r == (variant_views(a@) == variant_views(b@)),
    decreases a, 1nat,
{
    proof {
        lemma_variant_views_index(a@);
        lemma_variant_views_index(b@);
    }
    if a.len() != b.len() {
        return false;
    }
    let mut i: usize = 0;
    while i < a.len()
        invariant
            i <= a@.len(),
            a@.len() == b@.len(),
            variant_views(a@).len() == a@.len(),
            variant_views(b@).len() == b@.len(),
            forall|j: int| 0 <= j < a@.len() ==> #[trigger] variant_views(a@)[j]
                == (a@[j].0@, match a@[j].1 { Some(t) => Some(tview(t)), None => None }),
            forall|j: int| 0 <= j < b@.len() ==> #[trigger] variant_views(b@)[j]
                == (b@[j].0@, match b@[j].1 { Some(t) => Some(tview(t)), None => None }),
            forall|j: int| 0 <= j < i ==> variant_views(a@)[j] == variant_views(b@)[j],
        decreases a@.len() - i,
    {
        let same_payload = match (&a[i].1, &b[i].1) {
            (Some(x), Some(y)) => x.equals(y),
            (None, None) => true,
            _ => false,
        };
        if !str_eq(a[i].0.as_str(), b[i].0.as_str()) || !same_payload {
            assert(variant_views(a@)[i as int] != variant_views(b@)[i as int]);
            return false;
        }
        i = i + 1;
    }
    assert(variant_views(a@) =~= variant_views(b@));
    true
}


/// Substitution in a sequence of types, element by element.
pub proof fn lemma_tvs_subst_index(s: Seq<TypeV>, m: Map<u32, TypeV>)
    ensures
        tvs_subst(s, m).len() == s.len(),
        forall|i: int| 0 <= i < s.len() ==> #[trigger] tvs_subst(s, m)[i] == tv_subst(s[i], m),
    decreases s.len(),
{
    if s.len() > 0 {
        let rest = s.subrange(1, s.len() as int);
        lemma_tvs_subst_index(rest, m);
        assert forall|i: int| 0 <= i < s.len() implies #[trigger] tvs_subst(s, m)[i] == tv_subst(s[i], m) by {
            if i > 0 {
                assert(rest[i - 1] == s[i]);
            }
        }
    }
}

/// Substitution in record fields, field by field.
pub proof fn lemma_fields_subst_index(s: Seq<(Seq<char>, TypeV)>, m: Map<u32, TypeV>)
    ensures
        fields_subst(s, m).len() == s.len(),
        forall|i: int| 0 <= i < s.len() ==> #[trigger] fields_subst(s, m)[i] == (s[i].0, tv_subst(s[i].1, m)),
    decreases s.len(),
{
    if s.len() > 0 {
        let rest = s.subrange(1, s.len() as int);
        lemma_fields_subst_index(rest, m);
        assert forall|i: int| 0 <= i < s.len() implies #[trigger] fields_subst(s, m)[i] == (s[i].0, tv_subst(s[i].1, m)) by {
            if i > 0 {
                assert(rest[i - 1] == s[i]);
            }
        }
    }
}


// ---------------------------------------------------------------------------
// Composing substitutions, and compatible types
// ---------------------------------------------------------------------------

/// The substitution that applies `m` and then `s`: each variable bound by
/// `m` goes to its type with `s` applied; each other one bound by `s` goes
/// to its type under `s`.
pub open spec fn compose(m: Map<u32, TypeV>, s: Map<u32, TypeV>) -> Map<u32, TypeV> {
    Map::new(
        |k: u32| m.contains_key(k) || s.contains_key(k),
        |k: u32| if m.contains_key(k) { tv_subst(m[k], s) } else { s[k] },
    )
}

/// Applying a composed substitution is applying one, then the other.
pub proof fn lemma_subst_compose(t: TypeV, m: Map<u32, TypeV>, s: Map<u32, TypeV>)
    ensures
        tv_subst(t, compose(m, s)) == tv_subst(tv_subst(t, m), s),
    decreases t, 0nat,
{
    match t {
        TypeV::Fn(ps, r) => {
            lemma_tvs_subst_compose(ps, m, s);
            lemma_subst_compose(*r, m, s);
        },
        TypeV::Tuple(ts) => {
            lemma_tvs_subst_compose(ts, m, s);
        },
        TypeV::Array(a) => {
            lemma_subst_compose(*a, m, s);
        },
        TypeV::Optional(a) => {
            lemma_subst_compose(*a, m, s);
        },
        TypeV::Record(fs) => {
            lemma_fields_subst_compose(fs, m, s);
        },
        TypeV::Variant(vs) => {
            lemma_variants_subst_compose(vs, m, s);
        },
        TypeV::App(b, args) => {
            lemma_subst_compose(*b, m, s);
            lemma_tvs_subst_compose(args, m, s);
        },
        TypeV::Refinement(b, _) => {
            lemma_subst_compose(*b, m, s);
        },
        _ => {},
    }
}

proof fn lemma_tvs_subst_compose(ts: Seq<TypeV>, m: Map<u32, TypeV>, s: Map<u32, TypeV>)
    ensures
        tvs_subst(ts, compose(m, s)) == tvs_subst(tvs_subst(ts, m), s),
    decreases ts, 0nat,
{
    if ts.len() > 0 {
        let rest = ts.subrange(1, ts.len() as int);
        lemma_subst_compose(ts[0], m, s);
        lemma_tvs_subst_compose(rest, m, s);
        let once = tvs_subst(ts, m);
        assert(once[0] == tv_subst(ts[0], m));
        assert(once.subrange(1, once.len() as int) =~= tvs_subst(rest, m));
        assert(tvs_subst(ts, compose(m, s)) =~= tvs_subst(once, s));
    }
}

proof fn lemma_fields_subst_compose(fs: Seq<(Seq<char>, TypeV)>, m: Map<u32, TypeV>, s: Map<u32, TypeV>)
    ensures
        fields_subst(fs, compose(m, s)) == fields_subst(fields_subst(fs, m), s),
    decreases fs, 0nat,
{
    if fs.len() > 0 {
        let rest = fs.subrange(1, fs.len() as int);
        lemma_subst_compose(fs[0].1, m, s);
        lemma_fields_subst_compose(rest, m, s);
        let once = fields_subst(fs, m);
        assert(once[0] == (fs[0].0, tv_subst(fs[0].1, m)));
        assert(once.subrange(1, once.len() as int) =~= fields_subst(rest, m));
        assert(fields_subst(fs, compose(m, s)) =~= fields_subst(once, s));
    }
}

proof fn lemma_variants_subst_compose(vs: Seq<(Seq<char>, Option<TypeV>)>, m: Map<u32, TypeV>, s: Map<u32, TypeV>)
    ensures
        variants_subst(vs, compose(m, s)) == variants_subst(variants_subst(vs, m), s),
    decreases vs, 0nat,
{
    if vs.len() > 0 {
        let rest = vs.subrange(1, vs.len() as int);
        match vs[0].1 {
            Some(t) => { lemma_subst_compose(t, m, s); },
            None => {},
        }
        lemma_variants_subst_compose(rest, m, s);
        let once = variants_subst(vs, m);
        assert(once.subrange(1, once.len() as int) =~= variants_subst(rest, m));
        assert(variants_subst(vs, compose(m, s)) =~= variants_subst(once, s));
    }
}

/// Is the type one of the kinds of element that stand where an `Element`
/// is expected?
pub open spec fn element_kind(t: TypeV) -> bool {
    t is Jump || t is Spin || t is StepSequence || t is Lift || t is Throw || t is Twist
        || t is DeathSpiral || t is Transition || t is Choreographic
}

/// Two types are compatible: equal, or one of them the error type, or an
/// element kind where an `Element` is expected, or functions, tuples,
/// arrays, optionals or records built the same way from compatible parts
/// (records with the same field names in the same order).
pub open spec fn compatible(a: TypeV, b: TypeV) -> bool
    decreases a,
{
    if a == b || a is Error || b is Error || (element_kind(a) && b is Element) {
        true
    } else {
        match a {
            TypeV::Fn(ps1, r1) => b is Fn && ps1.len() == b->Fn_0.len()
                && (forall|j: int| #![trigger ps1[j]] 0 <= j < ps1.len() ==> compatible(ps1[j], b->Fn_0[j]))
                && compatible(*r1, *b->Fn_1),
            TypeV::Tuple(ts1) => b is Tuple && ts1.len() == b->Tuple_0.len()
                && (forall|j: int| #![trigger ts1[j]] 0 <= j < ts1.len() ==> compatible(ts1[j], b->Tuple_0[j])),
            TypeV::Array(e1) => b is Array && compatible(*e1, *b->Array_0),
            TypeV::Optional(e1) => b is Optional && compatible(*e1, *b->Optional_0),
            TypeV::Record(f1) => b is Record && f1.len() == b->Record_0.len()
                && (forall|j: int| #![trigger f1[j]] 0 <= j < f1.len() ==> f1[j].0 == b->Record_0[j].0
                    && compatible(f1[j].1, b->Record_0[j].1)),
            _ => false,
        }
    }
}

/// Compatible types stay compatible under a substitution.
pub proof fn lemma_compatible_subst(a: TypeV, b: TypeV, s: Map<u32, TypeV>)
    requires
        compatible(a, b),
    ensures
        compatible(tv_subst(a, s), tv_subst(b, s)),
    decreases a,
{
    if a == b || a is Error || b is Error || (element_kind(a) && b is Element) {
    } else {
        match a {
            TypeV::Fn(ps1, r1) => {
                let ps2 = b->Fn_0;
                let r2 = *b->Fn_1;
                lemma_tvs_subst_index(ps1, s);
                lemma_tvs_subst_index(ps2, s);
                assert forall|j: int| 0 <= j < ps1.len() implies
                    #[trigger] compatible(tvs_subst(ps1, s)[j], tvs_subst(ps2, s)[j]) by {
                    assert(compatible(ps1[j], ps2[j]));
                    lemma_compatible_subst(ps1[j], ps2[j], s);
                }
                lemma_compatible_subst(*r1, r2, s);
                let p1 = tvs_subst(ps1, s);
                let p2 = tvs_subst(ps2, s);
                assert(tv_subst(a, s) == TypeV::Fn(p1, Box::new(tv_subst(*r1, s))));
                assert(tv_subst(b, s) == TypeV::Fn(p2, Box::new(tv_subst(r2, s))));
                assert forall|j: int| #![trigger p1[j]] 0 <= j < p1.len() implies compatible(p1[j], p2[j]) by {
                    assert(compatible(tvs_subst(ps1, s)[j], tvs_subst(ps2, s)[j]));
                }
            },
            TypeV::Tuple(ts1) => {
                let ts2 = b->Tuple_0;
                lemma_tvs_subst_index(ts1, s);
                lemma_tvs_subst_index(ts2, s);
                assert forall|j: int| 0 <= j < ts1.len() implies
                    #[trigger] compatible(tvs_subst(ts1, s)[j], tvs_subst(ts2, s)[j]) by {
                    assert(compatible(ts1[j], ts2[j]));
                    lemma_compatible_subst(ts1[j], ts2[j], s);
                }
                let p1 = tvs_subst(ts1, s);
                let p2 = tvs_subst(ts2, s);
                assert(tv_subst(a, s) == TypeV::Tuple(p1));
                assert(tv_subst(b, s) == TypeV::Tuple(p2));
                assert forall|j: int| #![trigger p1[j]] 0 <= j < p1.len() implies compatible(p1[j], p2[j]) by {
                    assert(compatible(tvs_subst(ts1, s)[j], tvs_subst(ts2, s)[j]));
                }
            },
            TypeV::Array(e1) => {
                lemma_compatible_subst(*e1, *b->Array_0, s);
            },
            TypeV::Optional(e1) => {
                lemma_compatible_subst(*e1, *b->Optional_0, s);
            },
            TypeV::Record(f1) => {
                let f2 = b->Record_0;
                lemma_fields_subst_index(f1, s);
                lemma_fields_subst_index(f2, s);
                assert forall|j: int| 0 <= j < f1.len() implies fields_subst(f1, s)[j].0 == fields_subst(f2, s)[j].0
                    && #[trigger] compatible(fields_subst(f1, s)[j].1, fields_subst(f2, s)[j].1) by {
                    assert(f1[j].0 == f2[j].0 && compatible(f1[j].1, f2[j].1));
                    lemma_compatible_subst(f1[j].1, f2[j].1, s);
                }
                let g1 = fields_subst(f1, s);
                let g2 = fields_subst(f2, s);
                assert(tv_subst(a, s) == TypeV::Record(g1));
                assert(tv_subst(b, s) == TypeV::Record(g2));
                assert forall|j: int| #![trigger g1[j]] 0 <= j < g1.len() implies g1[j].0 == g2[j].0
                    && compatible(g1[j].1, g2[j].1) by {
                    assert(compatible(fields_subst(f1, s)[j].1, fields_subst(f2, s)[j].1));
                }
            },
            _ => {},
        }
    }
}


/// `m2` carries on from `m1`: applying `m1` and then `m2` is applying `m2`.
pub open spec fn extends(m2: Map<u32, TypeV>, m1: Map<u32, TypeV>) -> bool {
    forall|x: TypeV| #[trigger] tv_subst(tv_subst(x, m1), m2) == tv_subst(x, m2)
}

/// An idempotent substitution carries on from itself.
pub proof fn lemma_extends_refl(m: Map<u32, TypeV>)
    requires
        idempotent(m),
    ensures
        extends(m, m),
{
    assert forall|x: TypeV| #[trigger] tv_subst(tv_subst(x, m), m) == tv_subst(x, m) by {
        lemma_applied_free(x, m);
        lemma_subst_id(tv_subst(x, m), m);
    }
}

/// Carrying on is transitive.
pub proof fn lemma_extends_trans(m3: Map<u32, TypeV>, m2: Map<u32, TypeV>, m1: Map<u32, TypeV>)
    requires
        extends(m3, m2),
        extends(m2, m1),
    ensures
        extends(m3, m1),
{
    assert forall|x: TypeV| #[trigger] tv_subst(tv_subst(x, m1), m3) == tv_subst(x, m3) by {
        let y = tv_subst(x, m1);
        assert(tv_subst(tv_subst(y, m2), m3) == tv_subst(y, m3));
        assert(tv_subst(y, m2) == tv_subst(x, m2));
        assert(tv_subst(tv_subst(x, m2), m3) == tv_subst(x, m3));
    }
}

/// Composing an idempotent substitution with another carries on from it.
pub proof fn lemma_extends_compose(m: Map<u32, TypeV>, s: Map<u32, TypeV>)
    requires
        idempotent(m),
    ensures
        extends(compose(m, s), m),
{
    assert forall|x: TypeV| #[trigger] tv_subst(tv_subst(x, m), compose(m, s)) == tv_subst(x, compose(m, s)) by {
        let y = tv_subst(x, m);
        lemma_subst_compose(y, m, s);
        lemma_applied_free(x, m);
        lemma_subst_id(y, m);
        lemma_subst_compose(x, m, s);
    }
}

/// Types compatible under a substitution stay compatible under one that
/// carries on from it.
pub proof fn lemma_extends_compatible(a: TypeV, b: TypeV, m1: Map<u32, TypeV>, m2: Map<u32, TypeV>)
    requires
        extends(m2, m1),
        compatible(tv_subst(a, m1), tv_subst(b, m1)),
    ensures
        compatible(tv_subst(a, m2), tv_subst(b, m2)),
{
    lemma_compatible_subst(tv_subst(a, m1), tv_subst(b, m1), m2);
    assert(tv_subst(tv_subst(a, m1), m2) == tv_subst(a, m2));
    assert(tv_subst(tv_subst(b, m1), m2) == tv_subst(b, m2));
}

} // verus!
