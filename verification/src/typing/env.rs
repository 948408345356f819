//! The type environment: scoped variable bindings and named type
//! definitions.

use vstd::prelude::*;
use crate::base::text::{str_eq, string_of};
use crate::typing::ty::{
    vec_contains, add_new, field_views, tv_vars, variant_views, Type, TypeScheme, TypeV, TypeVar,
};

verus! {

/// A type scheme as a value: its quantified variables and its body.
pub type SchemeV = (Seq<TypeVar>, TypeV);

/// The value of a type scheme.
pub open spec fn scheme_view(s: TypeScheme) -> SchemeV {
    (s.vars@, s.ty@)
}

/// Body of a type definition.
#[derive(Debug)]
pub enum TypeDefBody {
    /// Type alias.
    Alias(Type),
    /// Record type.
    Record(Vec<(String, Type)>),
    /// Enum/variant type.
    Enum(Vec<(String, Option<Type>)>),
}

/// A type definition body as a value.
pub enum TypeDefBodyV {
    Alias(TypeV),
    Record(Seq<(Seq<char>, TypeV)>),
    Enum(Seq<(Seq<char>, Option<TypeV>)>),
}

/// A type definition.
#[derive(Debug)]
pub struct TypeDef {
    /// Type parameters.
    pub params: Vec<String>,
    /// The definition body.
    pub body: TypeDefBody,
}

/// A type definition as a value: its parameters and its body.
pub type TypeDefV = (Seq<Seq<char>>, TypeDefBodyV);

/// The value of a type definition.
pub open spec fn typedef_view(d: TypeDef) -> TypeDefV {
    (
        d.params@.map_values(|p: String| p@),
        match d.body {
            TypeDefBody::Alias(t) => TypeDefBodyV::Alias(t@),
            TypeDefBody::Record(fs) => TypeDefBodyV::Record(field_views(fs@)),
            TypeDefBody::Enum(vs) => TypeDefBodyV::Enum(variant_views(vs@)),
        },
    )
}

/// The map a list of named entries stands for; a later entry of a name
/// overrides an earlier one.
pub open spec fn entries_map<T, V>(s: Seq<(String, T)>, f: spec_fn(T) -> V) -> Map<Seq<char>, V>
    decreases s.len(),
{
    if s.len() == 0 {
        Map::empty()
    } else {
        entries_map(s.drop_last(), f).insert(s.last().0@, f(s.last().1))
    }
}

/// No name occurs twice among the entries.
pub open spec fn distinct_names<T>(s: Seq<(String, T)>) -> bool {
    forall|i: int, j: int| 0 <= i < j < s.len() ==> s[i].0@ != s[j].0@
}

proof fn lemma_entries_map_at<T, V>(s: Seq<(String, T)>, f: spec_fn(T) -> V, i: int)
    requires
        distinct_names(s),
        0 <= i < s.len(),
    ensures
        entries_map(s, f).contains_key(s[i].0@),
        entries_map(s, f)[s[i].0@] == f(s[i].1),
    decreases s.len(),
{
    if i < s.len() - 1 {
        lemma_entries_map_at(s.drop_last(), f, i);
    }
}

proof fn lemma_entries_map_keys<T, V>(s: Seq<(String, T)>, f: spec_fn(T) -> V, k: Seq<char>)
    ensures
        entries_map(s, f).contains_key(k) <==> exists|i: int| 0 <= i < s.len() && s[i].0@ == k,
    decreases s.len(),
{
    if s.len() > 0 {
        lemma_entries_map_keys(s.drop_last(), f, k);
        if entries_map(s.drop_last(), f).contains_key(k) {
            let i = choose|i: int| 0 <= i < s.len() - 1 && s.drop_last()[i].0@ == k;
            assert(s[i].0@ == k);
        }
        if exists|i: int| 0 <= i < s.len() && s[i].0@ == k {
            let i = choose|i: int| 0 <= i < s.len() && s[i].0@ == k;
            if i < s.len() - 1 {
                assert(s.drop_last()[i].0@ == k);
            }
        }
    }
}

proof fn lemma_entries_map_update<T, V>(s: Seq<(String, T)>, f: spec_fn(T) -> V, i: int, x: T)
    requires
        distinct_names(s),
        0 <= i < s.len(),
    ensures
        entries_map(s.update(i, (s[i].0, x)), f) == entries_map(s, f).insert(s[i].0@, f(x)),
    decreases s.len(),
{
    let t = s.update(i, (s[i].0, x));
    if i == s.len() - 1 {
        assert(t.drop_last() =~= s.drop_last());
    } else {
        assert(t.drop_last() =~= s.drop_last().update(i, (s[i].0, x)));
        lemma_entries_map_update(s.drop_last(), f, i, x);
        assert(s.last().0@ != s[i].0@);
        assert(entries_map(t, f) =~= entries_map(s, f).insert(s[i].0@, f(x)));
    }
}

/// The value of a scope of bindings.
pub open spec fn scope_view(s: Seq<(String, TypeScheme)>) -> Map<Seq<char>, SchemeV> {
    entries_map(s, |t: TypeScheme| scheme_view(t))
}

/// The scheme a name has in the innermost of the first `n` scopes that binds
/// it.
pub open spec fn lookup_in(scopes: Seq<Map<Seq<char>, SchemeV>>, name: Seq<char>, n: int) -> Option<SchemeV>
    decreases n,
{
    if n <= 0 {
        None
    } else if scopes[n - 1].contains_key(name) {
        Some(scopes[n - 1][name])
    } else {
        lookup_in(scopes, name, n - 1)
    }
}

/// The scheme a name has in the innermost scope that binds it.
pub open spec fn lookup_scopes(scopes: Seq<Map<Seq<char>, SchemeV>>, name: Seq<char>) -> Option<SchemeV> {
    lookup_in(scopes, name, scopes.len() as int)
}

/// The scopes after binding `name` to `s` in the innermost one.
pub open spec fn define_in(scopes: Seq<Map<Seq<char>, SchemeV>>, name: Seq<char>, s: SchemeV) -> Seq<Map<Seq<char>, SchemeV>> {
    if scopes.len() == 0 {
        scopes
    } else {
        scopes.update(scopes.len() - 1, scopes.last().insert(name, s))
    }
}

/// The type variables that occur in the body of some scheme bound in some
/// scope (quantified ones included).
pub open spec fn env_vars(scopes: Seq<Map<Seq<char>, SchemeV>>) -> Set<TypeVar> {
    Set::new(|v: TypeVar| exists|k: int, n: Seq<char>| 0 <= k < scopes.len() && #[trigger] scopes[k].contains_key(n)
        && tv_vars(scopes[k][n].1).contains(v))
}

/// Some scope binds `name` to `s`.
pub open spec fn binds_somewhere(scopes: Seq<Map<Seq<char>, SchemeV>>, name: Seq<char>, s: SchemeV) -> bool {
    exists|k: int| 0 <= k < scopes.len() && #[trigger] scopes[k].contains_key(name) && scopes[k][name] == s
}

/// The items of `s` that are not in `out`, in order.
pub open spec fn without(s: Seq<TypeVar>, out: Set<TypeVar>) -> Seq<TypeVar> {
    s.filter(|v: TypeVar| !out.contains(v))
}

/// A monomorphic scheme as a value.
pub open spec fn mono_v(t: TypeV) -> SchemeV {
    (Seq::empty(), t)
}

/// A scheme over one variable as a value.
pub open spec fn poly1_v(v: TypeVar, t: TypeV) -> SchemeV {
    (seq![v], t)
}

/// The type of a binary operator on one variable `v` returning `r`.
pub open spec fn binop_v(v: TypeV, r: TypeV) -> TypeV {
    TypeV::Fn(seq![v, v], Box::new(r))
}

/// The built-in constants and element constructors.
pub open spec fn builtin_values() -> Map<Seq<char>, SchemeV> {
    Map::empty()
        .insert("triple_axel"@, mono_v(TypeV::Jump))
        .insert("triple_lutz"@, mono_v(TypeV::Jump))
        .insert("triple_flip"@, mono_v(TypeV::Jump))
        .insert("triple_loop"@, mono_v(TypeV::Jump))
        .insert("triple_salchow"@, mono_v(TypeV::Jump))
        .insert("triple_toe_loop"@, mono_v(TypeV::Jump))
        .insert("quad_axel"@, mono_v(TypeV::Jump))
        .insert("quad_lutz"@, mono_v(TypeV::Jump))
        .insert("seconds"@, mono_v(TypeV::Fn(seq![TypeV::Float], Box::new(TypeV::Duration))))
        .insert("minutes"@, mono_v(TypeV::Fn(seq![TypeV::Float], Box::new(TypeV::Duration))))
        .insert("center"@, mono_v(TypeV::Position))
        .insert("corner"@, mono_v(TypeV::Fn(seq![TypeV::Int], Box::new(TypeV::Position))))
        .insert("offset"@, mono_v(TypeV::Fn(seq![TypeV::Position, TypeV::Float, TypeV::Float], Box::new(TypeV::Position))))
}

/// `m` with the built-in operators added, their three type variables
/// numbered from `c`.
pub open spec fn builtin_operators(m: Map<Seq<char>, SchemeV>, c: u32) -> Map<Seq<char>, SchemeV> {
    let num = TypeVar(c);
    let ord = TypeVar(crate::typing::ty::counter_after(c, 1));
    let eq = TypeVar(crate::typing::ty::counter_after(c, 2));
    m
        .insert("+"@, poly1_v(num, binop_v(TypeV::Var(num), TypeV::Var(num))))
        .insert("-"@, poly1_v(num, binop_v(TypeV::Var(num), TypeV::Var(num))))
        .insert("*"@, poly1_v(num, binop_v(TypeV::Var(num), TypeV::Var(num))))
        .insert("/"@, poly1_v(num, binop_v(TypeV::Var(num), TypeV::Var(num))))
        .insert("<"@, poly1_v(ord, binop_v(TypeV::Var(ord), TypeV::Bool)))
        .insert("<="@, poly1_v(ord, binop_v(TypeV::Var(ord), TypeV::Bool)))
        .insert(">"@, poly1_v(ord, binop_v(TypeV::Var(ord), TypeV::Bool)))
        .insert(">="@, poly1_v(ord, binop_v(TypeV::Var(ord), TypeV::Bool)))
        .insert("=="@, poly1_v(eq, binop_v(TypeV::Var(eq), TypeV::Bool)))
        .insert("!="@, poly1_v(eq, binop_v(TypeV::Var(eq), TypeV::Bool)))
        .insert("&&"@, mono_v(binop_v(TypeV::Bool, TypeV::Bool)))
        .insert("||"@, mono_v(binop_v(TypeV::Bool, TypeV::Bool)))
        .insert("!"@, mono_v(TypeV::Fn(seq![TypeV::Bool], Box::new(TypeV::Bool))))
}

/// The built-in bindings, with the three operator variables numbered from `c`.
pub open spec fn builtins(c: u32) -> Map<Seq<char>, SchemeV> {
    builtin_operators(builtin_values(), c)
}

/// The type environment.
pub struct TypeEnv {
    /// Variable bindings, one list per scope, the innermost last.
    bindings: Vec<Vec<(String, TypeScheme)>>,
    /// Type definitions.
    types: Vec<(String, TypeDef)>,
}

impl TypeEnv {
    /// The scopes, outermost first, each a map from names to schemes.
    pub closed spec fn scopes(&self) -> Seq<Map<Seq<char>, SchemeV>> {
        self.bindings@.map_values(|s: Vec<(String, TypeScheme)>| scope_view(s@))
    }

    /// The type definitions by name.
    pub closed spec fn type_defs(&self) -> Map<Seq<char>, TypeDefV> {
        entries_map(self.types@, |d: TypeDef| typedef_view(d))
    }

    /// Well-formedness: at least one scope, and no name twice in a scope or
    /// among the type definitions.
    pub closed spec fn wf(&self) -> bool {
        &&& self.bindings@.len() >= 1
        &&& forall|k: int| 0 <= k < self.bindings@.len() ==> distinct_names(#[trigger] self.bindings@[k]@)
        &&& distinct_names(self.types@)
    }

    /// Create a new environment holding the built-in bindings, whose three
    /// operator type variables are drawn from `counter`.
    pub fn new(counter: &mut u32) -> (env: TypeEnv)
        ensures
            env.wf(),
            env.scopes() == seq![builtins(*old(counter))],
            env.type_defs() == Map::<Seq<char>, TypeDefV>::empty(),
            *final(counter) == crate::typing::ty::counter_after(*old(counter), 3),
    {
        let mut first: Vec<(String, TypeScheme)> = Vec::new();
        let mut bindings: Vec<Vec<(String, TypeScheme)>> = Vec::new();
        bindings.push(first);
        let mut env = TypeEnv { bindings, types: Vec::new() };
        proof {
            assert(env.scopes() =~= seq![Map::<Seq<char>, SchemeV>::empty()]);
            assert(env.type_defs() =~= Map::<Seq<char>, TypeDefV>::empty());
        }
        env.init_builtins(counter);
        env
    }

    /// Define the built-in types and functions.
    fn init_builtins(&mut self, counter: &mut u32)
        requires
            old(self).wf(),
            old(self).scopes() == seq![Map::<Seq<char>, SchemeV>::empty()],
        ensures
            final(self).wf(),
            final(self).scopes() == seq![builtins(*old(counter))],
            final(self).type_defs() == old(self).type_defs(),
            *final(counter) == crate::typing::ty::counter_after(*old(counter), 3),
    {
        self.init_builtin_values();
        self.init_builtin_operators(counter);
    }

    /// Define the built-in constants and element constructors.
    #[verifier::rlimit(40)]
    fn init_builtin_values(&mut self)
        requires
            old(self).wf(),
            old(self).scopes() == seq![Map::<Seq<char>, SchemeV>::empty()],
        ensures
            final(self).wf(),
            final(self).scopes() == seq![builtin_values()],
            final(self).type_defs() == old(self).type_defs(),
    {
        let s0 = TypeScheme::mono(Type::Jump);
        self.define("triple_axel", s0);
        let s1 = TypeScheme::mono(Type::Jump);
        self.define("triple_lutz", s1);
        let s2 = TypeScheme::mono(Type::Jump);
        self.define("triple_flip", s2);
        let s3 = TypeScheme::mono(Type::Jump);
        self.define("triple_loop", s3);
        let s4 = TypeScheme::mono(Type::Jump);
        self.define("triple_salchow", s4);
        let s5 = TypeScheme::mono(Type::Jump);
        self.define("triple_toe_loop", s5);
        let s6 = TypeScheme::mono(Type::Jump);
        self.define("quad_axel", s6);
        let s7 = TypeScheme::mono(Type::Jump);
        self.define("quad_lutz", s7);
        let s8 = TypeScheme::mono(fn_type1(Type::Float, Type::Duration));
        self.define("seconds", s8);
        let s9 = TypeScheme::mono(fn_type1(Type::Float, Type::Duration));
        self.define("minutes", s9);
        let s10 = TypeScheme::mono(Type::Position);
        self.define("center", s10);
        let s11 = TypeScheme::mono(fn_type1(Type::Int, Type::Position));
        self.define("corner", s11);
        let s12 = TypeScheme::mono(fn_type3(Type::Position, Type::Float, Type::Float, Type::Position));
        self.define("offset", s12);
        proof {
            assert(self.scopes() =~= seq![builtin_values()]);
        }
    }

    /// Define the built-in operators, drawing their type variables from
    /// `counter`.
    #[verifier::rlimit(40)]
    fn init_builtin_operators(&mut self, counter: &mut u32)
        requires
            old(self).wf(),
            old(self).scopes().len() == 1,
        ensures
            final(self).wf(),
            final(self).scopes() == seq![builtin_operators(old(self).scopes()[0], *old(counter))],
            final(self).type_defs() == old(self).type_defs(),
            *final(counter) == crate::typing::ty::counter_after(*old(counter), 3),
    {
        let ghost c = *counter;
        let ghost m = self.scopes()[0];
        let num = TypeVar::fresh(counter);
        let s13 = TypeScheme::poly(one_var(num), fn_type2(Type::Var(num), Type::Var(num), Type::Var(num)));
        self.define("+", s13);
        let s14 = TypeScheme::poly(one_var(num), fn_type2(Type::Var(num), Type::Var(num), Type::Var(num)));
        self.define("-", s14);
        let s15 = TypeScheme::poly(one_var(num), fn_type2(Type::Var(num), Type::Var(num), Type::Var(num)));
        self.define("*", s15);
        let s16 = TypeScheme::poly(one_var(num), fn_type2(Type::Var(num), Type::Var(num), Type::Var(num)));
        self.define("/", s16);
        let ord = TypeVar::fresh(counter);
        let s17 = TypeScheme::poly(one_var(ord), fn_type2(Type::Var(ord), Type::Var(ord), Type::Bool));
        self.define("<", s17);
        let s18 = TypeScheme::poly(one_var(ord), fn_type2(Type::Var(ord), Type::Var(ord), Type::Bool));
        self.define("<=", s18);
        let s19 = TypeScheme::poly(one_var(ord), fn_type2(Type::Var(ord), Type::Var(ord), Type::Bool));
        self.define(">", s19);
        let s20 = TypeScheme::poly(one_var(ord), fn_type2(Type::Var(ord), Type::Var(ord), Type::Bool));
        self.define(">=", s20);
        let eq = TypeVar::fresh(counter);
        let s21 = TypeScheme::poly(one_var(eq), fn_type2(Type::Var(eq), Type::Var(eq), Type::Bool));
        self.define("==", s21);
        let s22 = TypeScheme::poly(one_var(eq), fn_type2(Type::Var(eq), Type::Var(eq), Type::Bool));
        self.define("!=", s22);
        let s23 = TypeScheme::mono(fn_type2(Type::Bool, Type::Bool, Type::Bool));
        self.define("&&", s23);
        let s24 = TypeScheme::mono(fn_type2(Type::Bool, Type::Bool, Type::Bool));
        self.define("||", s24);
        let s25 = TypeScheme::mono(fn_type1(Type::Bool, Type::Bool));
        self.define("!", s25);
        proof {
            assert(num == TypeVar(c));
            assert(ord == TypeVar(crate::typing::ty::counter_after(c, 1)));
            assert(eq == TypeVar(crate::typing::ty::counter_after(c, 2)));
            assert(self.scopes() =~= seq![builtin_operators(m, c)]);
        }
    }

    /// Push a new, empty scope.
    pub fn push_scope(&mut self)
        requires
            old(self).wf(),
        ensures
            final(self).wf(),
            final(self).scopes() == old(self).scopes().push(Map::empty()),
            final(self).scopes().len() >= 2,
            final(self).type_defs() == old(self).type_defs(),
    {
        let v: Vec<(String, TypeScheme)> = Vec::new();
        self.bindings.push(v);
        proof {
            assert(scope_view(Seq::<(String, TypeScheme)>::empty()) =~= Map::empty());
            assert(self.scopes() =~= old(self).scopes().push(Map::empty()));
        }
    }

    /// Pop the current scope, unless it is the outermost one.
    pub fn pop_scope(&mut self)
        requires
            old(self).wf(),
        ensures
            final(self).wf(),
            final(self).scopes() == (if old(self).scopes().len() > 1 {
                old(self).scopes().drop_last()
            } else {
                old(self).scopes()
            }),
            final(self).type_defs() == old(self).type_defs(),
    {
        if self.bindings.len() > 1 {
            let _ = self.bindings.pop();
            proof {
                assert(self.scopes() =~= old(self).scopes().drop_last());
            }
        }
    }

    /// Define a variable in the current scope, replacing a binding of the
    /// same name there.
    pub fn define(&mut self, name: &str, scheme: TypeScheme)
        requires
            old(self).wf(),
        ensures
            final(self).wf(),
            final(self).scopes() == define_in(old(self).scopes(), name@, scheme_view(scheme)),
            final(self).type_defs() == old(self).type_defs(),
            lookup_scopes(final(self).scopes(), name@) == Some(scheme_view(scheme)),
            forall|x: Seq<char>| x != name@ ==> #[trigger] lookup_scopes(final(self).scopes(), x) == lookup_scopes(old(self).scopes(), x),
    {
        let last = self.bindings.len() - 1;
        let mut scope: Vec<(String, TypeScheme)> = Vec::new();
        std::mem::swap(&mut scope, &mut self.bindings[last]);
        let ghost old_scope = scope@;
        let mut i: usize = 0;
        let mut found = false;
        while i < scope.len()
            invariant_except_break
                i <= scope@.len(),
                !found,
                scope@ == old_scope,
                forall|j: int| 0 <= j < i ==> scope@[j].0@ != name@,
            ensures
                scope@ == old_scope,
                found ==> i < scope@.len() && scope@[i as int].0@ == name@,
                !found ==> forall|j: int| 0 <= j < scope@.len() ==> scope@[j].0@ != name@,
            decreases scope@.len() - i,
        {
            if str_eq(scope[i].0.as_str(), name) {
                found = true;
                break;
            }
            i = i + 1;
        }
        let ghost sv = scheme_view(scheme);
        if found {
            let key = string_of(name);
            proof {
                lemma_entries_map_update(old_scope, |t: TypeScheme| scheme_view(t), i as int, scheme);
            }
            scope.set(i, (key, scheme));
            proof {
                let t = old_scope.update(i as int, (old_scope[i as int].0, scheme));
                lemma_entries_map_congruent(scope@, t, |t: TypeScheme| scheme_view(t));
            }
        } else {
            scope.push((string_of(name), scheme));
            proof {
                assert(scope@.drop_last() =~= old_scope);
            }
        }
        self.bindings.set(last, scope);
        proof {
            assert(self.bindings@ =~= old(self).bindings@.update(last as int, scope));
            assert(self.bindings@[last as int]@ == scope@);
            assert(self.scopes() =~= define_in(old(self).scopes(), name@, sv));
            law_lookup_after_define(old(self).scopes(), name@, sv);
            assert forall|x: Seq<char>| x != name@ implies #[trigger] lookup_scopes(self.scopes(), x) == lookup_scopes(old(self).scopes(), x) by {
                lemma_lookup_define_other(old(self).scopes(), name@, sv, x, old(self).scopes().len() as int);
            }
            assert forall|k: int| 0 <= k < self.bindings@.len() implies distinct_names(#[trigger] self.bindings@[k]@) by {
                if k != last {
                    assert(self.bindings@[k] == old(self).bindings@[k]);
                }
            }
        }
    }

    /// Look up a variable: its scheme in the innermost scope that binds it.
    pub fn lookup(&self, name: &str) -> (r: Option<&TypeScheme>)
        requires
            self.wf(),
        ensures
            match lookup_scopes(self.scopes(), name@) {
                Some(s) => r matches Some(t) && scheme_view(*t) == s,
                None => r is None,
            },
    {
        let mut k = self.bindings.len();
        while k > 0
            invariant
                k <= self.bindings@.len(),
                self.wf(),
                lookup_scopes(self.scopes(), name@) == lookup_in(self.scopes(), name@, k as int),
            decreases k,
        {
            let j = k - 1;
            let ghost sc = self.bindings@[j as int]@;
            assert(self.scopes()[j as int] == scope_view(sc));
            assert(distinct_names(sc));
            let mut i: usize = 0;
            while i < self.bindings[j].len()
                invariant
                    j < self.bindings@.len(),
                    self.wf(),
                    sc == self.bindings@[j as int]@,
                    distinct_names(sc),
                    self.scopes()[j as int] == scope_view(sc),
                    k == j + 1,
                    lookup_scopes(self.scopes(), name@) == lookup_in(self.scopes(), name@, k as int),
                    i <= sc.len(),
                    forall|m: int| 0 <= m < i ==> sc[m].0@ != name@,
                decreases sc.len() - i,
            {
                if str_eq(self.bindings[j][i].0.as_str(), name) {
                    proof {
                        lemma_entries_map_at(sc, |t: TypeScheme| scheme_view(t), i as int);
                    }
                    return Some(&self.bindings[j][i].1);
                }
                i = i + 1;
            }
            proof {
                lemma_entries_map_keys(sc, |t: TypeScheme| scheme_view(t), name@);
            }
            k = j;
        }
        None
    }

    /// The type variables occurring in the schemes of the first `k` scopes
    /// and of the first `i` bindings of scope `k`.
    spec fn vars_before(&self, k: int, i: int) -> Set<TypeVar> {
        Set::new(|v: TypeVar| exists|k2: int, i2: int| 0 <= k2 < self.bindings@.len()
            && 0 <= i2 < self.bindings@[k2]@.len()
            && (k2 < k || (k2 == k && i2 < i))
            && #[trigger] tv_vars(self.bindings@[k2]@[i2].1.ty@).contains(v))
    }

    proof fn lemma_vars_before_all(&self)
        requires
            self.wf(),
        ensures
            self.vars_before(self.bindings@.len() as int, 0) == env_vars(self.scopes()),
    {
        let n = self.bindings@.len() as int;
        assert forall|v: TypeVar| self.vars_before(n, 0).contains(v) implies env_vars(self.scopes()).contains(v) by {
            let (k2, i2) = choose|k2: int, i2: int| 0 <= k2 < self.bindings@.len()
                && 0 <= i2 < self.bindings@[k2]@.len()
                && (k2 < n || (k2 == n && i2 < 0))
                && #[trigger] tv_vars(self.bindings@[k2]@[i2].1.ty@).contains(v);
            let sc = self.bindings@[k2]@;
            assert(distinct_names(sc));
            lemma_entries_map_at(sc, |t: TypeScheme| scheme_view(t), i2);
            assert(self.scopes()[k2] == scope_view(sc));
            assert(self.scopes()[k2].contains_key(sc[i2].0@));
        }
        assert forall|v: TypeVar| env_vars(self.scopes()).contains(v) implies self.vars_before(n, 0).contains(v) by {
            let (k2, nm) = choose|k2: int, nm: Seq<char>| 0 <= k2 < self.scopes().len() && #[trigger] self.scopes()[k2].contains_key(nm)
                && tv_vars(self.scopes()[k2][nm].1).contains(v);
            let sc = self.bindings@[k2]@;
            assert(self.scopes()[k2] == scope_view(sc));
            lemma_entries_map_keys(sc, |t: TypeScheme| scheme_view(t), nm);
            let i2 = choose|i: int| 0 <= i < sc.len() && sc[i].0@ == nm;
            lemma_entries_map_at(sc, |t: TypeScheme| scheme_view(t), i2);
            assert(tv_vars(self.bindings@[k2]@[i2].1.ty@).contains(v));
        }
        assert(self.vars_before(n, 0) =~= env_vars(self.scopes()));
    }

    /// Generalize a type to a type scheme: its type variables that occur in
    /// no scheme of the environment become quantified, in order of first
    /// occurrence.
    pub fn generalize(&self, ty: &Type) -> (s: TypeScheme)
        requires
            self.wf(),
        ensures
            s.vars@ == without(add_new(Seq::empty(), tv_vars(ty@)), env_vars(self.scopes())),
            s.ty@ == ty@,
            tv_vars(ty@).len() == 0 ==> s.vars@.len() == 0,
    {
        proof {
            if tv_vars(ty@).len() == 0 {
                let out = env_vars(self.scopes());
                assert(add_new(Seq::empty(), tv_vars(ty@)) == Seq::<TypeVar>::empty());
                Seq::<TypeVar>::empty().lemma_filter_len(|v: TypeVar| !out.contains(v));
            }
        }
        let mut free_in_env: Vec<TypeVar> = Vec::new();
        let mut k: usize = 0;
        while k < self.bindings.len()
            invariant
                k <= self.bindings@.len(),
                self.wf(),
                forall|v: TypeVar| free_in_env@.contains(v) <==> self.vars_before(k as int, 0).contains(v),
            decreases self.bindings@.len() - k,
        {
            let mut i: usize = 0;
            while i < self.bindings[k].len()
                invariant
                    k < self.bindings@.len(),
                    i <= self.bindings@[k as int]@.len(),
                    self.wf(),
                    forall|v: TypeVar| free_in_env@.contains(v) <==> self.vars_before(k as int, i as int).contains(v),
                decreases self.bindings@[k as int]@.len() - i,
            {
                let vs = self.bindings[k][i].1.ty.free_vars();
                let ghost before = free_in_env@;
                let mut j: usize = 0;
                while j < vs.len()
                    invariant
                        j <= vs@.len(),
                        free_in_env@ == before + vs@.take(j as int),
                    decreases vs@.len() - j,
                {
                    free_in_env.push(vs[j]);
                    proof {
                        assert(vs@.take(j + 1) =~= vs@.take(j as int).push(vs@[j as int]));
                    }
                    j = j + 1;
                }
                proof {
                    assert(vs@.take(j as int) =~= vs@);
                    crate::typing::ty::law_free_vars_distinct_and_complete(self.bindings@[k as int]@[i as int].1.ty@);
                    let ghost tys = self.bindings@[k as int]@[i as int].1.ty@;
                    assert forall|v: TypeVar| free_in_env@.contains(v) <==> self.vars_before(k as int, i + 1).contains(v) by {
                        if free_in_env@.contains(v) {
                            let w = choose|w: int| 0 <= w < free_in_env@.len() && free_in_env@[w] == v;
                            if w < before.len() {
                                assert(before[w] == v);
                                assert(before.contains(v));
                                assert(self.vars_before(k as int, i as int).contains(v));
                                let (k2, i2) = choose|k2: int, i2: int| 0 <= k2 < self.bindings@.len()
                                    && 0 <= i2 < self.bindings@[k2]@.len()
                                    && (k2 < k || (k2 == k && i2 < i))
                                    && #[trigger] tv_vars(self.bindings@[k2]@[i2].1.ty@).contains(v);
                                assert(tv_vars(self.bindings@[k2]@[i2].1.ty@).contains(v));
                            } else {
                                assert(vs@[w - before.len()] == v);
                                assert(vs@.contains(v));
                                assert(tv_vars(tys).contains(v));
                                assert(tv_vars(self.bindings@[k as int]@[i as int].1.ty@).contains(v));
                            }
                        }
                        if self.vars_before(k as int, i + 1).contains(v) {
                            let (k2, i2) = choose|k2: int, i2: int| 0 <= k2 < self.bindings@.len()
                                && 0 <= i2 < self.bindings@[k2]@.len()
                                && (k2 < k || (k2 == k && i2 < i + 1))
                                && #[trigger] tv_vars(self.bindings@[k2]@[i2].1.ty@).contains(v);
                            if k2 == k && i2 == i {
                                assert(vs@.contains(v));
                                let w = choose|w: int| 0 <= w < vs@.len() && vs@[w] == v;
                                assert(free_in_env@[before.len() + w] == v);
                            } else {
                                assert(self.vars_before(k as int, i as int).contains(v));
                                assert(before.contains(v));
                                let w = choose|w: int| 0 <= w < before.len() && before[w] == v;
                                assert(free_in_env@[w] == v);
                            }
                        }
                    }
                }
                i = i + 1;
            }
            proof {
                assert forall|v: TypeVar| self.vars_before(k as int, i as int).contains(v) <==> self.vars_before(k + 1, 0).contains(v) by {
                    if self.vars_before(k + 1, 0).contains(v) {
                        let (k2, i2) = choose|k2: int, i2: int| 0 <= k2 < self.bindings@.len()
                            && 0 <= i2 < self.bindings@[k2]@.len()
                            && (k2 < k + 1 || (k2 == k + 1 && i2 < 0))
                            && #[trigger] tv_vars(self.bindings@[k2]@[i2].1.ty@).contains(v);
                    }
                }
            }
            k = k + 1;
        }
        proof {
            self.lemma_vars_before_all();
        }
        let tvars = ty.free_vars();
        let ghost env = env_vars(self.scopes());
        let ghost pred = |v: TypeVar| !env.contains(v);
        let mut quantified: Vec<TypeVar> = Vec::new();
        let mut j: usize = 0;
        while j < tvars.len()
            invariant
                j <= tvars@.len(),
                forall|v: TypeVar| free_in_env@.contains(v) <==> env.contains(v),
                pred == (|v: TypeVar| !env.contains(v)),
                quantified@ == tvars@.take(j as int).filter(pred),
            decreases tvars@.len() - j,
        {
            proof {
                reveal(Seq::filter);
                assert(tvars@.take(j + 1).drop_last() =~= tvars@.take(j as int));
            }
            if !vec_contains(&free_in_env, &tvars[j]) {
                quantified.push(tvars[j]);
            }
            j = j + 1;
        }
        proof {
            assert(tvars@.take(j as int) =~= tvars@);
        }
        TypeScheme::poly(quantified, ty.deep_clone())
    }

    /// All bindings in scope, scope by scope from the outermost; a name bound
    /// in several scopes is listed once for each.
    pub fn all_bindings(&self) -> (r: Vec<(&String, &TypeScheme)>)
        requires
            self.wf(),
        ensures
            forall|i: int| 0 <= i < r@.len() ==> #[trigger] binds_somewhere(self.scopes(), r@[i].0@, scheme_view(*r@[i].1)),
            forall|k: int, n: Seq<char>| 0 <= k < self.scopes().len() && #[trigger] self.scopes()[k].contains_key(n)
                ==> exists|i: int| 0 <= i < r@.len() && r@[i].0@ == n && scheme_view(*r@[i].1) == self.scopes()[k][n],
    {
        let mut r: Vec<(&String, &TypeScheme)> = Vec::new();
        let ghost mut idx: Seq<(int, int)> = Seq::empty();
        let mut k: usize = 0;
        while k < self.bindings.len()
            invariant
                k <= self.bindings@.len(),
                self.wf(),
                idx.len() == r@.len(),
                forall|j: int| #![trigger idx[j]] 0 <= j < idx.len() ==> 0 <= idx[j].0 < k && 0 <= idx[j].1 < self.bindings@[idx[j].0]@.len()
                    && r@[j].0 == &self.bindings@[idx[j].0]@[idx[j].1].0 && r@[j].1 == &self.bindings@[idx[j].0]@[idx[j].1].1,
                forall|k2: int, i2: int| 0 <= k2 < k && 0 <= i2 < self.bindings@[k2]@.len()
                    ==> #[trigger] idx.contains((k2, i2)),
            decreases self.bindings@.len() - k,
        {
            let mut i: usize = 0;
            while i < self.bindings[k].len()
                invariant
                    k < self.bindings@.len(),
                    i <= self.bindings@[k as int]@.len(),
                    self.wf(),
                    idx.len() == r@.len(),
                    forall|j: int| #![trigger idx[j]] 0 <= j < idx.len() ==> 0 <= idx[j].0 <= k && 0 <= idx[j].1 < self.bindings@[idx[j].0]@.len()
                        && r@[j].0 == &self.bindings@[idx[j].0]@[idx[j].1].0 && r@[j].1 == &self.bindings@[idx[j].0]@[idx[j].1].1,
                    forall|k2: int, i2: int| 0 <= k2 <= k && 0 <= i2 < self.bindings@[k2]@.len() && (k2 < k || i2 < i)
                        ==> #[trigger] idx.contains((k2, i2)),
                decreases self.bindings@[k as int]@.len() - i,
            {
                let ghost idx0 = idx;
                r.push((&self.bindings[k][i].0, &self.bindings[k][i].1));
                proof {
                    idx = idx.push((k as int, i as int));
                    assert forall|k2: int, i2: int| 0 <= k2 <= k && 0 <= i2 < self.bindings@[k2]@.len() && (k2 < k || i2 < i + 1)
                        implies #[trigger] idx.contains((k2, i2)) by {
                        if k2 == k && i2 == i {
                            assert(idx[idx.len() - 1] == (k2, i2));
                        } else {
                            assert(idx0.contains((k2, i2)));
                            let w = choose|w: int| 0 <= w < idx0.len() && idx0[w] == (k2, i2);
                            assert(idx[w] == idx0[w]);
                        }
                    }
                    assert forall|j: int| #![trigger idx[j]] 0 <= j < idx.len() implies 0 <= idx[j].0 <= k && 0 <= idx[j].1 < self.bindings@[idx[j].0]@.len()
                        && r@[j].0 == &self.bindings@[idx[j].0]@[idx[j].1].0 && r@[j].1 == &self.bindings@[idx[j].0]@[idx[j].1].1 by {
                        if j < idx0.len() {
                            assert(idx[j] == idx0[j]);
                        }
                    }
                }
                i = i + 1;
            }
            k = k + 1;
        }
        proof {
            assert forall|i: int| 0 <= i < r@.len() implies #[trigger] binds_somewhere(self.scopes(), r@[i].0@, scheme_view(*r@[i].1)) by {
                let (k2, i2) = idx[i];
                let sc = self.bindings@[k2]@;
                assert(distinct_names(sc));
                lemma_entries_map_at(sc, |t: TypeScheme| scheme_view(t), i2);
                assert(self.scopes()[k2] == scope_view(sc));
                assert(self.scopes()[k2].contains_key(r@[i].0@));
                assert(r@[i].0@ == sc[i2].0@);
                assert(*r@[i].1 == sc[i2].1);
                assert(self.scopes()[k2][r@[i].0@] == scheme_view(*r@[i].1));
                assert(0 <= k2 < self.scopes().len());
            }
            assert forall|k2: int, n: Seq<char>| 0 <= k2 < self.scopes().len() && #[trigger] self.scopes()[k2].contains_key(n)
                implies exists|i: int| 0 <= i < r@.len() && r@[i].0@ == n && scheme_view(*r@[i].1) == self.scopes()[k2][n] by {
                let sc = self.bindings@[k2]@;
                assert(self.scopes()[k2] == scope_view(sc));
                lemma_entries_map_keys(sc, |t: TypeScheme| scheme_view(t), n);
                let i2 = choose|i: int| 0 <= i < sc.len() && sc[i].0@ == n;
                lemma_entries_map_at(sc, |t: TypeScheme| scheme_view(t), i2);
                assert(idx.contains((k2, i2)));
                let w = choose|w: int| 0 <= w < idx.len() && idx[w] == (k2, i2);
                assert(r@[w].0@ == n);
            }
        }
        r
    }

    /// Define a type, replacing a definition of the same name.
    pub fn define_type(&mut self, name: &str, def: TypeDef)
        requires
            old(self).wf(),
        ensures
            final(self).wf(),
            final(self).scopes() == old(self).scopes(),
            final(self).type_defs() == old(self).type_defs().insert(name@, typedef_view(def)),
    {
        let mut i: usize = 0;
        let mut found = false;
        while i < self.types.len()
            invariant_except_break
                i <= self.types@.len(),
                !found,
                self.types@ == old(self).types@,
                forall|j: int| 0 <= j < i ==> self.types@[j].0@ != name@,
            ensures
                self.types@ == old(self).types@,
                found ==> i < self.types@.len() && self.types@[i as int].0@ == name@,
                !found ==> forall|j: int| 0 <= j < self.types@.len() ==> self.types@[j].0@ != name@,
            decreases self.types@.len() - i,
        {
            if str_eq(self.types[i].0.as_str(), name) {
                found = true;
                break;
            }
            i = i + 1;
        }
        let ghost old_types = self.types@;
        if found {
            proof {
                lemma_entries_map_update(old_types, |d: TypeDef| typedef_view(d), i as int, def);
            }
            self.types.set(i, (string_of(name), def));
            proof {
                let t = old_types.update(i as int, (old_types[i as int].0, def));
                lemma_entries_map_congruent(self.types@, t, |d: TypeDef| typedef_view(d));
            }
        } else {
            self.types.push((string_of(name), def));
            proof {
                assert(self.types@.drop_last() =~= old_types);
            }
        }
        proof {
            assert(self.scopes() =~= old(self).scopes());
        }
    }

    /// Look up a type definition.
    pub fn lookup_type(&self, name: &str) -> (r: Option<&TypeDef>)
        requires
            self.wf(),
        ensures
            match self.type_defs().get(name@) {
                Some(d) => r matches Some(t) && typedef_view(*t) == d,
                None => r is None,
            },
    {
        let mut i: usize = 0;
        while i < self.types.len()
            invariant
                i <= self.types@.len(),
                self.wf(),
                forall|j: int| 0 <= j < i ==> self.types@[j].0@ != name@,
            decreases self.types@.len() - i,
        {
            if str_eq(self.types[i].0.as_str(), name) {
                proof {
                    lemma_entries_map_at(self.types@, |d: TypeDef| typedef_view(d), i as int);
                }
                return Some(&self.types[i].1);
            }
            i = i + 1;
        }
        proof {
            lemma_entries_map_keys(self.types@, |d: TypeDef| typedef_view(d), name@);
        }
        None
    }
}

/// A name defined in the innermost scope is found with the scheme it was
/// given.
pub proof fn law_lookup_after_define(scopes: Seq<Map<Seq<char>, SchemeV>>, name: Seq<char>, s: SchemeV)
    requires
        scopes.len() >= 1,
    ensures
        lookup_scopes(define_in(scopes, name, s), name) == Some(s),
{
}

/// A binding made in a pushed scope shadows outer bindings of its name,
/// leaves every other name's lookup as it was, and is gone once the scope
/// is popped.
pub proof fn law_scoped_define(scopes: Seq<Map<Seq<char>, SchemeV>>, name: Seq<char>, s: SchemeV, other: Seq<char>)
    requires
        scopes.len() >= 1,
    ensures
        lookup_scopes(define_in(scopes.push(Map::empty()), name, s), name) == Some(s),
        other != name ==> lookup_scopes(define_in(scopes.push(Map::empty()), name, s), other) == lookup_scopes(scopes, other),
        define_in(scopes.push(Map::empty()), name, s).drop_last() == scopes,
{
    let inner = define_in(scopes.push(Map::empty()), name, s);
    assert(inner.drop_last() =~= scopes);
    if other != name {
        assert(!inner[scopes.len() as int].contains_key(other));
        lemma_lookup_prefix(inner, scopes, other, scopes.len() as int);
    }
}

/// An empty innermost scope changes no lookup.
pub proof fn lemma_lookup_push_empty(scopes: Seq<Map<Seq<char>, SchemeV>>, x: Seq<char>)
    ensures
        lookup_scopes(scopes.push(Map::empty()), x) == lookup_scopes(scopes, x),
{
    let s2 = scopes.push(Map::empty());
    assert(!s2[s2.len() - 1].contains_key(x));
    lemma_lookup_prefix(s2, scopes, x, scopes.len() as int);
}

/// Binding a name leaves the lookup of every other name as it was.
proof fn lemma_lookup_define_other(scopes: Seq<Map<Seq<char>, SchemeV>>, name: Seq<char>, s: SchemeV, other: Seq<char>, n: int)
    requires
        scopes.len() >= 1,
        0 <= n <= scopes.len(),
        other != name,
    ensures
        lookup_in(define_in(scopes, name, s), other, n) == lookup_in(scopes, other, n),
    decreases n,
{
    let d = define_in(scopes, name, s);
    if n > 0 {
        assert(d[n - 1].contains_key(other) == scopes[n - 1].contains_key(other));
        if scopes[n - 1].contains_key(other) {
            assert(d[n - 1][other] == scopes[n - 1][other]);
        }
        lemma_lookup_define_other(scopes, name, s, other, n - 1);
    }
}

proof fn lemma_lookup_prefix(a: Seq<Map<Seq<char>, SchemeV>>, b: Seq<Map<Seq<char>, SchemeV>>, name: Seq<char>, n: int)
    requires
        0 <= n <= b.len(),
        n <= a.len(),
        forall|j: int| 0 <= j < n ==> a[j] == b[j],
    ensures
        lookup_in(a, name, n) == lookup_in(b, name, n),
    decreases n,
{
    if n > 0 {
        lemma_lookup_prefix(a, b, name, n - 1);
    }
}

/// A list of one type variable.
fn one_var(v: TypeVar) -> (r: Vec<TypeVar>)
    ensures
        r@ == seq![v],
{
    let mut r: Vec<TypeVar> = Vec::new();
    r.push(v);
    r
}

/// A function type with one parameter.
fn fn_type1(a: Type, r: Type) -> (t: Type)
    ensures
        t@ == TypeV::Fn(seq![a@], Box::new(r@)),
{
    let mut ps: Vec<Type> = Vec::new();
    ps.push(a);
    let t = Type::Fn(ps, Box::new(r));
    proof {
        reveal_with_fuel(crate::typing::ty::tviews, 2);
        assert(crate::typing::ty::tviews(seq![a]) =~= seq![a@]);
    }
    t
}

/// A function type with two parameters.
fn fn_type2(a: Type, b: Type, r: Type) -> (t: Type)
    ensures
        t@ == TypeV::Fn(seq![a@, b@], Box::new(r@)),
{
    let t = Type::Fn(vec![a, b], Box::new(r));
    proof {
        reveal_with_fuel(crate::typing::ty::tviews, 3);
        assert(crate::typing::ty::tviews(seq![a, b]) =~= seq![a@, b@]);
    }
    t
}

/// A function type with three parameters.
fn fn_type3(a: Type, b: Type, c: Type, r: Type) -> (t: Type)
    ensures
        t@ == TypeV::Fn(seq![a@, b@, c@], Box::new(r@)),
{
    let t = Type::Fn(vec![a, b, c], Box::new(r));
    proof {
        reveal_with_fuel(crate::typing::ty::tviews, 4);
        assert(crate::typing::ty::tviews(seq![a, b, c]) =~= seq![a@, b@, c@]);
    }
    t
}

/// Entries with equal names and values stand for the same map.
proof fn lemma_entries_map_congruent<T, V>(s: Seq<(String, T)>, t: Seq<(String, T)>, f: spec_fn(T) -> V)
    requires
        s.len() == t.len(),
        forall|j: int| 0 <= j < s.len() ==> s[j].0@ == t[j].0@ && s[j].1 == t[j].1,
    ensures
        entries_map(s, f) == entries_map(t, f),
    decreases s.len(),
{
    if s.len() > 0 {
        lemma_entries_map_congruent(s.drop_last(), t.drop_last(), f);
    }
}

} // verus!
