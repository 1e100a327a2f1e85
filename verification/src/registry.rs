//! The ADT registry: declared types, their constructors, effects, and the
//! built-in type arities.
//!
//! Each table is a list of entries in declaration order; a later entry for
//! a name replaces an earlier one, so every table reads as a map from names
//! to the last declaration made under them.
use vstd::prelude::*;

use crate::names::ModuleName;
use crate::wire::ops::clone_tys;
use crate::wire::value::{fields_ty_v, lemma_fields_ty_v, lemma_tys_v, tys_v, Ty, TyV};

verus! {

// ── keyed tables ────────────────────────────────────────────────

/// The map a list of named entries denotes: each name to the view of its
/// last entry.
pub open spec fn keyed<T: View>(e: Seq<(String, T)>) -> Map<Seq<char>, T::V>
    decreases e.len(),
{
    if e.len() == 0 {
        Map::empty()
    } else {
        keyed(e.drop_last()).insert(e.last().0@, e.last().1@)
    }
}

/// A name maps to the view of its last entry, and is absent when no entry
/// bears it.
pub proof fn lemma_keyed_last<T: View>(e: Seq<(String, T)>, i: int, k: Seq<char>)
    requires
        -1 <= i < e.len(),
        i >= 0 ==> e[i].0@ == k,
        forall|j: int| i < j < e.len() ==> #[trigger] e[j].0@ != k,
    ensures
        i >= 0 ==> keyed(e).contains_key(k) && keyed(e)[k] == e[i].1@,
        i < 0 ==> !keyed(e).contains_key(k),
    decreases e.len(),
{
    if e.len() > 0 && i != e.len() - 1 {
        assert forall|j: int| i < j < e.len() - 1 implies #[trigger] e.drop_last()[j].0@ != k by {
            assert(e[j].0@ != k);
        }
        assert(e[e.len() - 1].0@ != k);
        lemma_keyed_last(e.drop_last(), i, k);
    }
}

/// A keyed table has finitely many names.
pub proof fn lemma_keyed_finite<T: View>(e: Seq<(String, T)>)
    ensures
        keyed(e).dom().finite(),
    decreases e.len(),
{
    if e.len() > 0 {
        lemma_keyed_finite(e.drop_last());
    }
}

/// Pushing an entry maps its name to it and leaves the other names alone.
pub proof fn lemma_keyed_push<T: View>(e: Seq<(String, T)>, x: (String, T))
    ensures
        keyed(e.push(x)) == keyed(e).insert(x.0@, x.1@),
{
    assert(e.push(x).drop_last() =~= e);
}

/// The index of the last entry named `key`, if any.
pub(crate) fn find_last<T>(e: &Vec<(String, T)>, key: &str) -> (r: Option<usize>)
    ensures
        r matches Some(i) ==> i < e@.len() && e@[i as int].0@ == key@ && forall|j: int|
            i < j < e@.len() ==> #[trigger] e@[j].0@ != key@,
        r is None ==> forall|j: int| 0 <= j < e@.len() ==> #[trigger] e@[j].0@ != key@,
{
    let mut i = e.len();
    while i > 0
        invariant
            i <= e@.len(),
            forall|j: int| i <= j < e@.len() ==> #[trigger] e@[j].0@ != key@,
        decreases i,
    {
        if crate::wire::replay::str_eq(e[i - 1].0.as_str(), key) {
            return Some(i - 1);
        }
        i = i - 1;
    }
    None
}

// ── entries ─────────────────────────────────────────────────────

/// The views of a list of names.
pub open spec fn names_v(s: Seq<String>) -> Seq<Seq<char>> {
    Seq::new(s.len(), |i: int| s[i]@)
}

/// A declared algebraic data type.
#[derive(Debug)]
pub struct AdtInfo {
    /// Number of type parameters.
    pub arity: usize,
    /// Constructor names in declaration order.
    pub constructors: Vec<String>,
}

/// The view of a declared type: its arity and constructor names.
pub struct AdtV {
    /// Number of type parameters.
    pub arity: nat,
    /// Constructor names in declaration order.
    pub ctors: Seq<Seq<char>>,
}

impl View for AdtInfo {
    type V = AdtV;

    open spec fn view(&self) -> AdtV {
        AdtV { arity: self.arity as nat, ctors: names_v(self.constructors@) }
    }
}

/// A declared data constructor.
///
/// Its field types are positional in the owning type's parameters:
/// `Var(i)` stands for the owner's `i`-th type parameter, so instantiating
/// a constructor at the owner's arguments is substituting them by position.
#[derive(Debug)]
pub struct CtorInfo {
    /// The field types, in order; empty for a nullary constructor.
    pub fields: Vec<Ty>,
    /// The type this constructs.
    pub owner: String,
    /// The module that declares the constructor; `None` for the current
    /// module's own declarations and built-ins.
    pub module: Option<ModuleName>,
    /// Whether the owning type is opaque (constructors module-private).
    pub opaque: bool,
}

/// The view of a declared constructor.
pub struct CtorV {
    /// The field types.
    pub fields: Seq<TyV>,
    /// The owning type's name.
    pub owner: Seq<char>,
    /// The declaring module, if another.
    pub module: Option<Seq<char>>,
    /// Whether the owning type is opaque.
    pub opaque: bool,
}

/// The view of an optional module name.
pub open spec fn module_v(m: Option<ModuleName>) -> Option<Seq<char>> {
    match m {
        Some(n) => Some(n@),
        None => None,
    }
}

impl View for CtorInfo {
    type V = CtorV;

    open spec fn view(&self) -> CtorV {
        CtorV {
            fields: tys_v(self.fields@),
            owner: self.owner@,
            module: module_v(self.module),
            opaque: self.opaque,
        }
    }
}

// ── the registry ────────────────────────────────────────────────

/// The view of a registry: declared types, constructors, and effects by
/// name.
pub struct RegistryV {
    /// Declared types.
    pub adts: Map<Seq<char>, AdtV>,
    /// Declared constructors.
    pub ctors: Map<Seq<char>, CtorV>,
    /// Declared effects and their type-parameter counts.
    pub effects: Map<Seq<char>, usize>,
}

/// Declared types and constructors, plus built-in type arities.
#[derive(Debug)]
pub struct Registry {
    /// Declared (and seeded) types, in declaration order.
    adts: Vec<(String, AdtInfo)>,
    /// Declared (and seeded) constructors, in declaration order.
    ctors: Vec<(String, CtorInfo)>,
    /// Declared effects with their type-parameter counts.
    effects: Vec<(String, usize)>,
}

impl View for Registry {
    type V = RegistryV;

    closed spec fn view(&self) -> RegistryV {
        RegistryV { adts: keyed(self.adts@), ctors: keyed(self.ctors@), effects: keyed(self.effects@) }
    }
}

/// The spelling `Bool`.
pub open spec fn bool_name() -> Seq<char> {
    seq!['B', 'o', 'o', 'l']
}

/// The spelling `True`.
pub open spec fn true_name() -> Seq<char> {
    seq!['T', 'r', 'u', 'e']
}

/// The spelling `False`.
pub open spec fn false_name() -> Seq<char> {
    seq!['F', 'a', 'l', 's', 'e']
}

/// A built-in constructor of `Bool`.
pub open spec fn bool_ctor() -> CtorV {
    CtorV { fields: Seq::empty(), owner: bool_name(), module: None, opaque: false }
}

impl Registry {
    /// A registry holding only the built-in `Bool` type, predeclared as if
    /// `type Bool = True | False` had been written.
    pub fn new() -> (r: Self)
        ensures
            r@.adts == Map::<Seq<char>, AdtV>::empty().insert(
                bool_name(),
                AdtV { arity: 0, ctors: seq![true_name(), false_name()] },
            ),
            r@.ctors == Map::<Seq<char>, CtorV>::empty().insert(true_name(), bool_ctor()).insert(
                false_name(),
                bool_ctor(),
            ),
            r@.effects == Map::<Seq<char>, usize>::empty(),
    {
        let mut r = Registry { adts: Vec::new(), ctors: Vec::new(), effects: Vec::new() };
        let t = String::from_str("True");
        let f = String::from_str("False");
        proof {
            reveal_strlit("Bool");
            reveal_strlit("True");
            reveal_strlit("False");
        }
        let mut cs: Vec<String> = Vec::new();
        cs.push(t);
        cs.push(f);
        proof {
            assert("True"@ =~= true_name());
            assert("False"@ =~= false_name());
            assert(names_v(cs@)[0] == true_name());
            assert(names_v(cs@)[1] == false_name());
            assert(names_v(cs@) =~= seq![true_name(), false_name()]);
        }
        r.declare_adt(String::from_str("Bool"), 0, cs);
        let truth = CtorInfo {
            fields: Vec::new(),
            owner: String::from_str("Bool"),
            module: None,
            opaque: false,
        };
        let falsity = CtorInfo {
            fields: Vec::new(),
            owner: String::from_str("Bool"),
            module: None,
            opaque: false,
        };
        r.declare_ctor(String::from_str("True"), truth);
        r.declare_ctor(String::from_str("False"), falsity);
        proof {
            assert(tys_v(Seq::<Ty>::empty()) =~= Seq::<TyV>::empty());
            assert("Bool"@ =~= bool_name());
            assert(r@.adts =~= Map::<Seq<char>, AdtV>::empty().insert(
                bool_name(),
                AdtV { arity: 0, ctors: seq![true_name(), false_name()] },
            ));
            assert(r@.ctors =~= Map::<Seq<char>, CtorV>::empty().insert(true_name(), bool_ctor()).insert(
                false_name(),
                bool_ctor(),
            ));
        }
        r
    }

    /// Registers a type declaration's header. A later declaration sharing a
    /// name replaces the earlier one.
    pub fn declare_adt(&mut self, name: String, arity: usize, constructors: Vec<String>)
        ensures
            final(self)@.adts == old(self)@.adts.insert(
                name@,
                AdtV { arity: arity as nat, ctors: names_v(constructors@) },
            ),
            final(self)@.ctors == old(self)@.ctors,
            final(self)@.effects == old(self)@.effects,
    {
        proof {
            lemma_keyed_push(self.adts@, (name, AdtInfo { arity, constructors }));
        }
        self.adts.push((name, AdtInfo { arity, constructors }));
    }

    /// Registers a constructor, replacing any declared under its name.
    pub fn declare_ctor(&mut self, name: String, info: CtorInfo)
        ensures
            final(self)@.ctors == old(self)@.ctors.insert(name@, info@),
            final(self)@.adts == old(self)@.adts,
            final(self)@.effects == old(self)@.effects,
    {
        proof {
            lemma_keyed_push(self.ctors@, (name, info));
        }
        self.ctors.push((name, info));
    }

    /// Registers an effect declaration's name and type-parameter count. A
    /// later declaration sharing a name replaces the earlier one.
    pub fn declare_effect(&mut self, name: String, arity: usize)
        ensures
            final(self)@.effects == old(self)@.effects.insert(name@, arity),
            final(self)@.adts == old(self)@.adts,
            final(self)@.ctors == old(self)@.ctors,
    {
        proof {
            lemma_keyed_push(self.effects@, (name, arity));
        }
        self.effects.push((name, arity));
    }

    /// The type-parameter count of effect `name`, if it is declared.
    pub fn effect_arity(&self, name: &str) -> (r: Option<usize>)
        ensures
            r == (if self@.effects.contains_key(name@) {
                Some(self@.effects[name@])
            } else {
                None
            }),
    {
        match find_last(&self.effects, name) {
            Some(i) => {
                proof {
                    lemma_keyed_last(self.effects@, i as int, name@);
                }
                Some(self.effects[i].1)
            },
            None => {
                proof {
                    lemma_keyed_last(self.effects@, -1, name@);
                }
                None
            },
        }
    }

    /// The constructor named `name`, if declared.
    pub fn ctor(&self, name: &str) -> (r: Option<&CtorInfo>)
        ensures
            r matches Some(c) ==> self@.ctors.contains_key(name@) && self@.ctors[name@] == c@,
            r is None ==> !self@.ctors.contains_key(name@),
    {
        match find_last(&self.ctors, name) {
            Some(i) => {
                proof {
                    lemma_keyed_last(self.ctors@, i as int, name@);
                }
                Some(&self.ctors[i].1)
            },
            None => {
                proof {
                    lemma_keyed_last(self.ctors@, -1, name@);
                }
                None
            },
        }
    }

    /// The declared type named `name`, if any.
    fn adt(&self, name: &str) -> (r: Option<&AdtInfo>)
        ensures
            r matches Some(a) ==> self@.adts.contains_key(name@) && self@.adts[name@] == a@,
            r is None ==> !self@.adts.contains_key(name@),
    {
        match find_last(&self.adts, name) {
            Some(i) => {
                proof {
                    lemma_keyed_last(self.adts@, i as int, name@);
                }
                Some(&self.adts[i].1)
            },
            None => {
                proof {
                    lemma_keyed_last(self.adts@, -1, name@);
                }
                None
            },
        }
    }
}


// ── queries ─────────────────────────────────────────────────────

/// The spelling `ReplyTo`.
pub open spec fn reply_to_name() -> Seq<char> {
    seq!['R', 'e', 'p', 'l', 'y', 'T', 'o']
}

/// Whether `t`'s head is the built-in `ReplyTo`.
pub open spec fn heads_reply_to(t: TyV) -> bool {
    t matches TyV::Con(n, _) && n == reply_to_name()
}

/// The arity of a built-in type constructor: `Int`, `Float` and `String`
/// take none; `List`, `Option`, and the actor references `Pid` and
/// `ReplyTo` take one.
pub open spec fn builtin_arity(name: Seq<char>) -> Option<usize> {
    if name == seq!['I', 'n', 't'] || name == seq!['F', 'l', 'o', 'a', 't'] || name == seq![
        'S',
        't',
        'r',
        'i',
        'n',
        'g',
    ] {
        Some(0)
    } else if name == seq!['L', 'i', 's', 't'] || name == seq!['O', 'p', 't', 'i', 'o', 'n']
        || name == seq!['P', 'i', 'd'] || name == reply_to_name() {
        Some(1)
    } else {
        None
    }
}

/// The field types of constructor `name`, or none when it is undeclared.
pub open spec fn field_tys(reg: RegistryV, name: Seq<char>) -> Seq<TyV> {
    if reg.ctors.contains_key(name) {
        reg.ctors[name].fields
    } else {
        Seq::empty()
    }
}

/// Whether `name` is a declared type with a constructor declared opaque.
pub open spec fn opaque_adt(reg: RegistryV, name: Seq<char>) -> bool {
    reg.adts.contains_key(name) && exists|j: int|
        0 <= j < reg.adts[name].ctors.len() && #[trigger] reg.ctors.contains_key(
            reg.adts[name].ctors[j],
        ) && reg.ctors[reg.adts[name].ctors[j]].opaque
}

/// Whether `ty`'s head is the built-in `ReplyTo`.
pub fn is_reply_to(ty: &Ty) -> (r: bool)
    ensures
        r == heads_reply_to(ty@),
{
    match ty {
        Ty::Con(name, _) => {
            proof {
                reveal_strlit("ReplyTo");
                assert("ReplyTo"@ =~= reply_to_name());
            }
            crate::wire::replay::str_eq(name.as_str(), "ReplyTo")
        },
        _ => false,
    }
}

impl Registry {
    /// The arity of the type constructor `name`: declared types first, then
    /// the built-ins.
    pub fn type_arity(&self, name: &str) -> (r: Option<usize>)
        ensures
            r == (if self@.adts.contains_key(name@) {
                Some(self@.adts[name@].arity as usize)
            } else {
                builtin_arity(name@)
            }),
    {
        if let Some(info) = self.adt(name) {
            return Some(info.arity);
        }
        proof {
            reveal_strlit("Int");
            reveal_strlit("Float");
            reveal_strlit("String");
            reveal_strlit("List");
            reveal_strlit("Option");
            reveal_strlit("Pid");
            reveal_strlit("ReplyTo");
            assert("Int"@ =~= seq!['I', 'n', 't']);
            assert("Float"@ =~= seq!['F', 'l', 'o', 'a', 't']);
            assert("String"@ =~= seq!['S', 't', 'r', 'i', 'n', 'g']);
            assert("List"@ =~= seq!['L', 'i', 's', 't']);
            assert("Option"@ =~= seq!['O', 'p', 't', 'i', 'o', 'n']);
            assert("Pid"@ =~= seq!['P', 'i', 'd']);
            assert("ReplyTo"@ =~= reply_to_name());
        }
        let eq = |lit: &str| -> (b: bool)
            ensures
                b == (name@ == lit@),
            { crate::wire::replay::str_eq(name, lit) };
        if eq("Int") || eq("Float") || eq("String") {
            Some(0)
        } else if eq("List") || eq("Option") || eq("Pid") || eq("ReplyTo") {
            Some(1)
        } else {
            None
        }
    }

    /// Whether `name` is a declared type whose constructors are
    /// module-private (an opaque capability type).
    pub fn adt_is_opaque(&self, name: &str) -> (r: bool)
        ensures
            r == opaque_adt(self@, name@),
    {
        match self.adt(name) {
            None => false,
            Some(info) => {
                let cs = &info.constructors;
                let mut j: usize = 0;
                while j < cs.len()
                    invariant
                        j <= cs@.len(),
                        self@.adts.contains_key(name@),
                        self@.adts[name@].ctors == names_v(cs@),
                        forall|k: int|
                            0 <= k < j ==> !(#[trigger] self@.ctors.contains_key(names_v(cs@)[k])
                                && self@.ctors[names_v(cs@)[k]].opaque),
                    decreases cs@.len() - j,
                {
                    if let Some(c) = self.ctor(cs[j].as_str()) {
                        if c.opaque {
                            assert(names_v(cs@)[j as int] == cs@[j as int]@);
                            return true;
                        }
                    }
                    assert(names_v(cs@)[j as int] == cs@[j as int]@);
                    j = j + 1;
                }
                false
            },
        }
    }

    /// The constructor names of `name`, if it is a declared (or seeded)
    /// type; `None` for the built-ins, whose value space is open.
    pub fn adt_constructors(&self, name: &str) -> (r: Option<&Vec<String>>)
        ensures
            r matches Some(cs) ==> self@.adts.contains_key(name@) && self@.adts[name@].ctors
                == names_v(cs@),
            r is None ==> !self@.adts.contains_key(name@),
    {
        match self.adt(name) {
            Some(info) => Some(&info.constructors),
            None => None,
        }
    }

    /// The field types of constructor `name`, or empty when the constructor
    /// is nullary or undeclared.
    pub fn ctor_field_types(&self, name: &str) -> (r: Vec<Ty>)
        ensures
            tys_v(r@) == field_tys(self@, name@),
    {
        match self.ctor(name) {
            Some(info) => clone_tys(&info.fields),
            None => Vec::new(),
        }
    }

    /// Whether constructor `name` carries a `ReplyTo` field directly: a call
    /// constructor of the actor protocol. Undeclared and nullary
    /// constructors carry none.
    pub fn ctor_carries_reply_to(&self, name: &str) -> (r: bool)
        ensures
            r == exists|i: int|
                0 <= i < field_tys(self@, name@).len() && #[trigger] heads_reply_to(
                    field_tys(self@, name@)[i],
                ),
    {
        match self.ctor(name) {
            None => false,
            Some(info) => {
                let fs = &info.fields;
                proof {
                    lemma_tys_v(fs@);
                }
                let mut i: usize = 0;
                while i < fs.len()
                    invariant
                        i <= fs@.len(),
                        tys_v(fs@) == field_tys(self@, name@),
                        tys_v(fs@).len() == fs@.len(),
                        forall|k: int| 0 <= k < fs@.len() ==> #[trigger] tys_v(fs@)[k] == fs@[k]@,
                        forall|k: int| 0 <= k < i ==> !#[trigger] heads_reply_to(tys_v(fs@)[k]),
                    decreases fs@.len() - i,
                {
                    if is_reply_to(&fs[i]) {
                        assert(heads_reply_to(tys_v(fs@)[i as int]));
                        return true;
                    }
                    i = i + 1;
                }
                false
            },
        }
    }
}


// ── reaching `ReplyTo` ──────────────────────────────────────────

/// Whether `ReplyTo` occurs in `t` when declared types may be looked
/// through at most `n` deep: a named type is looked through by the field
/// types of its declared constructors.
pub open spec fn reply_in(reg: RegistryV, t: TyV, n: nat) -> bool
    decreases n, t, 1nat,
{
    match t {
        TyV::Var(_) => false,
        TyV::Con(name, args) => name == reply_to_name() || reply_in_any(reg, args, n) || (n > 0
            && reg.adts.contains_key(name) && exists|j: int|
            0 <= j < reg.adts[name].ctors.len() && reply_in_any(
                reg,
                field_tys(reg, #[trigger] reg.adts[name].ctors[j]),
                (n - 1) as nat,
            )),
        TyV::Fn(ps, r, _) => reply_in_any(reg, ps, n) || reply_in(reg, *r, n),
        TyV::Tuple(ts) => reply_in_any(reg, ts, n),
        TyV::Record(fs) => reply_in_fields(reg, fs, n),
        TyV::Forall(_, b) => reply_in(reg, *b, n),
    }
}

/// Whether `ReplyTo` occurs in one of `ts` within `n` look-throughs.
pub open spec fn reply_in_any(reg: RegistryV, ts: Seq<TyV>, n: nat) -> bool
    decreases n, ts, 0nat,
{
    exists|i: int| 0 <= i < ts.len() && reply_in(reg, #[trigger] ts[i], n)
}

/// Whether `ReplyTo` occurs in one of the field types of `fs` within `n`
/// look-throughs.
pub open spec fn reply_in_fields(reg: RegistryV, fs: Seq<(Seq<char>, TyV)>, n: nat) -> bool
    decreases n, fs, 0nat,
{
    exists|i: int| 0 <= i < fs.len() && reply_in(reg, #[trigger] fs[i].1, n)
}

/// Whether `ReplyTo` can be found in `t`, looking through declared types
/// as deep as need be.
pub open spec fn mentions_reply_to(reg: RegistryV, t: TyV) -> bool {
    exists|n: nat| #[trigger] reply_in(reg, t, n)
}

/// Whether `t` is free of `ReplyTo` on its own, every declared type it
/// names being left to `v`.
pub open spec fn clean(reg: RegistryV, t: TyV, v: Set<Seq<char>>) -> bool
    decreases t, 1nat,
{
    match t {
        TyV::Var(_) => true,
        TyV::Con(name, args) => name != reply_to_name() && clean_all(reg, args, v) && (
        reg.adts.contains_key(name) ==> v.contains(name)),
        TyV::Fn(ps, r, _) => clean_all(reg, ps, v) && clean(reg, *r, v),
        TyV::Tuple(ts) => clean_all(reg, ts, v),
        TyV::Record(fs) => clean_fields(reg, fs, v),
        TyV::Forall(_, b) => clean(reg, *b, v),
    }
}

/// Whether each of `ts` is clean with respect to `v`.
pub open spec fn clean_all(reg: RegistryV, ts: Seq<TyV>, v: Set<Seq<char>>) -> bool
    decreases ts, 0nat,
{
    forall|i: int| 0 <= i < ts.len() ==> clean(reg, #[trigger] ts[i], v)
}

/// Whether each field type of `fs` is clean with respect to `v`.
pub open spec fn clean_fields(reg: RegistryV, fs: Seq<(Seq<char>, TyV)>, v: Set<Seq<char>>) -> bool
    decreases fs, 0nat,
{
    forall|i: int| 0 <= i < fs.len() ==> clean(reg, #[trigger] fs[i].1, v)
}

/// Whether every field of every constructor of `name` is clean with
/// respect to `v`.
pub open spec fn fields_clean(reg: RegistryV, name: Seq<char>, v: Set<Seq<char>>) -> bool {
    forall|j: int|
        0 <= j < reg.adts[name].ctors.len() ==> #[trigger] clean_all(
            reg,
            field_tys(reg, reg.adts[name].ctors[j]),
            v,
        )
}

/// Whether `v1` extends `v0`, every name added having clean fields with
/// respect to `v1`.
pub open spec fn grown(reg: RegistryV, v0: Set<Seq<char>>, v1: Set<Seq<char>>) -> bool {
    &&& v0.subset_of(v1)
    &&& forall|x: Seq<char>| #[trigger] v1.contains(x) && !v0.contains(x) ==> fields_clean(reg, x, v1)
}

/// Cleanliness survives handing more names to the set.
pub proof fn lemma_clean_mono(reg: RegistryV, t: TyV, v: Set<Seq<char>>, w: Set<Seq<char>>)
    requires
        clean(reg, t, v),
        v.subset_of(w),
    ensures
        clean(reg, t, w),
    decreases t, 1nat,
{
    match t {
        TyV::Var(_) => {},
        TyV::Con(_, args) => lemma_clean_all_mono(reg, args, v, w),
        TyV::Fn(ps, r, _) => {
            lemma_clean_all_mono(reg, ps, v, w);
            lemma_clean_mono(reg, *r, v, w);
        },
        TyV::Tuple(ts) => lemma_clean_all_mono(reg, ts, v, w),
        TyV::Record(fs) => lemma_clean_fields_mono(reg, fs, v, w),
        TyV::Forall(_, b) => lemma_clean_mono(reg, *b, v, w),
    }
}

/// [`lemma_clean_mono`] for each of `ts`.
pub proof fn lemma_clean_all_mono(
    reg: RegistryV,
    ts: Seq<TyV>,
    v: Set<Seq<char>>,
    w: Set<Seq<char>>,
)
    requires
        clean_all(reg, ts, v),
        v.subset_of(w),
    ensures
        clean_all(reg, ts, w),
    decreases ts, 0nat,
{
    assert forall|i: int| 0 <= i < ts.len() implies clean(reg, #[trigger] ts[i], w) by {
        lemma_clean_mono(reg, ts[i], v, w);
    }
}

/// [`lemma_clean_mono`] for each field type of `fs`.
pub proof fn lemma_clean_fields_mono(
    reg: RegistryV,
    fs: Seq<(Seq<char>, TyV)>,
    v: Set<Seq<char>>,
    w: Set<Seq<char>>,
)
    requires
        clean_fields(reg, fs, v),
        v.subset_of(w),
    ensures
        clean_fields(reg, fs, w),
    decreases fs, 0nat,
{
    assert forall|i: int| 0 <= i < fs.len() implies clean(reg, #[trigger] fs[i].1, w) by {
        lemma_clean_mono(reg, fs[i].1, v, w);
    }
}

/// [`lemma_clean_mono`] for the fields of a type's constructors.
proof fn lemma_fields_clean_mono(reg: RegistryV, x: Seq<char>, v: Set<Seq<char>>, w: Set<Seq<char>>)
    requires
        fields_clean(reg, x, v),
        v.subset_of(w),
    ensures
        fields_clean(reg, x, w),
{
    assert forall|j: int| 0 <= j < reg.adts[x].ctors.len() implies #[trigger] clean_all(
        reg,
        field_tys(reg, reg.adts[x].ctors[j]),
        w,
    ) by {
        lemma_clean_all_mono(reg, field_tys(reg, reg.adts[x].ctors[j]), v, w);
    }
}

/// Growth composes.
proof fn lemma_grown_trans(
    reg: RegistryV,
    a: Set<Seq<char>>,
    b: Set<Seq<char>>,
    c: Set<Seq<char>>,
)
    requires
        grown(reg, a, b),
        grown(reg, b, c),
    ensures
        grown(reg, a, c),
{
    assert forall|x: Seq<char>| #[trigger] c.contains(x) && !a.contains(x) implies fields_clean(
        reg,
        x,
        c,
    ) by {
        if b.contains(x) {
            lemma_fields_clean_mono(reg, x, b, c);
        }
    }
}

/// A clean type, with every name of the set having clean fields, holds no
/// `ReplyTo` however deep declared types are looked through.
pub proof fn lemma_clean_unreached(reg: RegistryV, t: TyV, v: Set<Seq<char>>, n: nat)
    requires
        clean(reg, t, v),
        forall|x: Seq<char>| #[trigger] v.contains(x) && reg.adts.contains_key(x) ==> fields_clean(reg, x, v),
    ensures
        !reply_in(reg, t, n),
    decreases n, t, 1nat,
{
    match t {
        TyV::Var(_) => {},
        TyV::Con(name, args) => {
            lemma_clean_all_unreached(reg, args, v, n);
            if n > 0 && reg.adts.contains_key(name) {
                assert(v.contains(name));
                assert forall|j: int| 0 <= j < reg.adts[name].ctors.len() implies !reply_in_any(
                    reg,
                    field_tys(reg, #[trigger] reg.adts[name].ctors[j]),
                    (n - 1) as nat,
                ) by {
                    assert(clean_all(reg, field_tys(reg, reg.adts[name].ctors[j]), v));
                    lemma_clean_all_unreached(
                        reg,
                        field_tys(reg, reg.adts[name].ctors[j]),
                        v,
                        (n - 1) as nat,
                    );
                }
            }
        },
        TyV::Fn(ps, r, _) => {
            lemma_clean_all_unreached(reg, ps, v, n);
            lemma_clean_unreached(reg, *r, v, n);
        },
        TyV::Tuple(ts) => lemma_clean_all_unreached(reg, ts, v, n),
        TyV::Record(fs) => lemma_clean_fields_unreached(reg, fs, v, n),
        TyV::Forall(_, b) => lemma_clean_unreached(reg, *b, v, n),
    }
}

/// [`lemma_clean_unreached`] for each field type of `fs`.
pub proof fn lemma_clean_fields_unreached(
    reg: RegistryV,
    fs: Seq<(Seq<char>, TyV)>,
    v: Set<Seq<char>>,
    n: nat,
)
    requires
        clean_fields(reg, fs, v),
        forall|x: Seq<char>| #[trigger] v.contains(x) && reg.adts.contains_key(x) ==> fields_clean(reg, x, v),
    ensures
        !reply_in_fields(reg, fs, n),
    decreases n, fs, 0nat,
{
    assert forall|i: int| 0 <= i < fs.len() implies !reply_in(reg, #[trigger] fs[i].1, n) by {
        lemma_clean_unreached(reg, fs[i].1, v, n);
    }
}

/// [`lemma_clean_unreached`] for each of `ts`.
pub proof fn lemma_clean_all_unreached(reg: RegistryV, ts: Seq<TyV>, v: Set<Seq<char>>, n: nat)
    requires
        clean_all(reg, ts, v),
        forall|x: Seq<char>| #[trigger] v.contains(x) && reg.adts.contains_key(x) ==> fields_clean(reg, x, v),
    ensures
        !reply_in_any(reg, ts, n),
    decreases n, ts, 0nat,
{
    assert forall|i: int| 0 <= i < ts.len() implies !reply_in(reg, #[trigger] ts[i], n) by {
        lemma_clean_unreached(reg, ts[i], v, n);
    }
}


// ── the cycle-guarded walk ──────────────────────────────────────

/// The names a list of visited type names holds.
pub open spec fn set_of(s: Seq<String>) -> Set<Seq<char>> {
    Set::new(|x: Seq<char>| exists|i: int| 0 <= i < s.len() && #[trigger] s[i]@ == x)
}

/// How many declared types are not yet in `v`.
pub open spec fn unvisited(reg: RegistryV, v: Set<Seq<char>>) -> nat {
    reg.adts.dom().difference(v).len()
}

/// Visiting more names leaves no more types to visit, and visiting a
/// declared type leaves strictly fewer.
pub(crate) proof fn lemma_unvisited(reg: RegistryV, v: Set<Seq<char>>, w: Set<Seq<char>>, x: Seq<char>)
    requires
        reg.adts.dom().finite(),
        v.subset_of(w),
    ensures
        unvisited(reg, w) <= unvisited(reg, v),
        reg.adts.contains_key(x) && !v.contains(x) && w.contains(x) ==> unvisited(reg, w) < unvisited(
            reg,
            v,
        ),
{
    let d = reg.adts.dom();
    assert(d.difference(w).subset_of(d.difference(v)));
    vstd::set_lib::lemma_len_subset(d.difference(w), d.difference(v));
    if reg.adts.contains_key(x) && !v.contains(x) && w.contains(x) {
        assert(d.difference(w).subset_of(d.difference(v).remove(x)));
        vstd::set_lib::lemma_len_subset(d.difference(w), d.difference(v).remove(x));
    }
}

/// Whether `name` is among `visited`.
pub(crate) fn visited_has(visited: &Vec<String>, name: &str) -> (r: bool)
    ensures
        r == set_of(visited@).contains(name@),
{
    let mut i: usize = 0;
    while i < visited.len()
        invariant
            i <= visited@.len(),
            forall|k: int| 0 <= k < i ==> #[trigger] visited@[k]@ != name@,
        decreases visited@.len() - i,
    {
        if crate::wire::replay::str_eq(visited[i].as_str(), name) {
            assert(visited@[i as int]@ == name@);
            return true;
        }
        i = i + 1;
    }
    false
}

/// Pushing a name adds it to the set.
pub(crate) proof fn lemma_set_of_push(s: Seq<String>, x: String)
    ensures
        set_of(s.push(x)) == set_of(s).insert(x@),
{
    assert forall|y: Seq<char>| set_of(s.push(x)).contains(y) == set_of(s).insert(x@).contains(y) by {
        if set_of(s).contains(y) {
            let i = choose|i: int| 0 <= i < s.len() && #[trigger] s[i]@ == y;
            assert(s.push(x)[i]@ == y);
        }
        if y == x@ {
            assert(s.push(x)[s.len() as int]@ == y);
        }
        if set_of(s.push(x)).contains(y) {
            let i = choose|i: int| 0 <= i < s.len() + 1 && #[trigger] s.push(x)[i]@ == y;
            if i < s.len() {
                assert(s[i]@ == y);
            }
        }
    }
    assert(set_of(s.push(x)) =~= set_of(s).insert(x@));
}

impl Registry {
    /// The registry knows finitely many types.
    pub proof fn lemma_finite(&self)
        ensures
            self@.adts.dom().finite(),
    {
        lemma_keyed_finite(self.adts@);
    }

    /// Whether `ty` mentions `ReplyTo` anywhere, resolving declared types
    /// through their constructors' fields, so that a `ReplyTo` baked into
    /// a type's fields is found. Each declared type is looked through once,
    /// so a recursive type terminates.
    pub fn contains_reply_to(&self, ty: &Ty) -> (r: bool)
        ensures
            r == mentions_reply_to(self@, ty@),
    {
        let mut visited: Vec<String> = Vec::new();
        let r = self.reply_to_within(ty, &mut visited);
        proof {
            if !r {
                let v = set_of(visited@);
                assert(set_of(Seq::<String>::empty()) =~= Set::<Seq<char>>::empty());
                assert forall|n: nat| !#[trigger] reply_in(self@, ty@, n) by {
                    lemma_clean_unreached(self@, ty@, v, n);
                }
            }
        }
        r
    }

    /// The walk behind [`Registry::contains_reply_to`]: a declared type is
    /// descended once (tracked in `visited`); a type argument's `ReplyTo`
    /// is found directly.
    fn reply_to_within(&self, ty: &Ty, visited: &mut Vec<String>) -> (r: bool)
        ensures
            set_of(old(visited)@).subset_of(set_of(final(visited)@)),
            r ==> exists|n: nat| #[trigger] reply_in(self@, ty@, n),
            !r ==> clean(self@, ty@, set_of(final(visited)@)) && grown(
                self@,
                set_of(old(visited)@),
                set_of(final(visited)@),
            ),
        decreases unvisited(self@, set_of(old(visited)@)), ty, 1nat,
    {
        proof {
            self.lemma_finite();
        }
        match ty {
            Ty::Var(_) => false,
            Ty::Con(name, args) => {
                proof {
                    reveal_strlit("ReplyTo");
                    assert("ReplyTo"@ =~= reply_to_name());
                    lemma_tys_v(args@);
                }
                if crate::wire::replay::str_eq(name.as_str(), "ReplyTo") {
                    assert(reply_in(self@, ty@, 0));
                    return true;
                }
                let ghost v0 = set_of(visited@);
                if self.reply_to_any(args, visited) {
                    let ghost n = choose|n: nat| #[trigger] reply_in_any(self@, tys_v(args@), n);
                    assert(reply_in(self@, ty@, n));
                    return true;
                }
                let ghost v1 = set_of(visited@);
                match self.adt(name.as_str()) {
                    None => {
                        proof {
                            lemma_clean_all_mono(self@, tys_v(args@), v1, v1);
                        }
                        false
                    },
                    Some(info) => {
                        if visited_has(visited, name.as_str()) {
                            return false;
                        }
                        let ghost e1 = visited@;
                        visited.push(name.clone());
                        proof {
                            assert(visited@ == e1.push(visited@.last()));
                            lemma_set_of_push(e1, visited@.last());
                            lemma_unvisited(self@, v0, set_of(visited@), name@);
                        }
                        let ghost v2 = set_of(visited@);
                        let cs = &info.constructors;
                        let mut j: usize = 0;
                        while j < cs.len()
                            invariant
                                j <= cs@.len(),
                                self@.adts.contains_key(name@),
                                self@.adts[name@].ctors == names_v(cs@),
                                self@.adts.dom().finite(),
                                v0 == set_of(old(visited)@),
                                v0.subset_of(v1),
                                v2 == v1.insert(name@),
                                !v1.contains(name@),
                                grown(self@, v0, v1),
                                clean_all(self@, tys_v(args@), v1),
                                ty@ == TyV::Con(name@, tys_v(args@)),
                                grown(self@, v2, set_of(visited@)),
                                unvisited(self@, set_of(visited@)) < unvisited(self@, v0),
                                forall|k: int|
                                    0 <= k < j ==> #[trigger] clean_all(
                                        self@,
                                        field_tys(self@, names_v(cs@)[k]),
                                        set_of(visited@),
                                    ),
                            decreases cs@.len() - j,
                        {
                            let fields = self.ctor_field_types(cs[j].as_str());
                            assert(names_v(cs@)[j as int] == cs@[j as int]@);
                            let ghost vb = set_of(visited@);
                            if self.reply_to_any(&fields, visited) {
                                let ghost n = choose|n: nat| #[trigger] reply_in_any(
                                    self@,
                                    tys_v(fields@),
                                    n,
                                );
                                assert(self@.adts[name@].ctors[j as int] == cs@[j as int]@);
                                assert(reply_in(self@, ty@, n + 1));
                                return true;
                            }
                            proof {
                                lemma_grown_trans(self@, v2, vb, set_of(visited@));
                                lemma_unvisited(self@, vb, set_of(visited@), name@);
                                assert forall|k: int| 0 <= k < j + 1 implies #[trigger] clean_all(
                                    self@,
                                    field_tys(self@, names_v(cs@)[k]),
                                    set_of(visited@),
                                ) by {
                                    if k < j {
                                        lemma_clean_all_mono(
                                            self@,
                                            field_tys(self@, names_v(cs@)[k]),
                                            vb,
                                            set_of(visited@),
                                        );
                                    }
                                }
                            }
                            j = j + 1;
                        }
                        proof {
                            let vf = set_of(visited@);
                            assert(fields_clean(self@, name@, vf));
                            lemma_clean_all_mono(self@, tys_v(args@), v1, vf);
                            assert(grown(self@, v1, vf));
                            lemma_grown_trans(self@, v0, v1, vf);
                        }
                        false
                    },
                }
            },
            Ty::Fn(ps, ret, _) => {
                proof {
                    lemma_tys_v(ps@);
                }
                if self.reply_to_any(ps, visited) {
                    let ghost n = choose|n: nat| #[trigger] reply_in_any(self@, tys_v(ps@), n);
                    assert(reply_in(self@, ty@, n));
                    return true;
                }
                let ghost v1 = set_of(visited@);
                proof {
                    lemma_unvisited(self@, set_of(old(visited)@), v1, Seq::empty());
                }
                if self.reply_to_within(ret, visited) {
                    let ghost n = choose|n: nat| #[trigger] reply_in(self@, ret@, n);
                    assert(reply_in(self@, ty@, n));
                    return true;
                }
                proof {
                    lemma_clean_all_mono(self@, tys_v(ps@), v1, set_of(visited@));
                    lemma_grown_trans(self@, set_of(old(visited)@), v1, set_of(visited@));
                }
                false
            },
            Ty::Tuple(ts) => {
                if self.reply_to_any(ts, visited) {
                    let ghost n = choose|n: nat| #[trigger] reply_in_any(self@, tys_v(ts@), n);
                    assert(reply_in(self@, ty@, n));
                    return true;
                }
                false
            },
            Ty::Record(fs) => {
                if self.reply_to_fields(fs, visited) {
                    let ghost n = choose|n: nat| #[trigger] reply_in_fields(self@, fields_ty_v(fs@), n);
                    assert(reply_in(self@, ty@, n));
                    return true;
                }
                false
            },
            Ty::Forall(_, body) => {
                if self.reply_to_within(body, visited) {
                    let ghost n = choose|n: nat| #[trigger] reply_in(self@, body@, n);
                    assert(reply_in(self@, ty@, n));
                    return true;
                }
                false
            },
        }
    }

    /// [`Registry::reply_to_within`] over each of `tys`, stopping at the
    /// first that mentions `ReplyTo`.
    fn reply_to_any(&self, tys: &Vec<Ty>, visited: &mut Vec<String>) -> (r: bool)
        ensures
            set_of(old(visited)@).subset_of(set_of(final(visited)@)),
            r ==> exists|n: nat| #[trigger] reply_in_any(self@, tys_v(tys@), n),
            !r ==> clean_all(self@, tys_v(tys@), set_of(final(visited)@)) && grown(
                self@,
                set_of(old(visited)@),
                set_of(final(visited)@),
            ),
        decreases unvisited(self@, set_of(old(visited)@)), tys, 0nat,
    {
        proof {
            self.lemma_finite();
            lemma_tys_v(tys@);
        }
        let ghost v0 = set_of(visited@);
        let mut i: usize = 0;
        while i < tys.len()
            invariant
                i <= tys@.len(),
                self@.adts.dom().finite(),
                tys_v(tys@).len() == tys@.len(),
                forall|k: int| 0 <= k < tys@.len() ==> #[trigger] tys_v(tys@)[k] == tys@[k]@,
                v0 == set_of(old(visited)@),
                grown(self@, v0, set_of(visited@)),
                forall|k: int| 0 <= k < i ==> clean(self@, #[trigger] tys_v(tys@)[k], set_of(visited@)),
            decreases tys@.len() - i,
        {
            let ghost vb = set_of(visited@);
            proof {
                lemma_unvisited(self@, v0, vb, Seq::empty());
            }
            if self.reply_to_within(&tys[i], visited) {
                let ghost n = choose|n: nat| #[trigger] reply_in(self@, tys@[i as int]@, n);
                assert(reply_in(self@, tys_v(tys@)[i as int], n));
                assert(reply_in_any(self@, tys_v(tys@), n));
                return true;
            }
            proof {
                lemma_grown_trans(self@, v0, vb, set_of(visited@));
                assert forall|k: int| 0 <= k < i + 1 implies clean(
                    self@,
                    #[trigger] tys_v(tys@)[k],
                    set_of(visited@),
                ) by {
                    if k < i {
                        lemma_clean_mono(self@, tys_v(tys@)[k], vb, set_of(visited@));
                    }
                }
            }
            i = i + 1;
        }
        false
    }

    /// [`Registry::reply_to_within`] over each field type of `fs`.
    fn reply_to_fields(&self, fs: &Vec<(String, Ty)>, visited: &mut Vec<String>) -> (r: bool)
        ensures
            set_of(old(visited)@).subset_of(set_of(final(visited)@)),
            r ==> exists|n: nat| #[trigger] reply_in_fields(self@, fields_ty_v(fs@), n),
            !r ==> clean_fields(self@, fields_ty_v(fs@), set_of(final(visited)@)) && grown(
                self@,
                set_of(old(visited)@),
                set_of(final(visited)@),
            ),
        decreases unvisited(self@, set_of(old(visited)@)), fs, 0nat,
    {
        proof {
            self.lemma_finite();
            lemma_fields_ty_v(fs@);
        }
        let ghost v0 = set_of(visited@);
        let mut i: usize = 0;
        while i < fs.len()
            invariant
                i <= fs@.len(),
                self@.adts.dom().finite(),
                fields_ty_v(fs@).len() == fs@.len(),
                forall|k: int| 0 <= k < fs@.len() ==> #[trigger] fields_ty_v(fs@)[k] == (fs@[k].0@, fs@[k].1@),
                v0 == set_of(old(visited)@),
                grown(self@, v0, set_of(visited@)),
                forall|k: int| 0 <= k < i ==> clean(self@, #[trigger] fields_ty_v(fs@)[k].1, set_of(visited@)),
            decreases fs@.len() - i,
        {
            let ghost vb = set_of(visited@);
            proof {
                lemma_unvisited(self@, v0, vb, Seq::empty());
            }
            if self.reply_to_within(&fs[i].1, visited) {
                let ghost n = choose|n: nat| #[trigger] reply_in(self@, fs@[i as int].1@, n);
                assert(reply_in(self@, fields_ty_v(fs@)[i as int].1, n));
                assert(reply_in_fields(self@, fields_ty_v(fs@), n));
                return true;
            }
            proof {
                lemma_grown_trans(self@, v0, vb, set_of(visited@));
                assert forall|k: int| 0 <= k < i + 1 implies clean(
                    self@,
                    #[trigger] fields_ty_v(fs@)[k].1,
                    set_of(visited@),
                ) by {
                    if k < i {
                        lemma_clean_mono(self@, fields_ty_v(fs@)[k].1, vb, set_of(visited@));
                    }
                }
            }
            i = i + 1;
        }
        false
    }
}

} // verus!
