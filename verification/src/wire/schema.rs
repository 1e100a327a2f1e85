//! What decoding validates against: ADT constructor shapes, tool
//! signatures, and the type operations decoding needs.
use vstd::prelude::*;

use crate::wire::grammar::{self, AdtMap};
use crate::wire::value::{
    effs_v, fields_ty_v, lemma_effs_v, lemma_tys_v, tys_v, Effect, Ty, TyV,
};

verus! {

/// `t` with its leading quantifiers removed.
pub fn strip(t: &Ty) -> (r: &Ty)
    ensures
        r@ == grammar::strip(t@),
    decreases t,
{
    match t {
        Ty::Forall(_, body) => strip(body),
        _ => t,
    }
}

/// `t` with every variable `i` below `args.len()` replaced by `args[i]`.
pub fn subst(t: &Ty, args: &Vec<Ty>) -> (r: Ty)
    ensures
        r@ == grammar::subst(t@, tys_v(args@)),
    decreases t,
{
    match t {
        Ty::Var(v) => {
            proof {
                lemma_tys_v(args@);
            }
            if (*v as usize) < args.len() {
                args[*v as usize].clone()
            } else {
                Ty::Var(*v)
            }
        },
        Ty::Con(n, ts) => Ty::Con(n.clone(), subst_tys(ts, args)),
        Ty::Fn(ps, ret, effs) => Ty::Fn(
            subst_tys(ps, args),
            Box::new(subst(ret, args)),
            subst_effs(effs, args),
        ),
        Ty::Tuple(ts) => Ty::Tuple(subst_tys(ts, args)),
        Ty::Record(fs) => Ty::Record(subst_fields(fs, args)),
        Ty::Forall(vs, body) => Ty::Forall(vs.clone(), Box::new(subst(body, args))),
    }
}

/// [`subst`] on each type of `ts`.
pub fn subst_tys(ts: &Vec<Ty>, args: &Vec<Ty>) -> (r: Vec<Ty>)
    ensures
        tys_v(r@) == grammar::subst_all(tys_v(ts@), tys_v(args@)),
    decreases ts,
{
    let mut r: Vec<Ty> = Vec::new();
    let mut i: usize = 0;
    while i < ts.len()
        invariant
            i <= ts@.len(),
            tys_v(r@) == grammar::subst_all(tys_v(ts@.take(i as int)), tys_v(args@)),
        decreases ts@.len() - i,
    {
        let ghost r0 = r@;
        assert(ts@[i as int] == ts[i as int]);
        r.push(subst(&ts[i], args));
        proof {
            assert(r@.drop_last() =~= r0);
            assert(ts@.take(i + 1).drop_last() =~= ts@.take(i as int));
            assert(tys_v(ts@.take(i + 1)).drop_last() == tys_v(ts@.take(i as int)));
        }
        i = i + 1;
    }
    proof {
        assert(ts@.take(i as int) =~= ts@);
    }
    r
}

/// [`subst`] on each field type of `fs`.
pub fn subst_fields(fs: &Vec<(String, Ty)>, args: &Vec<Ty>) -> (r: Vec<(String, Ty)>)
    ensures
        fields_ty_v(r@) == grammar::subst_fields(fields_ty_v(fs@), tys_v(args@)),
    decreases fs,
{
    let mut r: Vec<(String, Ty)> = Vec::new();
    let mut i: usize = 0;
    while i < fs.len()
        invariant
            i <= fs@.len(),
            fields_ty_v(r@) == grammar::subst_fields(fields_ty_v(fs@.take(i as int)), tys_v(args@)),
        decreases fs@.len() - i,
    {
        let ghost r0 = r@;
        let (l, t) = &fs[i];
        assert(fs@[i as int] == fs[i as int]);
        r.push((l.clone(), subst(t, args)));
        proof {
            assert(r@.drop_last() =~= r0);
            assert(fs@.take(i + 1).drop_last() =~= fs@.take(i as int));
            assert(fields_ty_v(fs@.take(i + 1)).drop_last() == fields_ty_v(fs@.take(i as int)));
        }
        i = i + 1;
    }
    proof {
        assert(fs@.take(i as int) =~= fs@);
    }
    r
}

/// [`subst`] on each effect argument of `effs`.
pub fn subst_effs(effs: &Vec<Effect>, args: &Vec<Ty>) -> (r: Vec<Effect>)
    ensures
        effs_v(r@) == grammar::subst_effs(effs_v(effs@), tys_v(args@)),
    decreases effs,
{
    let mut r: Vec<Effect> = Vec::new();
    let mut i: usize = 0;
    while i < effs.len()
        invariant
            i <= effs@.len(),
            effs_v(r@) == grammar::subst_effs(effs_v(effs@.take(i as int)), tys_v(args@)),
        decreases effs@.len() - i,
    {
        let ghost r0 = r@;
        let e = &effs[i];
        assert(effs@[i as int] == effs[i as int]);
        r.push(Effect { head: e.head.clone(), args: subst_tys(&e.args, args) });
        proof {
            assert(r@.drop_last() =~= r0);
            assert(effs@.take(i + 1).drop_last() =~= effs@.take(i as int));
            assert(effs_v(effs@.take(i + 1)).drop_last() == effs_v(effs@.take(i as int)));
        }
        i = i + 1;
    }
    proof {
        assert(effs@.take(i as int) =~= effs@);
    }
    r
}

// ── the ADT table ───────────────────────────────────────────────

/// The views of an ADT's constructors.
pub open spec fn ctors_v(c: Seq<(String, Vec<Ty>)>) -> Seq<(Seq<char>, Seq<TyV>)>
    decreases c.len(),
{
    if c.len() == 0 {
        Seq::empty()
    } else {
        ctors_v(c.drop_last()).push((c.last().0@, tys_v(c.last().1@)))
    }
}

/// The views of constructors are taken element-wise.
pub proof fn lemma_ctors_v(c: Seq<(String, Vec<Ty>)>)
    ensures
        ctors_v(c).len() == c.len(),
        forall|i: int| 0 <= i < c.len() ==> #[trigger] ctors_v(c)[i] == (c[i].0@, tys_v(c[i].1@)),
    decreases c.len(),
{
    if c.len() > 0 {
        lemma_ctors_v(c.drop_last());
        assert forall|i: int| 0 <= i < c.len() implies #[trigger] ctors_v(c)[i] == (
            c[i].0@,
            tys_v(c[i].1@),
        ) by {
            if i < c.len() - 1 {
                assert(c.drop_last()[i] == c[i]);
            }
        }
    }
}

/// The map of a table's entries; a later entry for a name replaces an
/// earlier one.
pub open spec fn table_map(e: Seq<(String, Vec<(String, Vec<Ty>)>)>) -> AdtMap
    decreases e.len(),
{
    if e.len() == 0 {
        Map::empty()
    } else {
        table_map(e.drop_last()).insert(e.last().0@, ctors_v(e.last().1@))
    }
}

/// The constructor shapes decoding validates ADT values against: each type
/// name maps to its constructors, each with field types where `Var(i)`
/// stands for the ADT's `i`-th type parameter.
#[derive(Debug, PartialEq)]
pub struct AdtTable {
    /// Type names with their constructors, in the order they were
    /// registered.
    entries: Vec<(String, Vec<(String, Vec<Ty>)>)>,
}

impl View for AdtTable {
    type V = AdtMap;

    closed spec fn view(&self) -> AdtMap {
        table_map(self.entries@)
    }
}

impl AdtTable {
    /// An empty table.
    pub fn new() -> (r: Self)
        ensures
            r@ == AdtMap::empty(),
    {
        AdtTable { entries: Vec::new() }
    }

    /// Registers an ADT's constructors, replacing any registered before
    /// under the same name.
    pub fn insert(&mut self, adt: String, ctors: Vec<(String, Vec<Ty>)>)
        ensures
            final(self)@ == old(self)@.insert(adt@, ctors_v(ctors@)),
    {
        let ghost e0 = self.entries@;
        self.entries.push((adt, ctors));
        proof {
            assert(self.entries@.drop_last() =~= e0);
        }
    }

    /// The constructors of the ADT named `adt`, if registered.
    pub fn ctors(&self, adt: &[char]) -> (r: Option<&Vec<(String, Vec<Ty>)>>)
        ensures
            r matches Some(c) ==> self@.contains_key(adt@) && self@[adt@] == ctors_v(c@),
            r is None ==> !self@.contains_key(adt@),
    {
        let mut i = self.entries.len();
        while i > 0
            invariant
                i <= self.entries@.len(),
                forall|k: int|
                    i <= k < self.entries@.len() ==> #[trigger] self.entries@[k].0@ != adt@,
            decreases i,
        {
            let name = crate::wire::text::chars_of(self.entries[i - 1].0.as_str());
            if chars_eq(name.as_slice(), adt) {
                proof {
                    lemma_table_map_last_match(self.entries@, i - 1, adt@);
                }
                return Some(&self.entries[i - 1].1);
            }
            i = i - 1;
        }
        proof {
            lemma_table_map_last_match(self.entries@, -1, adt@);
        }
        None
    }
}

/// A table maps a name to the constructors of its last entry of that name.
proof fn lemma_table_map_last_match(e: Seq<(String, Vec<(String, Vec<Ty>)>)>, i: int, name: Seq<char>)
    requires
        -1 <= i < e.len(),
        i >= 0 ==> e[i].0@ == name,
        forall|k: int| i < k < e.len() ==> #[trigger] e[k].0@ != name,
    ensures
        i >= 0 ==> table_map(e).contains_key(name) && table_map(e)[name] == ctors_v(e[i].1@),
        i < 0 ==> !table_map(e).contains_key(name),
    decreases e.len(),
{
    if e.len() > 0 {
        if i == e.len() - 1 {
        } else {
            assert forall|k: int| i < k < e.len() - 1 implies #[trigger] e.drop_last()[k].0@ != name by {
                assert(e[k].0@ != name);
            }
            assert(e[e.len() - 1].0@ != name);
            lemma_table_map_last_match(e.drop_last(), i, name);
        }
    }
}

/// Whether two character sequences are equal.
pub fn chars_eq(a: &[char], b: &[char]) -> (r: bool)
    ensures
        r == (a@ == b@),
{
    if a.len() != b.len() {
        return false;
    }
    let mut i: usize = 0;
    while i < a.len()
        invariant
            a@.len() == b@.len(),
            i <= a@.len(),
            forall|k: int| 0 <= k < i ==> a@[k] == b@[k],
        decreases a@.len() - i,
    {
        if a[i] != b[i] {
            return false;
        }
        i = i + 1;
    }
    proof {
        assert(a@ =~= b@);
    }
    true
}

// ── tool signatures ─────────────────────────────────────────────

/// The arguments of the `Exn` effects of a row that have one, in order.
pub open spec fn exn_args(effs: Seq<(Seq<char>, Seq<TyV>)>) -> Seq<TyV>
    decreases effs.len(),
{
    if effs.len() == 0 {
        Seq::empty()
    } else {
        let rest = exn_args(effs.drop_last());
        let e = effs.last();
        if e.0 == seq!['E', 'x', 'n'] && e.1.len() > 0 {
            rest.push(e.1[0])
        } else {
            rest
        }
    }
}

/// The args type, result type and error types of a tool function's type
/// `(args) → result ! {…, Exn<E>, …}`, under at most one quantifier.
pub open spec fn fn_sig(t: TyV) -> Option<(TyV, TyV, Seq<TyV>)> {
    let body = match t {
        TyV::Forall(_, b) => *b,
        _ => t,
    };
    match body {
        TyV::Fn(ps, r, effs) => if ps.len() == 1 {
            Some((ps[0], *r, exn_args(effs)))
        } else {
            None
        },
        _ => None,
    }
}

/// The signature a tool's records decode against.
#[derive(Debug, PartialEq)]
pub struct ToolWireSig {
    /// The args type (the tool's input record).
    pub args: Ty,
    /// The ok-result type (the tool's output).
    pub result: Ty,
    /// The error types the tool's row declares (`Exn<E>` arguments), tried
    /// in order when decoding an `err` result.
    pub errors: Vec<Ty>,
}

impl ToolWireSig {
    /// Extracts the signature from a tool function's bound type; `None`
    /// when the type is not a unary function.
    pub fn from_fn(ty: &Ty) -> (r: Option<Self>)
        ensures
            r matches Some(sig) ==> fn_sig(ty@) == Some((sig.args@, sig.result@, tys_v(sig.errors@))),
            r is None ==> fn_sig(ty@) is None,
    {
        let body: &Ty = match ty {
            Ty::Forall(_, b) => &**b,
            _ => ty,
        };
        assert(body@ == match ty@ {
            TyV::Forall(_, b) => *b,
            _ => ty@,
        });
        match body {
            Ty::Fn(params, ret, row) => {
                proof {
                    lemma_tys_v(params@);
                    lemma_effs_v(row@);
                }
                if params.len() != 1 {
                    return None;
                }
                let mut errors: Vec<Ty> = Vec::new();
                let mut i: usize = 0;
                while i < row.len()
                    invariant
                        i <= row@.len(),
                        tys_v(errors@) == exn_args(effs_v(row@.take(i as int))),
                    decreases row@.len() - i,
                {
                    let ghost e0 = errors@;
                    let e = &row[i];
                    proof {
                        assert(row@.take(i + 1).drop_last() =~= row@.take(i as int));
                        assert(effs_v(row@.take(i + 1)).last() == (e.head@, tys_v(e.args@)));
                        assert(effs_v(row@.take(i + 1)).drop_last() == effs_v(row@.take(i as int)));
                        lemma_tys_v(e.args@);
                    }
                    let hc = crate::wire::text::chars_of(e.head.as_str());
                    if chars_eq(hc.as_slice(), &['E', 'x', 'n']) && e.args.len() > 0 {
                        errors.push(e.args[0].clone());
                        proof {
                            assert(errors@.drop_last() =~= e0);
                        }
                    }
                    i = i + 1;
                }
                proof {
                    assert(row@.take(i as int) =~= row@);
                }
                Some(ToolWireSig { args: params[0].clone(), result: (**ret).clone(), errors })
            },
            _ => None,
        }
    }
}

/// Whether `a` orders before `b`, character by character.
pub fn chars_lt(a: &[char], b: &[char]) -> (r: bool)
    ensures
        r == grammar::str_lt(a@, b@),
{
    let mut i: usize = 0;
    proof {
        assert(a@.skip(0) =~= a@);
        assert(b@.skip(0) =~= b@);
    }
    loop
        invariant
            i <= a@.len(),
            i <= b@.len(),
            grammar::str_lt(a@, b@) == grammar::str_lt(a@.skip(i as int), b@.skip(i as int)),
        decreases a@.len() - i,
    {
        if i == a.len() {
            return i < b.len();
        }
        if i == b.len() {
            return false;
        }
        if a[i] != b[i] {
            return (a[i] as u32) < (b[i] as u32);
        }
        proof {
            assert(a@.skip(i as int).drop_first() =~= a@.skip(i + 1));
            assert(b@.skip(i as int).drop_first() =~= b@.skip(i + 1));
        }
        i = i + 1;
    }
}

} // verus!
