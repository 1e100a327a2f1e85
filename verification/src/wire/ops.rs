//! Copying and comparing wire values and types by their views.
use vstd::prelude::*;

use crate::wire::encode::labels_ascending;
use crate::wire::grammar::{lemma_str_lt_total, lemma_str_lt_trans, str_lt};
use crate::wire::schema::{chars_eq, chars_lt};
use crate::wire::text::chars_of;
use crate::wire::value::{Val, 
    effs_v, fields_ty_v, fields_v, lemma_effs_v, lemma_fields_ty_v, lemma_fields_v,
    lemma_meta_fields_v, lemma_metas_v, lemma_tys_v, lemma_vals_v, meta_fields_v, metas_v, tys_v,
    vals_v, Effect, InvocationRecord, MetaValue, ToolResult, Ty, WireValue,
};

verus! {

impl Clone for WireValue {
    fn clone(&self) -> (r: Self)
        ensures
            r@ == self@,
        decreases self,
    {
        match self {
            WireValue::Unit => WireValue::Unit,
            WireValue::Int(i) => WireValue::Int(*i),
            WireValue::Float(t) => WireValue::Float(t.clone()),
            WireValue::String(s) => WireValue::String(s.clone()),
            WireValue::List(items) => WireValue::List(clone_values(items)),
            WireValue::Tuple(items) => WireValue::Tuple(clone_values(items)),
            WireValue::Record(fs) => WireValue::Record(clone_fields(fs)),
            WireValue::Ctor(n, args) => WireValue::Ctor(n.clone(), clone_values(args)),
        }
    }
}

/// A copy of a sequence of values.
pub fn clone_values(s: &Vec<WireValue>) -> (r: Vec<WireValue>)
    ensures
        vals_v(r@) == vals_v(s@),
    decreases s,
{
    let mut r: Vec<WireValue> = Vec::new();
    let mut i: usize = 0;
    while i < s.len()
        invariant
            i <= s@.len(),
            r@.len() == i,
            forall|j: int| 0 <= j < i ==> #[trigger] r@[j]@ == s@[j]@,
        decreases s@.len() - i,
    {
        assert(s@[i as int] == s[i as int]);
        r.push(s[i].clone());
        i = i + 1;
    }
    proof {
        lemma_vals_v(r@);
        lemma_vals_v(s@);
    }
    assert(vals_v(r@) =~= vals_v(s@));
    r
}

/// A copy of a sequence of record fields.
pub fn clone_fields(s: &Vec<(String, WireValue)>) -> (r: Vec<(String, WireValue)>)
    ensures
        fields_v(r@) == fields_v(s@),
    decreases s,
{
    let mut r: Vec<(String, WireValue)> = Vec::new();
    let mut i: usize = 0;
    while i < s.len()
        invariant
            i <= s@.len(),
            r@.len() == i,
            forall|j: int| 0 <= j < i ==> (#[trigger] r@[j]).0@ == s@[j].0@ && r@[j].1@ == s@[j].1@,
        decreases s@.len() - i,
    {
        let (l, v) = &s[i];
        assert(s@[i as int].1 == s[i as int].1);
        r.push((l.clone(), v.clone()));
        i = i + 1;
    }
    proof {
        lemma_fields_v(r@);
        lemma_fields_v(s@);
    }
    assert(fields_v(r@) =~= fields_v(s@));
    r
}

/// Whether two values are equal.
pub fn value_eq(a: &WireValue, b: &WireValue) -> (r: bool)
    ensures
        r == (a@ == b@),
    decreases a,
{
    match (a, b) {
        (WireValue::Unit, WireValue::Unit) => true,
        (WireValue::Int(x), WireValue::Int(y)) => *x == *y,
        (WireValue::Float(x), WireValue::Float(y)) => *x == *y,
        (WireValue::String(x), WireValue::String(y)) => *x == *y,
        (WireValue::List(x), WireValue::List(y)) => values_eq(x, y),
        (WireValue::Tuple(x), WireValue::Tuple(y)) => values_eq(x, y),
        (WireValue::Record(x), WireValue::Record(y)) => fields_eq(x, y),
        (WireValue::Ctor(n, x), WireValue::Ctor(m, y)) => *n == *m && values_eq(x, y),
        _ => false,
    }
}

/// Whether two sequences of values are equal.
pub fn values_eq(a: &Vec<WireValue>, b: &Vec<WireValue>) -> (r: bool)
    ensures
        r == (vals_v(a@) == vals_v(b@)),
    decreases a,
{
    proof {
        lemma_vals_v(a@);
        lemma_vals_v(b@);
    }
    if a.len() != b.len() {
        return false;
    }
    let mut i: usize = 0;
    while i < a.len()
        invariant
            i <= a@.len(),
            a@.len() == b@.len(),
            vals_v(a@).len() == a@.len(),
            vals_v(b@).len() == b@.len(),
            forall|j: int| 0 <= j < a@.len() ==> #[trigger] vals_v(a@)[j] == a@[j]@,
            forall|j: int| 0 <= j < b@.len() ==> #[trigger] vals_v(b@)[j] == b@[j]@,
            forall|j: int| 0 <= j < i ==> #[trigger] a@[j]@ == b@[j]@,
        decreases a@.len() - i,
    {
        assert(a@[i as int] == a[i as int]);
        if !value_eq(&a[i], &b[i]) {
            assert(vals_v(a@)[i as int] != vals_v(b@)[i as int]);
            return false;
        }
        i = i + 1;
    }
    assert(vals_v(a@) =~= vals_v(b@));
    true
}

/// Whether two sequences of record fields are equal.
pub fn fields_eq(a: &Vec<(String, WireValue)>, b: &Vec<(String, WireValue)>) -> (r: bool)
    ensures
        r == (fields_v(a@) == fields_v(b@)),
    decreases a,
{
    proof {
        lemma_fields_v(a@);
        lemma_fields_v(b@);
    }
    if a.len() != b.len() {
        return false;
    }
    let mut i: usize = 0;
    while i < a.len()
        invariant
            i <= a@.len(),
            a@.len() == b@.len(),
            fields_v(a@).len() == a@.len(),
            fields_v(b@).len() == b@.len(),
            forall|j: int| 0 <= j < a@.len() ==> #[trigger] fields_v(a@)[j] == (a@[j].0@, a@[j].1@),
            forall|j: int| 0 <= j < b@.len() ==> #[trigger] fields_v(b@)[j] == (b@[j].0@, b@[j].1@),
            forall|j: int| 0 <= j < i ==> (#[trigger] a@[j]).0@ == b@[j].0@ && a@[j].1@ == b@[j].1@,
        decreases a@.len() - i,
    {
        let (la, va) = &a[i];
        let (lb, vb) = &b[i];
        assert(a@[i as int].1 == a[i as int].1);
        if !(*la == *lb) || !value_eq(va, vb) {
            assert(fields_v(a@)[i as int] != fields_v(b@)[i as int]);
            return false;
        }
        i = i + 1;
    }
    assert(fields_v(a@) =~= fields_v(b@));
    true
}

impl Clone for ToolResult {
    fn clone(&self) -> (r: Self)
        ensures
            r@ == self@,
    {
        match self {
            ToolResult::Success(v) => ToolResult::Success(v.clone()),
            ToolResult::Failure(v) => ToolResult::Failure(v.clone()),
        }
    }
}

impl Clone for MetaValue {
    fn clone(&self) -> (r: Self)
        ensures
            r@ == self@,
        decreases self,
    {
        match self {
            MetaValue::Null => MetaValue::Null,
            MetaValue::Bool(b) => MetaValue::Bool(*b),
            MetaValue::Int(i) => MetaValue::Int(*i),
            MetaValue::Float(t) => MetaValue::Float(t.clone()),
            MetaValue::String(s) => MetaValue::String(s.clone()),
            MetaValue::Array(items) => MetaValue::Array(clone_metas(items)),
            MetaValue::Object(fs) => MetaValue::Object(clone_meta_fields(fs)),
        }
    }
}

/// A copy of a sequence of meta values.
pub fn clone_metas(s: &Vec<MetaValue>) -> (r: Vec<MetaValue>)
    ensures
        metas_v(r@) == metas_v(s@),
    decreases s,
{
    let mut r: Vec<MetaValue> = Vec::new();
    let mut i: usize = 0;
    while i < s.len()
        invariant
            i <= s@.len(),
            r@.len() == i,
            forall|j: int| 0 <= j < i ==> #[trigger] r@[j]@ == s@[j]@,
        decreases s@.len() - i,
    {
        assert(s@[i as int] == s[i as int]);
        r.push(s[i].clone());
        i = i + 1;
    }
    proof {
        lemma_metas_v(r@);
        lemma_metas_v(s@);
    }
    assert(metas_v(r@) =~= metas_v(s@));
    r
}

/// A copy of a sequence of meta object entries.
pub fn clone_meta_fields(s: &Vec<(String, MetaValue)>) -> (r: Vec<(String, MetaValue)>)
    ensures
        meta_fields_v(r@) == meta_fields_v(s@),
    decreases s,
{
    let mut r: Vec<(String, MetaValue)> = Vec::new();
    let mut i: usize = 0;
    while i < s.len()
        invariant
            i <= s@.len(),
            r@.len() == i,
            forall|j: int| 0 <= j < i ==> (#[trigger] r@[j]).0@ == s@[j].0@ && r@[j].1@ == s@[j].1@,
        decreases s@.len() - i,
    {
        let (l, v) = &s[i];
        assert(s@[i as int].1 == s[i as int].1);
        r.push((l.clone(), v.clone()));
        i = i + 1;
    }
    proof {
        lemma_meta_fields_v(r@);
        lemma_meta_fields_v(s@);
    }
    assert(meta_fields_v(r@) =~= meta_fields_v(s@));
    r
}

impl Clone for InvocationRecord {
    fn clone(&self) -> (r: Self)
        ensures
            r@ == self@,
    {
        InvocationRecord {
            tool: self.tool.clone(),
            args: self.args.clone(),
            result: self.result.clone(),
            timestamp: self.timestamp.clone(),
            caller: self.caller.clone(),
            meta: match &self.meta {
                Some(m) => Some(clone_meta_fields(m)),
                None => None,
            },
        }
    }
}

impl Clone for Ty {
    fn clone(&self) -> (r: Self)
        ensures
            r@ == self@,
        decreases self,
    {
        match self {
            Ty::Var(v) => Ty::Var(*v),
            Ty::Con(n, args) => Ty::Con(n.clone(), clone_tys(args)),
            Ty::Fn(ps, ret, effs) => Ty::Fn(clone_tys(ps), Box::new((**ret).clone()), clone_effs(effs)),
            Ty::Tuple(es) => Ty::Tuple(clone_tys(es)),
            Ty::Record(fs) => Ty::Record(clone_ty_fields(fs)),
            Ty::Forall(vs, body) => Ty::Forall(vs.clone(), Box::new((**body).clone())),
        }
    }
}

/// A copy of a sequence of types.
pub fn clone_tys(s: &Vec<Ty>) -> (r: Vec<Ty>)
    ensures
        tys_v(r@) == tys_v(s@),
    decreases s,
{
    let mut r: Vec<Ty> = Vec::new();
    let mut i: usize = 0;
    while i < s.len()
        invariant
            i <= s@.len(),
            r@.len() == i,
            forall|j: int| 0 <= j < i ==> #[trigger] r@[j]@ == s@[j]@,
        decreases s@.len() - i,
    {
        assert(s@[i as int] == s[i as int]);
        r.push(s[i].clone());
        i = i + 1;
    }
    proof {
        lemma_tys_v(r@);
        lemma_tys_v(s@);
    }
    assert(tys_v(r@) =~= tys_v(s@));
    r
}

/// A copy of a record type's fields.
pub fn clone_ty_fields(s: &Vec<(String, Ty)>) -> (r: Vec<(String, Ty)>)
    ensures
        fields_ty_v(r@) == fields_ty_v(s@),
    decreases s,
{
    let mut r: Vec<(String, Ty)> = Vec::new();
    let mut i: usize = 0;
    while i < s.len()
        invariant
            i <= s@.len(),
            r@.len() == i,
            forall|j: int| 0 <= j < i ==> (#[trigger] r@[j]).0@ == s@[j].0@ && r@[j].1@ == s@[j].1@,
        decreases s@.len() - i,
    {
        let (l, t) = &s[i];
        assert(s@[i as int].1 == s[i as int].1);
        r.push((l.clone(), t.clone()));
        i = i + 1;
    }
    proof {
        lemma_fields_ty_v(r@);
        lemma_fields_ty_v(s@);
    }
    assert(fields_ty_v(r@) =~= fields_ty_v(s@));
    r
}

/// A copy of a row's effects.
pub fn clone_effs(s: &Vec<Effect>) -> (r: Vec<Effect>)
    ensures
        effs_v(r@) == effs_v(s@),
    decreases s,
{
    let mut r: Vec<Effect> = Vec::new();
    let mut i: usize = 0;
    while i < s.len()
        invariant
            i <= s@.len(),
            r@.len() == i,
            forall|j: int| 0 <= j < i ==> (#[trigger] r@[j]).head@ == s@[j].head@ && tys_v(r@[j].args@)
                == tys_v(s@[j].args@),
        decreases s@.len() - i,
    {
        let e = &s[i];
        assert(s@[i as int] == s[i as int]);
        r.push(Effect { head: e.head.clone(), args: clone_tys(&e.args) });
        i = i + 1;
    }
    proof {
        lemma_effs_v(r@);
        lemma_effs_v(s@);
    }
    assert(effs_v(r@) =~= effs_v(s@));
    r
}

// ── building values ─────────────────────────────────────────────

/// `m` with label `k` set to `v`: labels stay in ascending order, and a
/// label that is present gets the new value.
pub open spec fn field_insert(m: Seq<(Seq<char>, Val)>, k: Seq<char>, v: Val) -> Seq<(Seq<char>, Val)>
    decreases m.len(),
{
    if m.len() == 0 {
        seq![(k, v)]
    } else if m[0].0 == k {
        seq![(k, v)] + m.drop_first()
    } else if str_lt(k, m[0].0) {
        seq![(k, v)] + m
    } else {
        seq![m[0]] + field_insert(m.drop_first(), k, v)
    }
}

/// The record of `fs`, each field inserted in turn.
pub open spec fn record_of(fs: Seq<(Seq<char>, Val)>) -> Seq<(Seq<char>, Val)>
    decreases fs.len(),
{
    if fs.len() == 0 {
        Seq::empty()
    } else {
        field_insert(record_of(fs.drop_last()), fs.last().0, fs.last().1)
    }
}

/// Inserting keeps the labels ascending, and adds no label but `k`.
pub proof fn lemma_field_insert_ascending(m: Seq<(Seq<char>, Val)>, k: Seq<char>, v: Val)
    requires
        labels_ascending(m),
    ensures
        labels_ascending(field_insert(m, k, v)),
        forall|i: int| 0 <= i < field_insert(m, k, v).len() ==> #[trigger] field_insert(m, k, v)[i].0 == k
            || exists|j: int| 0 <= j < m.len() && field_insert(m, k, v)[i].0 == #[trigger] m[j].0,
    decreases m.len(),
{
    let r = field_insert(m, k, v);
    if m.len() == 0 {
    } else if m[0].0 == k {
        assert forall|i: int| 0 <= i < r.len() implies #[trigger] r[i].0 == k
            || exists|j: int| 0 <= j < m.len() && r[i].0 == #[trigger] m[j].0 by {
            if i > 0 {
                assert(r[i].0 == m[i].0);
            }
        }
        assert forall|i: int, j: int| 0 <= i < j < r.len() implies str_lt(#[trigger] r[i].0, #[trigger] r[j].0) by {
            if i > 0 {
                assert(r[i] == m[i] && r[j] == m[j]);
            } else {
                assert(r[j] == m[j]);
                assert(str_lt(m[0].0, m[j].0));
            }
        }
    } else if str_lt(k, m[0].0) {
        assert forall|i: int| 0 <= i < r.len() implies #[trigger] r[i].0 == k
            || exists|j: int| 0 <= j < m.len() && r[i].0 == #[trigger] m[j].0 by {
            if i > 0 {
                assert(r[i].0 == m[i - 1].0);
            }
        }
        assert forall|i: int, j: int| 0 <= i < j < r.len() implies str_lt(#[trigger] r[i].0, #[trigger] r[j].0) by {
            if i > 0 {
                assert(r[i] == m[i - 1] && r[j] == m[j - 1]);
            } else {
                assert(r[j] == m[j - 1]);
                if j > 1 {
                    assert(str_lt(m[0].0, m[j - 1].0));
                    lemma_str_lt_trans(k, m[0].0, m[j - 1].0);
                }
            }
        }
    } else {
        lemma_str_lt_total(k, m[0].0);
        let t = m.drop_first();
        assert forall|i: int, j: int| 0 <= i < j < t.len() implies str_lt(#[trigger] t[i].0, #[trigger] t[j].0) by {
            assert(t[i] == m[i + 1] && t[j] == m[j + 1]);
        }
        lemma_field_insert_ascending(t, k, v);
        let f = field_insert(t, k, v);
        assert(r == seq![m[0]] + f);
        assert forall|i: int| 0 < i < r.len() implies str_lt(m[0].0, #[trigger] r[i].0) by {
            assert(r[i] == f[i - 1]);
            if f[i - 1].0 != k {
                let j = choose|j: int| 0 <= j < t.len() && f[i - 1].0 == #[trigger] t[j].0;
                assert(t[j] == m[j + 1]);
                assert(str_lt(m[0].0, m[j + 1].0));
            }
        }
        assert forall|i: int| 0 <= i < r.len() implies #[trigger] r[i].0 == k
            || exists|j: int| 0 <= j < m.len() && r[i].0 == #[trigger] m[j].0 by {
            if i > 0 {
                assert(r[i] == f[i - 1]);
                if f[i - 1].0 != k {
                    let j = choose|j: int| 0 <= j < t.len() && f[i - 1].0 == #[trigger] t[j].0;
                    assert(t[j] == m[j + 1]);
                }
            } else {
                assert(r[0] == m[0]);
            }
        }
        assert forall|i: int, j: int| 0 <= i < j < r.len() implies str_lt(#[trigger] r[i].0, #[trigger] r[j].0) by {
            if i > 0 {
                assert(r[i] == f[i - 1] && r[j] == f[j - 1]);
            } else {
                assert(r[0] == m[0]);
            }
        }
    }
}

/// The labels of a record built by insertion ascend.
pub proof fn lemma_record_of_ascending(fs: Seq<(Seq<char>, Val)>)
    ensures
        labels_ascending(record_of(fs)),
    decreases fs.len(),
{
    if fs.len() > 0 {
        lemma_record_of_ascending(fs.drop_last());
        lemma_field_insert_ascending(record_of(fs.drop_last()), fs.last().0, fs.last().1);
    }
}

/// Inserting past labels that order before the new one leaves them in
/// front.
proof fn lemma_field_insert_skip(m: Seq<(Seq<char>, Val)>, k: Seq<char>, v: Val, i: int)
    requires
        0 <= i <= m.len(),
        forall|j: int| 0 <= j < i ==> #[trigger] m[j].0 != k && !str_lt(k, m[j].0),
    ensures
        field_insert(m, k, v) == m.take(i) + field_insert(m.skip(i), k, v),
    decreases i,
{
    if i == 0 {
        assert(m.skip(0) =~= m);
        assert(m.take(0) + field_insert(m, k, v) =~= field_insert(m, k, v));
    } else {
        let t = m.drop_first();
        assert forall|j: int| 0 <= j < i - 1 implies #[trigger] t[j].0 != k && !str_lt(k, t[j].0) by {
            assert(t[j] == m[j + 1]);
        }
        lemma_field_insert_skip(t, k, v, i - 1);
        assert(t.skip(i - 1) =~= m.skip(i));
        assert(seq![m[0]] + t.take(i - 1) =~= m.take(i));
        assert(seq![m[0]] + (t.take(i - 1) + field_insert(m.skip(i), k, v)) =~= m.take(i)
            + field_insert(m.skip(i), k, v));
    }
}

/// Sets label `k` to `v` in the label-ordered fields `m`.
fn insert_field(m: &mut Vec<(String, WireValue)>, k: String, v: WireValue)
    ensures
        fields_v(final(m)@) == field_insert(fields_v(old(m)@), k@, v@),
{
    let ghost m0 = m@;
    let ghost mv = fields_v(m0);
    proof {
        lemma_fields_v(m0);
    }
    let kc = chars_of(k.as_str());
    let mut i: usize = 0;
    while i < m.len()
        invariant
            m@ == m0,
            m0 == old(m)@,
            mv == fields_v(m0),
            mv.len() == m0.len(),
            forall|j: int| 0 <= j < m0.len() ==> #[trigger] mv[j] == (m0[j].0@, m0[j].1@),
            kc@ == k@,
            i <= m@.len(),
            forall|j: int| 0 <= j < i ==> #[trigger] mv[j].0 != k@ && !str_lt(k@, mv[j].0),
        decreases m@.len() - i,
    {
        let mc = chars_of(m[i].0.as_str());
        assert(mv[i as int].0 == m0[i as int].0@);
        if chars_eq(mc.as_slice(), kc.as_slice()) {
            proof {
                lemma_field_insert_skip(mv, k@, v@, i as int);
                assert(mv.skip(i as int).drop_first() =~= mv.skip(i + 1));
                assert(mv.skip(i as int)[0] == mv[i as int]);
                assert(field_insert(mv.skip(i as int), k@, v@) == seq![(k@, v@)] + mv.skip(i + 1));
            }
            m.set(i, (k, v));
            proof {
                lemma_fields_v(m@);
                assert(fields_v(m@) =~= mv.take(i as int) + (seq![(kc@, v@)] + mv.skip(i + 1)));
            }
            return;
        }
        if chars_lt(kc.as_slice(), mc.as_slice()) {
            proof {
                lemma_field_insert_skip(mv, k@, v@, i as int);
                assert(mv.skip(i as int)[0] == mv[i as int]);
                assert(field_insert(mv.skip(i as int), k@, v@) == seq![(k@, v@)] + mv.skip(i as int));
            }
            m.insert(i, (k, v));
            proof {
                lemma_fields_v(m@);
                assert(fields_v(m@) =~= mv.take(i as int) + (seq![(kc@, v@)] + mv.skip(i as int)));
            }
            return;
        }
        i = i + 1;
    }
    proof {
        lemma_field_insert_skip(mv, k@, v@, i as int);
        assert(mv.skip(i as int) =~= Seq::<(Seq<char>, Val)>::empty());
        assert(mv.take(i as int) =~= mv);
    }
    m.push((k, v));
    proof {
        assert(m@.drop_last() =~= m0);
    }
}

impl WireValue {
    /// A string value.
    pub fn string(s: String) -> (r: Self)
        ensures
            r@ == Val::Str(s@),
    {
        WireValue::String(s)
    }

    /// A record from `(label, value)` pairs: labels ascending, a repeated
    /// label keeping its last value.
    pub fn record(fields: Vec<(String, WireValue)>) -> (r: Self)
        ensures
            r@ == Val::Record(record_of(fields_v(fields@))),
            labels_ascending(record_of(fields_v(fields@))),
    {
        proof {
            lemma_record_of_ascending(fields_v(fields@));
        }
        let ghost f0 = fields@;
        proof {
            lemma_fields_v(f0);
        }
        let mut out: Vec<(String, WireValue)> = Vec::new();
        proof {
            assert(fields_v(out@) =~= record_of(fields_v(f0.take(0))));
        }
        let mut i: usize = 0;
        let n = fields.len();
        while i < n
            invariant
                fields@ == f0,
                n == f0.len(),
                i <= n,
                fields_v(out@) == record_of(fields_v(f0.take(i as int))),
                fields_v(f0).len() == f0.len(),
                forall|j: int| 0 <= j < f0.len() ==> #[trigger] fields_v(f0)[j] == (f0[j].0@, f0[j].1@),
            decreases n - i,
        {
            let k = fields[i].0.clone();
            let v = fields[i].1.clone();
            proof {
                assert(f0.take(i + 1).drop_last() =~= f0.take(i as int));
                assert(fields_v(f0.take(i + 1)).drop_last() == fields_v(f0.take(i as int)));
                assert(f0.take(i + 1).last() == f0[i as int]);
                assert(fields_v(f0.take(i + 1)).last() == (k@, v@));
            }
            insert_field(&mut out, k, v);
            i = i + 1;
        }
        proof {
            assert(f0.take(n as int) =~= f0);
        }
        WireValue::Record(out)
    }

    /// A constructor application.
    pub fn ctor(name: String, args: Vec<WireValue>) -> (r: Self)
        ensures
            r@ == Val::Ctor(name@, vals_v(args@)),
    {
        WireValue::Ctor(name, args)
    }
}

} // verus!
