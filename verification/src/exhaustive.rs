//! Pattern-match exhaustiveness and redundancy checking.
//!
//! Maranget's usefulness algorithm over a pattern matrix. A match is
//! non-exhaustive when a wildcard row is *useful* against the matrix of its
//! arms (some value matches no arm), and the witnesses reconstructed from
//! that check name the missing cases. An arm is redundant when its own row
//! is *not* useful against the rows above it.
//!
//! Column types are read through a [`SigTable`]: each type is either open
//! (literals and other values; covered only by a wildcard) or closed, with
//! its constructors and their field types.
use vstd::prelude::*;

use crate::ast::{AstNode, Pattern, Projection};
use crate::diag::{CheckCode, CheckDiagnostic, Span};
use crate::select::{first, first_text, pick, selects, text_of, Sel};
use crate::syntax::{SyntaxKind, Tree};
use crate::wire::grammar::{lemma_str_lt_total, lemma_str_lt_trans, str_lt};
use crate::wire::laws::lemma_str_lt_asym;
use crate::wire::schema::{chars_eq, chars_lt};
use crate::wire::text::{chars_of, nat_text, push_chars, write_nat};
use crate::wire::value::{Ty, TyV};

verus! {

// ── constructors, patterns, witnesses ──────────────────────────────

/// A constructor head used to index a column of the pattern matrix.
#[derive(Debug)]
pub enum Ctor {
    /// A named data constructor of a declared ADT.
    Variant(String),
    /// The sole constructor of a tuple type.
    Tuple,
    /// A literal, keyed by its source text; its signature is open.
    Lit(String),
}

/// The view of a [`Ctor`].
pub enum CtorV {
    /// A data constructor.
    Variant(Seq<char>),
    /// The tuple constructor.
    Tuple,
    /// A literal.
    Lit(Seq<char>),
}

impl View for Ctor {
    type V = CtorV;

    open spec fn view(&self) -> CtorV {
        match self {
            Ctor::Variant(n) => CtorV::Variant(n@),
            Ctor::Tuple => CtorV::Tuple,
            Ctor::Lit(t) => CtorV::Lit(t@),
        }
    }
}

impl Clone for Ctor {
    fn clone(&self) -> (r: Self)
        ensures
            r@ == self@,
    {
        match self {
            Ctor::Variant(n) => Ctor::Variant(n.clone()),
            Ctor::Tuple => Ctor::Tuple,
            Ctor::Lit(t) => Ctor::Lit(t.clone()),
        }
    }
}

/// Whether two strings hold the same text.
fn same_text(a: &String, b: &String) -> (r: bool)
    ensures
        r == (a@ == b@),
{
    let x = chars_of(a.as_str());
    let y = chars_of(b.as_str());
    chars_eq(x.as_slice(), y.as_slice())
}

/// Whether two constructors are the same.
pub fn ctor_eq(a: &Ctor, b: &Ctor) -> (r: bool)
    ensures
        r == (a@ == b@),
{
    match (a, b) {
        (Ctor::Variant(x), Ctor::Variant(y)) => same_text(x, y),
        (Ctor::Tuple, Ctor::Tuple) => true,
        (Ctor::Lit(x), Ctor::Lit(y)) => same_text(x, y),
        _ => false,
    }
}

/// A pattern reduced to what coverage needs: wildcard and variable
/// patterns both become [`Pat::Wild`].
#[derive(Debug)]
pub enum Pat {
    /// Matches any value of the column type.
    Wild,
    /// A constructor applied to one sub-pattern per field.
    Con(Ctor, Vec<Pat>),
}

/// The view of a [`Pat`].
pub enum PatV {
    /// The wildcard.
    Wild,
    /// A constructor pattern.
    Con(CtorV, Seq<PatV>),
}

/// The view of a pattern.
pub open spec fn pat_v(p: &Pat) -> PatV
    decreases p, 1nat,
{
    match p {
        Pat::Wild => PatV::Wild,
        Pat::Con(c, ps) => PatV::Con(c@, pats_v(ps@)),
    }
}

/// The views of a sequence of patterns.
pub open spec fn pats_v(s: Seq<Pat>) -> Seq<PatV>
    decreases s, 0nat,
{
    if s.len() == 0 {
        Seq::empty()
    } else {
        pats_v(s.drop_last()).push(pat_v(&s.last()))
    }
}

impl View for Pat {
    type V = PatV;

    open spec fn view(&self) -> PatV {
        pat_v(self)
    }
}

/// The views of patterns are taken element-wise.
pub proof fn lemma_pats_v(s: Seq<Pat>)
    ensures
        pats_v(s).len() == s.len(),
        forall|i: int| 0 <= i < s.len() ==> #[trigger] pats_v(s)[i] == s[i]@,
    decreases s.len(),
{
    if s.len() > 0 {
        lemma_pats_v(s.drop_last());
        assert forall|i: int| 0 <= i < s.len() implies #[trigger] pats_v(s)[i] == s[i]@ by {
            if i < s.len() - 1 {
                assert(s.drop_last()[i] == s[i]);
            }
        }
    }
}

/// The view of a pattern matrix, row by row.
pub open spec fn matrix_v(m: Seq<Vec<Pat>>) -> Seq<Seq<PatV>> {
    Seq::new(m.len(), |i: int| pats_v(m[i]@))
}

impl Clone for Pat {
    fn clone(&self) -> (r: Self)
        ensures
            r@ == self@,
        decreases self,
    {
        match self {
            Pat::Wild => Pat::Wild,
            Pat::Con(c, ps) => Pat::Con(c.clone(), clone_pats(ps)),
        }
    }
}

/// A copy of a slice of patterns.
pub fn clone_pats(s: &Vec<Pat>) -> (r: Vec<Pat>)
    ensures
        pats_v(r@) == pats_v(s@),
    decreases s,
{
    let mut r: Vec<Pat> = Vec::new();
    let mut i: usize = 0;
    while i < s.len()
        invariant
            i <= s@.len(),
            r@.len() == i,
            forall|j: int| 0 <= j < i ==> #[trigger] r@[j]@ == s@[j]@,
        decreases s@.len() - i,
    {
        r.push(s[i].clone());
        i = i + 1;
    }
    proof {
        lemma_pats_v(r@);
        lemma_pats_v(s@);
    }
    assert(pats_v(r@) =~= pats_v(s@));
    r
}

/// `n` wildcards.
pub open spec fn wilds(n: nat) -> Seq<PatV> {
    Seq::new(n, |i: int| PatV::Wild)
}

/// Appends `n` wildcards to `out`.
fn push_wilds(out: &mut Vec<Pat>, n: usize)
    ensures
        pats_v(final(out)@) == pats_v(old(out)@) + wilds(n as nat),
{
    let ghost start = out@;
    let mut i: usize = 0;
    while i < n
        invariant
            i <= n,
            out@.len() == start.len() + i,
            forall|j: int| 0 <= j < start.len() ==> #[trigger] out@[j] == start[j],
            forall|j: int| start.len() <= j < out@.len() ==> #[trigger] out@[j]@ == PatV::Wild,
        decreases n - i,
    {
        out.push(Pat::Wild);
        i = i + 1;
    }
    proof {
        lemma_pats_v(out@);
        lemma_pats_v(start);
        assert(pats_v(out@) =~= pats_v(start) + wilds(n as nat));
    }
}

/// Appends copies of `tail` to `out`.
fn push_pats(out: &mut Vec<Pat>, tail: &[Pat])
    ensures
        pats_v(final(out)@) == pats_v(old(out)@) + pats_v(tail@),
{
    let ghost start = out@;
    let mut i: usize = 0;
    while i < tail.len()
        invariant
            i <= tail@.len(),
            out@.len() == start.len() + i,
            forall|j: int| 0 <= j < start.len() ==> #[trigger] out@[j] == start[j],
            forall|j: int| 0 <= j < i ==> #[trigger] out@[start.len() + j]@ == tail@[j]@,
        decreases tail@.len() - i,
    {
        out.push(tail[i].clone());
        i = i + 1;
    }
    proof {
        lemma_pats_v(out@);
        lemma_pats_v(start);
        lemma_pats_v(tail@);
        assert forall|j: int| 0 <= j < out@.len() implies #[trigger] pats_v(out@)[j] == (pats_v(start)
            + pats_v(tail@))[j] by {
            if j >= start.len() {
                assert(out@[start.len() + (j - start.len())]@ == tail@[j - start.len()]@);
            }
        }
        assert(pats_v(out@) =~= pats_v(start) + pats_v(tail@));
    }
}

/// A reconstructed counter-example: a value shape that no arm matches.
#[derive(Debug)]
pub enum Witness {
    /// Some value of the column type; renders as `_`.
    Wild,
    /// A constructor applied to one sub-witness per field.
    Con(Ctor, Vec<Witness>),
}

/// The view of a [`Witness`].
pub enum WitV {
    /// Some value.
    Wild,
    /// A constructor witness.
    Con(CtorV, Seq<WitV>),
}

/// The view of a witness.
pub open spec fn wit_v(w: &Witness) -> WitV
    decreases w, 1nat,
{
    match w {
        Witness::Wild => WitV::Wild,
        Witness::Con(c, ws) => WitV::Con(c@, wits_v(ws@)),
    }
}

/// The views of a sequence of witnesses.
pub open spec fn wits_v(s: Seq<Witness>) -> Seq<WitV>
    decreases s, 0nat,
{
    if s.len() == 0 {
        Seq::empty()
    } else {
        wits_v(s.drop_last()).push(wit_v(&s.last()))
    }
}

impl View for Witness {
    type V = WitV;

    open spec fn view(&self) -> WitV {
        wit_v(self)
    }
}

/// The views of witnesses are taken element-wise.
pub proof fn lemma_wits_v(s: Seq<Witness>)
    ensures
        wits_v(s).len() == s.len(),
        forall|i: int| 0 <= i < s.len() ==> #[trigger] wits_v(s)[i] == s[i]@,
    decreases s.len(),
{
    if s.len() > 0 {
        lemma_wits_v(s.drop_last());
        assert forall|i: int| 0 <= i < s.len() implies #[trigger] wits_v(s)[i] == s[i]@ by {
            if i < s.len() - 1 {
                assert(s.drop_last()[i] == s[i]);
            }
        }
    }
}

/// The view of witness rows.
pub open spec fn wit_rows_v(m: Seq<Vec<Witness>>) -> Seq<Seq<WitV>> {
    Seq::new(m.len(), |i: int| wits_v(m[i]@))
}

impl Clone for Witness {
    fn clone(&self) -> (r: Self)
        ensures
            r@ == self@,
        decreases self,
    {
        match self {
            Witness::Wild => Witness::Wild,
            Witness::Con(c, ws) => Witness::Con(c.clone(), clone_wits(ws)),
        }
    }
}

/// A copy of a slice of witnesses.
pub fn clone_wits(s: &Vec<Witness>) -> (r: Vec<Witness>)
    ensures
        wits_v(r@) == wits_v(s@),
    decreases s,
{
    let mut r: Vec<Witness> = Vec::new();
    let mut i: usize = 0;
    while i < s.len()
        invariant
            i <= s@.len(),
            r@.len() == i,
            forall|j: int| 0 <= j < i ==> #[trigger] r@[j]@ == s@[j]@,
        decreases s@.len() - i,
    {
        r.push(s[i].clone());
        i = i + 1;
    }
    proof {
        lemma_wits_v(r@);
        lemma_wits_v(s@);
    }
    assert(wits_v(r@) =~= wits_v(s@));
    r
}

/// A copy of a slice of witnesses.
fn copy_wits(s: &[Witness]) -> (r: Vec<Witness>)
    ensures
        wits_v(r@) == wits_v(s@),
{
    let mut r: Vec<Witness> = Vec::new();
    let mut i: usize = 0;
    while i < s.len()
        invariant
            i <= s@.len(),
            r@.len() == i,
            forall|j: int| 0 <= j < i ==> #[trigger] r@[j]@ == s@[j]@,
        decreases s@.len() - i,
    {
        r.push(s[i].clone());
        i = i + 1;
    }
    proof {
        lemma_wits_v(r@);
        lemma_wits_v(s@);
    }
    assert(wits_v(r@) =~= wits_v(s@));
    r
}

/// A copy of a slice of patterns.
fn copy_pats(s: &[Pat]) -> (r: Vec<Pat>)
    ensures
        pats_v(r@) == pats_v(s@),
{
    let mut r: Vec<Pat> = Vec::new();
    let mut i: usize = 0;
    while i < s.len()
        invariant
            i <= s@.len(),
            r@.len() == i,
            forall|j: int| 0 <= j < i ==> #[trigger] r@[j]@ == s@[j]@,
        decreases s@.len() - i,
    {
        r.push(s[i].clone());
        i = i + 1;
    }
    proof {
        lemma_pats_v(r@);
        lemma_pats_v(s@);
    }
    assert(pats_v(r@) =~= pats_v(s@));
    r
}

// ── matrix operations ──────────────────────────────────────────────

/// The row a matrix row becomes when the matrix is specialised by `c` of
/// `arity`: `None` when it is headed by another constructor.
pub open spec fn spec_row(row: Seq<PatV>, c: CtorV, arity: nat) -> Option<Seq<PatV>> {
    match row[0] {
        PatV::Con(c2, args) => if c2 == c {
            Some(args + row.drop_first())
        } else {
            None
        },
        PatV::Wild => Some(wilds(arity) + row.drop_first()),
    }
}

/// The matrix specialised by `c` of `arity`: rows headed by `c` keep its
/// sub-patterns, wildcard rows expand to `arity` wildcards, and rows headed
/// by another constructor are dropped; the first column is consumed.
pub open spec fn specialize_v(m: Seq<Seq<PatV>>, c: CtorV, arity: nat) -> Seq<Seq<PatV>>
    decreases m.len(),
{
    if m.len() == 0 {
        Seq::empty()
    } else {
        let r = specialize_v(m.drop_last(), c, arity);
        match spec_row(m.last(), c, arity) {
            Some(x) => r.push(x),
            None => r,
        }
    }
}

/// The default matrix: rows headed by a wildcard, with that head removed.
pub open spec fn default_v(m: Seq<Seq<PatV>>) -> Seq<Seq<PatV>>
    decreases m.len(),
{
    if m.len() == 0 {
        Seq::empty()
    } else {
        let r = default_v(m.drop_last());
        match m.last()[0] {
            PatV::Wild => r.push(m.last().drop_first()),
            _ => r,
        }
    }
}

/// The distinct constructor heads of the first column, in order of first
/// appearance.
pub open spec fn head_ctors_v(m: Seq<Seq<PatV>>) -> Seq<CtorV>
    decreases m.len(),
{
    if m.len() == 0 {
        Seq::empty()
    } else {
        let r = head_ctors_v(m.drop_last());
        match m.last()[0] {
            PatV::Con(c, _) => if r.contains(c) {
                r
            } else {
                r.push(c)
            },
            _ => r,
        }
    }
}

/// Whether every row of `m` has at least one column.
pub open spec fn rows_nonempty(m: Seq<Seq<PatV>>) -> bool {
    forall|i: int| 0 <= i < m.len() ==> #[trigger] m[i].len() > 0
}

/// Specialises `matrix` by `ctor` of the given `arity`.
pub fn specialize(matrix: &[Vec<Pat>], ctor: &Ctor, arity: usize) -> (r: Vec<Vec<Pat>>)
    requires
        rows_nonempty(matrix_v(matrix@)),
    ensures
        matrix_v(r@) == specialize_v(matrix_v(matrix@), ctor@, arity as nat),
{
    let ghost m = matrix_v(matrix@);
    let mut out: Vec<Vec<Pat>> = Vec::new();
    let mut i: usize = 0;
    while i < matrix.len()
        invariant
            i <= matrix@.len(),
            m == matrix_v(matrix@),
            rows_nonempty(m),
            matrix_v(out@) == specialize_v(m.take(i as int), ctor@, arity as nat),
        decreases matrix@.len() - i,
    {
        let row = &matrix[i];
        proof {
            lemma_pats_v(row@);
            assert(m[i as int] == pats_v(row@));
            assert(m[i as int].len() > 0);
            assert(m.take(i + 1).drop_last() =~= m.take(i as int));
            assert(row@[0]@ == m[i as int][0]);
            assert(pats_v(row@.subrange(1, row@.len() as int)) == m[i as int].drop_first()) by {
                lemma_pats_v(row@.subrange(1, row@.len() as int));
                assert(pats_v(row@.subrange(1, row@.len() as int)) =~= m[i as int].drop_first());
            }
        }
        let ghost before = out@;
        let tail = row.as_slice().split_at(1).1;
        assert(tail@ == row@.subrange(1, row@.len() as int));
        match &row[0] {
            Pat::Con(c, args) => {
                if ctor_eq(c, ctor) {
                    let mut new_row = clone_pats(args);
                    push_pats(&mut new_row, tail);
                    out.push(new_row);
                    proof {
                        assert(matrix_v(out@) =~= matrix_v(before).push(pats_v(new_row@)));
                    }
                }
            },
            Pat::Wild => {
                let mut new_row: Vec<Pat> = Vec::new();
                proof {
                    assert(pats_v(new_row@) =~= Seq::<PatV>::empty());
                }
                push_wilds(&mut new_row, arity);
                push_pats(&mut new_row, tail);
                proof {
                    assert(Seq::<PatV>::empty() + wilds(arity as nat) =~= wilds(arity as nat));
                }
                out.push(new_row);
                proof {
                    assert(matrix_v(out@) =~= matrix_v(before).push(pats_v(new_row@)));
                }
            },
        }
        i = i + 1;
    }
    proof {
        assert(m.take(matrix@.len() as int) =~= m);
    }
    out
}

/// The default matrix of `matrix`.
pub fn default_matrix(matrix: &[Vec<Pat>]) -> (r: Vec<Vec<Pat>>)
    requires
        rows_nonempty(matrix_v(matrix@)),
    ensures
        matrix_v(r@) == default_v(matrix_v(matrix@)),
{
    let ghost m = matrix_v(matrix@);
    let mut out: Vec<Vec<Pat>> = Vec::new();
    let mut i: usize = 0;
    while i < matrix.len()
        invariant
            i <= matrix@.len(),
            m == matrix_v(matrix@),
            rows_nonempty(m),
            matrix_v(out@) == default_v(m.take(i as int)),
        decreases matrix@.len() - i,
    {
        let row = &matrix[i];
        proof {
            lemma_pats_v(row@);
            assert(m[i as int] == pats_v(row@));
            assert(m[i as int].len() > 0);
            assert(m.take(i + 1).drop_last() =~= m.take(i as int));
            assert(row@[0]@ == m[i as int][0]);
            assert(pats_v(row@.subrange(1, row@.len() as int)) == m[i as int].drop_first()) by {
                lemma_pats_v(row@.subrange(1, row@.len() as int));
                assert(pats_v(row@.subrange(1, row@.len() as int)) =~= m[i as int].drop_first());
            }
        }
        let ghost before = out@;
        if let Pat::Wild = &row[0] {
            let tail = row.as_slice().split_at(1).1;
            assert(tail@ == row@.subrange(1, row@.len() as int));
            let mut new_row: Vec<Pat> = Vec::new();
            proof {
                assert(pats_v(new_row@) =~= Seq::<PatV>::empty());
            }
            push_pats(&mut new_row, tail);
            proof {
                assert(Seq::<PatV>::empty() + pats_v(tail@) =~= pats_v(tail@));
            }
            out.push(new_row);
            proof {
                assert(matrix_v(out@) =~= matrix_v(before).push(pats_v(new_row@)));
            }
        }
        i = i + 1;
    }
    proof {
        assert(m.take(matrix@.len() as int) =~= m);
    }
    out
}

/// Whether `c` is among `cs`.
fn contains_ctor(cs: &[Ctor], c: &Ctor) -> (r: bool)
    ensures
        r == exists|i: int| 0 <= i < cs@.len() && #[trigger] cs@[i]@ == c@,
{
    let mut i: usize = 0;
    while i < cs.len()
        invariant
            i <= cs@.len(),
            forall|j: int| 0 <= j < i ==> #[trigger] cs@[j]@ != c@,
        decreases cs@.len() - i,
    {
        if ctor_eq(&cs[i], c) {
            return true;
        }
        i = i + 1;
    }
    false
}

/// The views of a sequence of constructors.
pub open spec fn ctors_v(s: Seq<Ctor>) -> Seq<CtorV> {
    Seq::new(s.len(), |i: int| s[i]@)
}

/// The distinct constructor heads appearing in the first column.
pub fn head_ctors(matrix: &[Vec<Pat>]) -> (r: Vec<Ctor>)
    requires
        rows_nonempty(matrix_v(matrix@)),
    ensures
        ctors_v(r@) == head_ctors_v(matrix_v(matrix@)),
{
    let ghost m = matrix_v(matrix@);
    let mut ctors: Vec<Ctor> = Vec::new();
    let mut i: usize = 0;
    while i < matrix.len()
        invariant
            i <= matrix@.len(),
            m == matrix_v(matrix@),
            rows_nonempty(m),
            ctors_v(ctors@) == head_ctors_v(m.take(i as int)),
        decreases matrix@.len() - i,
    {
        let row = &matrix[i];
        proof {
            lemma_pats_v(row@);
            assert(m[i as int] == pats_v(row@));
            assert(m[i as int].len() > 0);
            assert(m.take(i + 1).drop_last() =~= m.take(i as int));
            assert(row@[0]@ == m[i as int][0]);
        }
        if let Pat::Con(c, _) = &row[0] {
            let present = contains_ctor(ctors.as_slice(), c);
            proof {
                let h = head_ctors_v(m.take(i as int));
                if h.contains(c@) {
                    let k = choose|k: int| 0 <= k < h.len() && h[k] == c@;
                    assert(ctors@[k]@ == c@);
                }
                if present {
                    let k = choose|k: int| 0 <= k < ctors@.len() && #[trigger] ctors@[k]@ == c@;
                    assert(h[k] == c@);
                }
            }
            if !present {
                let ghost before = ctors@;
                ctors.push(c.clone());
                proof {
                    assert(ctors_v(ctors@) =~= ctors_v(before).push(c@));
                }
            }
        }
        i = i + 1;
    }
    proof {
        assert(m.take(matrix@.len() as int) =~= m);
    }
    ctors
}

/// A witness row re-wrapped after specialising by `c` of `arity`: the
/// leading `arity` columns (or all, if fewer) become the constructor's
/// sub-witnesses.
pub open spec fn wrap_row(c: CtorV, arity: nat, row: Seq<WitV>) -> Seq<WitV> {
    let k = if arity <= row.len() {
        arity as int
    } else {
        row.len() as int
    };
    seq![WitV::Con(c, row.take(k))] + row.skip(k)
}

/// Re-wraps witness rows produced after specialising by `ctor` of `arity`.
pub fn wrap_ctor(ctor: &Ctor, arity: usize, rows: Vec<Vec<Witness>>) -> (r: Vec<Vec<Witness>>)
    ensures
        wit_rows_v(r@) == Seq::new(rows@.len(), |i: int| wrap_row(ctor@, arity as nat, wits_v(rows@[i]@))),
{
    let mut out: Vec<Vec<Witness>> = Vec::new();
    let mut i: usize = 0;
    while i < rows.len()
        invariant
            i <= rows@.len(),
            out@.len() == i,
            forall|j: int| 0 <= j < i ==> #[trigger] wits_v(out@[j]@) == wrap_row(ctor@, arity as nat, wits_v(rows@[j]@)),
        decreases rows@.len() - i,
    {
        let row = &rows[i];
        let k: usize = if arity <= row.len() { arity } else { row.len() };
        let fields = copy_wits(row.as_slice().split_at(k).0);
        let mut wrapped: Vec<Witness> = Vec::new();
        wrapped.push(Witness::Con(ctor.clone(), fields));
        let rest = row.as_slice().split_at(k).1;
        let mut j: usize = 0;
        while j < rest.len()
            invariant
                j <= rest@.len(),
                wrapped@.len() == 1 + j,
                wrapped@[0]@ == WitV::Con(ctor@, wits_v(row@.take(k as int))),
                forall|t: int| 0 <= t < j ==> #[trigger] wrapped@[1 + t]@ == rest@[t]@,
            decreases rest@.len() - j,
        {
            wrapped.push(rest[j].clone());
            j = j + 1;
        }
        proof {
            lemma_wits_v(wrapped@);
            lemma_wits_v(row@);
            lemma_wits_v(row@.take(k as int));
            assert(wits_v(row@.take(k as int)) =~= wits_v(row@).take(k as int));
            assert forall|t: int| 0 <= t < wrapped@.len() implies #[trigger] wits_v(wrapped@)[t]
                == wrap_row(ctor@, arity as nat, wits_v(row@))[t] by {
                if t > 0 {
                    assert(wrapped@[1 + (t - 1)]@ == rest@[t - 1]@);
                    assert(rest@[t - 1] == row@[k + t - 1]);
                }
            }
            assert(wits_v(wrapped@) =~= wrap_row(ctor@, arity as nat, wits_v(row@)));
        }
        out.push(wrapped);
        i = i + 1;
    }
    proof {
        assert(wit_rows_v(out@) =~= Seq::new(rows@.len(), |i: int| wrap_row(ctor@, arity as nat, wits_v(rows@[i]@))));
    }
    out
}

// ── column types and values ────────────────────────────────────────

/// What coverage reads of one column type.
#[derive(Debug)]
pub enum Sig {
    /// An open value space: literals and values no literal names (numbers,
    /// strings, type variables, records, functions).
    Open,
    /// A closed constructor set, each constructor with the table indices
    /// of its field types.
    Closed(Vec<(Ctor, Vec<usize>)>),
}

/// The view of a [`Sig`].
pub enum SigV {
    /// An open value space.
    Open,
    /// A closed constructor set.
    Closed(Seq<(CtorV, Seq<usize>)>),
}

impl View for Sig {
    type V = SigV;

    open spec fn view(&self) -> SigV {
        match self {
            Sig::Open => SigV::Open,
            Sig::Closed(cs) => SigV::Closed(Seq::new(cs@.len(), |i: int| (cs@[i].0@, cs@[i].1@))),
        }
    }
}

/// The column types a match is checked at, by index.
#[derive(Debug)]
pub struct SigTable {
    /// The signature of each type.
    pub sigs: Vec<Sig>,
}

impl View for SigTable {
    type V = Seq<SigV>;

    open spec fn view(&self) -> Seq<SigV> {
        Seq::new(self.sigs@.len(), |i: int| self.sigs@[i]@)
    }
}

/// Whether `c` is a constructor of the closed set `cs`.
pub open spec fn has_ctor(cs: Seq<(CtorV, Seq<usize>)>, c: CtorV) -> bool {
    exists|k: int| 0 <= k < cs.len() && #[trigger] cs[k].0 == c
}

/// The field types of `c` at column type `t`: those the closed set lists
/// for it, none otherwise.
pub open spec fn field_tys(tbl: Seq<SigV>, t: usize, c: CtorV) -> Seq<usize> {
    if t < tbl.len() {
        match tbl[t as int] {
            SigV::Closed(cs) => if has_ctor(cs, c) {
                cs[choose|k: int| 0 <= k < cs.len() && #[trigger] cs[k].0 == c].1
            } else {
                Seq::empty()
            },
            SigV::Open => Seq::empty(),
        }
    } else {
        Seq::empty()
    }
}

/// Whether a table is well formed: every closed set lists each
/// constructor once, and every field type is in the table.
pub open spec fn table_wf(tbl: Seq<SigV>) -> bool {
    forall|t: int| 0 <= t < tbl.len() ==> match #[trigger] tbl[t] {
        SigV::Closed(cs) => {
            &&& forall|k1: int, k2: int|
                0 <= k1 < cs.len() && 0 <= k2 < cs.len() && #[trigger] cs[k1].0 == #[trigger] cs[k2].0
                    ==> k1 == k2
            &&& forall|k: int, i: int|
                0 <= k < cs.len() && 0 <= i < cs[k].1.len() ==> #[trigger] cs[k].1[i] < tbl.len()
        },
        SigV::Open => true,
    }
}

/// A value, as far as matching sees it.
pub enum Value {
    /// A constructor applied to field values (a literal has none).
    Con(CtorV, Seq<Value>),
    /// A value of an open type that no literal names.
    Other,
}

/// Whether `v` is a value of column type `t`.
pub open spec fn typed(tbl: Seq<SigV>, t: usize, v: Value) -> bool
    decreases v, 1nat,
{
    t < tbl.len() && match tbl[t as int] {
        SigV::Open => match v {
            Value::Other => true,
            Value::Con(c, vs) => c is Lit && vs.len() == 0,
        },
        SigV::Closed(cs) => match v {
            Value::Con(c, vs) => has_ctor(cs, c) && typed_all(tbl, field_tys(tbl, t, c), vs),
            Value::Other => false,
        },
    }
}

/// Whether `vs` are values of the column types `ts`.
pub open spec fn typed_all(tbl: Seq<SigV>, ts: Seq<usize>, vs: Seq<Value>) -> bool
    decreases vs, 0nat,
{
    ts.len() == vs.len() && forall|i: int| 0 <= i < vs.len() ==> typed(tbl, ts[i], #[trigger] vs[i])
}

/// Whether pattern `p` matches value `v`.
pub open spec fn matches(p: PatV, v: Value) -> bool
    decreases p, 1nat,
{
    match p {
        PatV::Wild => true,
        PatV::Con(c, ps) => match v {
            Value::Con(c2, vs) => c == c2 && matches_all(ps, vs),
            Value::Other => false,
        },
    }
}

/// Whether the patterns `ps` match the values `vs` column by column.
pub open spec fn matches_all(ps: Seq<PatV>, vs: Seq<Value>) -> bool
    decreases ps, 0nat,
{
    ps.len() == vs.len() && forall|i: int| 0 <= i < ps.len() ==> matches(#[trigger] ps[i], vs[i])
}

/// Whether value `v` has the shape of witness `w`.
pub open spec fn instance(w: WitV, v: Value) -> bool
    decreases w, 1nat,
{
    match w {
        WitV::Wild => true,
        WitV::Con(c, ws) => match v {
            Value::Con(c2, vs) => c == c2 && instance_all(ws, vs),
            Value::Other => false,
        },
    }
}

/// Whether the values `vs` have the shapes of the witnesses `ws`.
pub open spec fn instance_all(ws: Seq<WitV>, vs: Seq<Value>) -> bool
    decreases ws, 0nat,
{
    ws.len() == vs.len() && forall|i: int| 0 <= i < ws.len() ==> instance(#[trigger] ws[i], vs[i])
}

/// Whether pattern `p` fits column type `t`: each constructor belongs to
/// its column's type, with one sub-pattern per field.
pub open spec fn fits(tbl: Seq<SigV>, t: usize, p: PatV) -> bool
    decreases p, 1nat,
{
    match p {
        PatV::Wild => true,
        PatV::Con(c, ps) => t < tbl.len() && match tbl[t as int] {
            SigV::Closed(cs) => has_ctor(cs, c) && fits_all(tbl, field_tys(tbl, t, c), ps),
            SigV::Open => c is Lit && ps.len() == 0,
        },
    }
}

/// Whether the patterns `ps` fit the column types `ts`.
pub open spec fn fits_all(tbl: Seq<SigV>, ts: Seq<usize>, ps: Seq<PatV>) -> bool
    decreases ps, 0nat,
{
    ts.len() == ps.len() && forall|i: int| 0 <= i < ps.len() ==> fits(tbl, ts[i], #[trigger] ps[i])
}

/// Whether no row of `m` matches `vs`.
pub open spec fn none_match(m: Seq<Seq<PatV>>, vs: Seq<Value>) -> bool {
    forall|i: int| 0 <= i < m.len() ==> !matches_all(#[trigger] m[i], vs)
}

/// Whether some values of the column types match `q` and no row of `m`:
/// `q` is useful against `m`.
pub open spec fn uncovered(tbl: Seq<SigV>, m: Seq<Seq<PatV>>, q: Seq<PatV>, cols: Seq<usize>) -> bool {
    exists|vs: Seq<Value>| typed_all(tbl, cols, vs) && matches_all(q, vs) && #[trigger] none_match(m, vs)
}

/// Whether witness row `w` names values of the column types that match
/// `q` and no row of `m`.
pub open spec fn realizable(tbl: Seq<SigV>, m: Seq<Seq<PatV>>, q: Seq<PatV>, cols: Seq<usize>, w: Seq<WitV>) -> bool {
    exists|vs: Seq<Value>|
        typed_all(tbl, cols, vs) && instance_all(w, vs) && matches_all(q, vs) && #[trigger] none_match(m, vs)
}

/// Whether column type `t` has a value.
pub open spec fn has_value(tbl: Seq<SigV>, t: usize) -> bool {
    exists|v: Value| #[trigger] typed(tbl, t, v)
}

/// Whether every column type has a value.
pub open spec fn inhabited(tbl: Seq<SigV>) -> bool {
    forall|t: usize| t < tbl.len() ==> #[trigger] has_value(tbl, t)
}

// ── lemmas of matching ─────────────────────────────────────────────

/// Matching a concatenation of rows is matching each part.
proof fn lemma_matches_concat(a: Seq<PatV>, b: Seq<PatV>, va: Seq<Value>, vb: Seq<Value>)
    requires
        a.len() == va.len(),
    ensures
        matches_all(a + b, va + vb) <==> matches_all(a, va) && matches_all(b, vb),
{
    if matches_all(a + b, va + vb) {
        assert forall|i: int| 0 <= i < a.len() implies matches(#[trigger] a[i], va[i]) by {
            assert((a + b)[i] == a[i]);
            assert((va + vb)[i] == va[i]);
        }
        assert forall|i: int| 0 <= i < b.len() implies matches(#[trigger] b[i], vb[i]) by {
            assert((a + b)[a.len() + i] == b[i]);
            assert((va + vb)[a.len() + i] == vb[i]);
        }
    }
    if matches_all(a, va) && matches_all(b, vb) {
        assert forall|i: int| 0 <= i < (a + b).len() implies matches(#[trigger] (a + b)[i], (va + vb)[i]) by {
            if i < a.len() {
                assert(matches(a[i], va[i]));
            } else {
                assert(matches(b[i - a.len()], vb[i - a.len()]));
            }
        }
    }
}

/// Wildcards match any values of their number.
proof fn lemma_wilds_match(vs: Seq<Value>)
    ensures
        matches_all(wilds(vs.len()), vs),
{
}

/// A row matches a value vector exactly when its head matches the first
/// value and its tail the rest.
proof fn lemma_matches_head(row: Seq<PatV>, v0: Value, tail: Seq<Value>)
    requires
        row.len() > 0,
    ensures
        matches_all(row, seq![v0] + tail) <==> matches(row[0], v0) && matches_all(row.drop_first(), tail),
{
    assert(row =~= seq![row[0]] + row.drop_first());
    lemma_matches_concat(seq![row[0]], row.drop_first(), seq![v0], tail);
}

/// A row matches a constructor-headed vector exactly when its
/// specialisation matches the constructor's fields and the rest.
proof fn lemma_spec_row(row: Seq<PatV>, c: CtorV, ws: Seq<Value>, tail: Seq<Value>)
    requires
        row.len() == tail.len() + 1,
    ensures
        matches_all(row, seq![Value::Con(c, ws)] + tail) <==> (spec_row(row, c, ws.len()) matches Some(
            x,
        ) && matches_all(x, ws + tail)),
{
    lemma_matches_head(row, Value::Con(c, ws), tail);
    match row[0] {
        PatV::Wild => {
            lemma_matches_concat(wilds(ws.len()), row.drop_first(), ws, tail);
        },
        PatV::Con(c2, ps) => {
            if c2 == c && ps.len() == ws.len() {
                lemma_matches_concat(ps, row.drop_first(), ws, tail);
            }
        },
    }
}

/// No row matches a constructor-headed vector exactly when no row of the
/// specialisation matches its fields and the rest.
proof fn lemma_specialize(m: Seq<Seq<PatV>>, c: CtorV, ws: Seq<Value>, tail: Seq<Value>)
    requires
        forall|i: int| 0 <= i < m.len() ==> #[trigger] m[i].len() == tail.len() + 1,
    ensures
        none_match(m, seq![Value::Con(c, ws)] + tail) <==> none_match(
            specialize_v(m, c, ws.len()),
            ws + tail,
        ),
    decreases m.len(),
{
    let vs = seq![Value::Con(c, ws)] + tail;
    if m.len() > 0 {
        let d = m.drop_last();
        assert forall|i: int| 0 <= i < d.len() implies #[trigger] d[i].len() == tail.len() + 1 by {
            assert(d[i] == m[i]);
        }
        lemma_specialize(d, c, ws, tail);
        lemma_spec_row(m.last(), c, ws, tail);
        let r = specialize_v(d, c, ws.len());
        if none_match(m, vs) {
            assert forall|i: int| 0 <= i < d.len() implies !matches_all(#[trigger] d[i], vs) by {
                assert(d[i] == m[i]);
            }
            assert(!matches_all(m[m.len() - 1], vs));
        }
        if none_match(specialize_v(m, c, ws.len()), ws + tail) {
            let full = specialize_v(m, c, ws.len());
            assert forall|j: int| 0 <= j < r.len() implies !matches_all(#[trigger] r[j], ws + tail) by {
                assert(full[j] == r[j]);
            }
            assert forall|i: int| 0 <= i < m.len() implies !matches_all(#[trigger] m[i], vs) by {
                if i < m.len() - 1 {
                    assert(d[i] == m[i]);
                } else {
                    if let Some(x) = spec_row(m.last(), c, ws.len()) {
                        assert(full[r.len() as int] == x);
                    }
                }
            }
        }
    }
}

/// Whether some row of `m` is headed by constructor `c`.
pub open spec fn headed_by(m: Seq<Seq<PatV>>, c: CtorV) -> bool {
    exists|i: int| 0 <= i < m.len() && (#[trigger] m[i][0] matches PatV::Con(c2, _) && c2 == c)
}

/// The head constructors are exactly the constructors heading some row.
proof fn lemma_head_ctors(m: Seq<Seq<PatV>>, c: CtorV)
    ensures
        head_ctors_v(m).contains(c) <==> headed_by(m, c),
    decreases m.len(),
{
    if m.len() > 0 {
        let d = m.drop_last();
        lemma_head_ctors(d, c);
        if headed_by(d, c) {
            let i = choose|i: int| 0 <= i < d.len() && (#[trigger] d[i][0] matches PatV::Con(c2, _) && c2 == c);
            assert(m[i] == d[i]);
        }
        if headed_by(m, c) {
            let i = choose|i: int| 0 <= i < m.len() && (#[trigger] m[i][0] matches PatV::Con(c2, _) && c2 == c);
            if i < m.len() - 1 {
                assert(m[i] == d[i]);
            }
        }
        let r = head_ctors_v(d);
        if r.contains(c) {
            let k = choose|k: int| 0 <= k < r.len() && r[k] == c;
            match m.last()[0] {
                PatV::Con(c3, _) => {
                    if !r.contains(c3) {
                        assert(r.push(c3)[k] == c);
                    }
                },
                _ => {},
            }
        }
        match m.last()[0] {
            PatV::Con(c3, _) => {
                if c3 == c && !r.contains(c3) {
                    assert(r.push(c3)[r.len() as int] == c);
                }
            },
            _ => {},
        }
    }
}

/// A wildcard-headed row that matches the rest makes the full row match
/// any head; and when no constructor-headed row matches the head value,
/// the default matrix decides.
proof fn lemma_default(m: Seq<Seq<PatV>>, v0: Value, tail: Seq<Value>)
    requires
        forall|i: int| 0 <= i < m.len() ==> #[trigger] m[i].len() == tail.len() + 1,
    ensures
        none_match(m, seq![v0] + tail) ==> none_match(default_v(m), tail),
        (forall|i: int| 0 <= i < m.len() && (#[trigger] m[i][0]) is Con ==> !matches(m[i][0], v0))
            ==> (none_match(default_v(m), tail) ==> none_match(m, seq![v0] + tail)),
    decreases m.len(),
{
    let vs = seq![v0] + tail;
    if m.len() > 0 {
        let d = m.drop_last();
        assert forall|i: int| 0 <= i < d.len() implies #[trigger] d[i].len() == tail.len() + 1 by {
            assert(d[i] == m[i]);
        }
        lemma_default(d, v0, tail);
        lemma_matches_head(m.last(), v0, tail);
        let r = default_v(d);
        let full = default_v(m);
        if none_match(m, vs) {
            assert forall|i: int| 0 <= i < d.len() implies !matches_all(#[trigger] d[i], vs) by {
                assert(d[i] == m[i]);
            }
            assert(!matches_all(m[m.len() - 1], vs));
            assert forall|j: int| 0 <= j < full.len() implies !matches_all(#[trigger] full[j], tail) by {
                if j < r.len() {
                    assert(full[j] == r[j]);
                }
            }
        }
        if (forall|i: int| 0 <= i < m.len() && (#[trigger] m[i][0]) is Con ==> !matches(m[i][0], v0))
            && none_match(full, tail) {
            assert forall|i: int| 0 <= i < d.len() && (#[trigger] d[i][0]) is Con implies !matches(d[i][0], v0) by {
                assert(d[i] == m[i]);
            }
            assert forall|j: int| 0 <= j < r.len() implies !matches_all(#[trigger] r[j], tail) by {
                assert(full[j] == r[j]);
            }
            assert forall|i: int| 0 <= i < m.len() implies !matches_all(#[trigger] m[i], vs) by {
                if i < m.len() - 1 {
                    assert(d[i] == m[i]);
                } else {
                    if m.last()[0] is Wild {
                        assert(full[r.len() as int] == m.last().drop_first());
                    }
                }
            }
        }
    }
}

// ── fitting and measure ────────────────────────────────────────────

/// Patterns that fit their column types fit in concatenation.
proof fn lemma_fits_concat(tbl: Seq<SigV>, ta: Seq<usize>, tb: Seq<usize>, a: Seq<PatV>, b: Seq<PatV>)
    requires
        fits_all(tbl, ta, a),
        fits_all(tbl, tb, b),
    ensures
        fits_all(tbl, ta + tb, a + b),
{
    assert forall|i: int| 0 <= i < (a + b).len() implies fits(tbl, (ta + tb)[i], #[trigger] (a + b)[i]) by {
        if i < a.len() {
            assert(fits(tbl, ta[i], a[i]));
        } else {
            assert(fits(tbl, tb[i - a.len()], b[i - a.len()]));
        }
    }
}

/// Wildcards fit any column types.
proof fn lemma_wilds_fit(tbl: Seq<SigV>, ts: Seq<usize>)
    ensures
        fits_all(tbl, ts, wilds(ts.len())),
{
}

/// The rows of a specialisation fit the constructor's field types
/// followed by the remaining columns.
proof fn lemma_spec_fits(tbl: Seq<SigV>, m: Seq<Seq<PatV>>, cols: Seq<usize>, c: CtorV)
    requires
        cols.len() > 0,
        forall|i: int| 0 <= i < m.len() ==> fits_all(tbl, cols, #[trigger] m[i]),
    ensures
        forall|j: int|
            0 <= j < specialize_v(m, c, field_tys(tbl, cols[0], c).len()).len() ==> fits_all(
                tbl,
                field_tys(tbl, cols[0], c) + cols.drop_first(),
                #[trigger] specialize_v(m, c, field_tys(tbl, cols[0], c).len())[j],
            ),
    decreases m.len(),
{
    let fields = field_tys(tbl, cols[0], c);
    let a = fields.len();
    if m.len() > 0 {
        let d = m.drop_last();
        assert forall|i: int| 0 <= i < d.len() implies fits_all(tbl, cols, #[trigger] d[i]) by {
            assert(d[i] == m[i]);
        }
        lemma_spec_fits(tbl, d, cols, c);
        let row = m.last();
        assert(fits_all(tbl, cols, row));
        assert(fits(tbl, cols[0], row[0]));
        let rest = row.drop_first();
        assert(fits_all(tbl, cols.drop_first(), rest)) by {
            assert forall|i: int| 0 <= i < rest.len() implies fits(tbl, cols.drop_first()[i], #[trigger] rest[i]) by {
                assert(fits(tbl, cols[i + 1], row[i + 1]));
            }
        }
        let r = specialize_v(d, c, a);
        let full = specialize_v(m, c, a);
        match spec_row(row, c, a) {
            Some(x) => {
                match row[0] {
                    PatV::Wild => {
                        lemma_wilds_fit(tbl, fields);
                        lemma_fits_concat(tbl, fields, cols.drop_first(), wilds(a), rest);
                    },
                    PatV::Con(c2, ps) => {
                        lemma_fits_concat(tbl, fields, cols.drop_first(), ps, rest);
                    },
                }
                assert forall|j: int| 0 <= j < full.len() implies fits_all(tbl, fields + cols.drop_first(), #[trigger] full[j]) by {
                    if j < r.len() {
                        assert(full[j] == r[j]);
                    }
                }
            },
            None => {},
        }
    }
}

/// The rows of the default matrix fit the remaining columns.
proof fn lemma_default_fits(tbl: Seq<SigV>, m: Seq<Seq<PatV>>, cols: Seq<usize>)
    requires
        cols.len() > 0,
        forall|i: int| 0 <= i < m.len() ==> fits_all(tbl, cols, #[trigger] m[i]),
    ensures
        forall|j: int| 0 <= j < default_v(m).len() ==> fits_all(tbl, cols.drop_first(), #[trigger] default_v(m)[j]),
    decreases m.len(),
{
    if m.len() > 0 {
        let d = m.drop_last();
        assert forall|i: int| 0 <= i < d.len() implies fits_all(tbl, cols, #[trigger] d[i]) by {
            assert(d[i] == m[i]);
        }
        lemma_default_fits(tbl, d, cols);
        let row = m.last();
        let rest = row.drop_first();
        assert(fits_all(tbl, cols, row));
        assert(fits_all(tbl, cols.drop_first(), rest)) by {
            assert forall|i: int| 0 <= i < rest.len() implies fits(tbl, cols.drop_first()[i], #[trigger] rest[i]) by {
                assert(fits(tbl, cols[i + 1], row[i + 1]));
            }
        }
        let r = default_v(d);
        let full = default_v(m);
        assert forall|j: int| 0 <= j < full.len() implies fits_all(tbl, cols.drop_first(), #[trigger] full[j]) by {
            if j < r.len() {
                assert(full[j] == r[j]);
            }
        }
    }
}

/// The number of constructor nodes in a pattern.
pub open spec fn cc(p: PatV) -> nat
    decreases p, 1nat,
{
    match p {
        PatV::Wild => 0,
        PatV::Con(_, ps) => 1 + cc_all(ps),
    }
}

/// The number of constructor nodes in a row.
pub open spec fn cc_all(ps: Seq<PatV>) -> nat
    decreases ps, 0nat,
{
    if ps.len() == 0 {
        0
    } else {
        cc_all(ps.drop_last()) + cc(ps.last())
    }
}

/// The number of constructor nodes in a matrix.
pub open spec fn cc_mat(m: Seq<Seq<PatV>>) -> nat
    decreases m.len(),
{
    if m.len() == 0 {
        0
    } else {
        cc_mat(m.drop_last()) + cc_all(m.last())
    }
}

/// Constructor counts add up over concatenation.
pub proof fn lemma_cc_concat(a: Seq<PatV>, b: Seq<PatV>)
    ensures
        cc_all(a + b) == cc_all(a) + cc_all(b),
    decreases b.len(),
{
    if b.len() > 0 {
        lemma_cc_concat(a, b.drop_last());
        assert((a + b).drop_last() =~= a + b.drop_last());
    } else {
        assert(a + b =~= a);
    }
}

/// Wildcards hold no constructors.
pub proof fn lemma_cc_wilds(n: nat)
    ensures
        cc_all(wilds(n)) == 0,
    decreases n,
{
    if n > 0 {
        lemma_cc_wilds((n - 1) as nat);
        assert(wilds(n).drop_last() =~= wilds((n - 1) as nat));
        assert(wilds(n).last() == PatV::Wild);
        assert(cc(PatV::Wild) == 0);
        assert(cc_all(wilds(n)) == cc_all(wilds(n).drop_last()) + cc(wilds(n).last()));
    } else {
        assert(wilds(n).len() == 0);
    }
}

/// A row's count is its head's plus its tail's.
pub proof fn lemma_cc_head(row: Seq<PatV>)
    requires
        row.len() > 0,
    ensures
        cc_all(row) == cc(row[0]) + cc_all(row.drop_first()),
{
    assert(row =~= seq![row[0]] + row.drop_first());
    lemma_cc_concat(seq![row[0]], row.drop_first());
    assert(seq![row[0]].drop_last() =~= Seq::<PatV>::empty());
    assert(cc_all(Seq::<PatV>::empty()) == 0);
    assert(cc_all(seq![row[0]]) == cc(row[0]));
}

/// Specialising never adds constructors, and removes one for each row
/// the constructor heads.
pub proof fn lemma_cc_specialize(m: Seq<Seq<PatV>>, c: CtorV, a: nat)
    requires
        rows_nonempty(m),
    ensures
        cc_mat(specialize_v(m, c, a)) <= cc_mat(m),
        headed_by(m, c) ==> cc_mat(specialize_v(m, c, a)) < cc_mat(m),
    decreases m.len(),
{
    if m.len() > 0 {
        let d = m.drop_last();
        assert forall|i: int| 0 <= i < d.len() implies #[trigger] d[i].len() > 0 by {
            assert(d[i] == m[i]);
        }
        lemma_cc_specialize(d, c, a);
        let row = m.last();
        assert(row.len() > 0);
        lemma_cc_head(row);
        if headed_by(m, c) {
            let i = choose|i: int| 0 <= i < m.len() && (#[trigger] m[i][0] matches PatV::Con(c2, _) && c2 == c);
            if i < m.len() - 1 {
                assert(d[i] == m[i]);
                assert(headed_by(d, c));
            }
        }
        let r = specialize_v(d, c, a);
        match spec_row(row, c, a) {
            Some(x) => {
                assert(r.push(x).drop_last() =~= r);
            },
            None => {},
        }
        match row[0] {
            PatV::Wild => {
                lemma_cc_wilds(a);
                lemma_cc_concat(wilds(a), row.drop_first());
            },
            PatV::Con(c2, ps) => {
                if c2 == c {
                    lemma_cc_concat(ps, row.drop_first());
                }
            },
        }
    }
}

/// The default matrix never adds constructors.
pub proof fn lemma_cc_default(m: Seq<Seq<PatV>>)
    requires
        rows_nonempty(m),
    ensures
        cc_mat(default_v(m)) <= cc_mat(m),
    decreases m.len(),
{
    if m.len() > 0 {
        let d = m.drop_last();
        assert forall|i: int| 0 <= i < d.len() implies #[trigger] d[i].len() > 0 by {
            assert(d[i] == m[i]);
        }
        lemma_cc_default(d);
        assert(m.last().len() > 0);
        lemma_cc_head(m.last());
        let r = default_v(d);
        assert(r.push(m.last().drop_first()).drop_last() =~= r);
    }
}

// ── the witness set ────────────────────────────────────────────────

/// Whether `q` and every row of `m` have one pattern per column.
pub open spec fn shaped(m: Seq<Seq<PatV>>, q: Seq<PatV>, cols: Seq<usize>) -> bool {
    &&& q.len() == cols.len()
    &&& forall|i: int| 0 <= i < m.len() ==> #[trigger] m[i].len() == cols.len()
}

/// The number of constructors of the first column's type (none for an
/// open type or no column).
pub open spec fn head_sig_len(tbl: Seq<SigV>, cols: Seq<usize>) -> nat {
    if cols.len() > 0 && 0 <= cols[0] < tbl.len() {
        match tbl[cols[0] as int] {
            SigV::Closed(cs) => cs.len(),
            SigV::Open => 0,
        }
    } else {
        0
    }
}

/// Witness rows found under a specialisation by `c` of `arity`, wrapped
/// back into `c`.
pub open spec fn wrap_rows(c: CtorV, arity: nat, rows: Seq<Seq<WitV>>) -> Seq<Seq<WitV>> {
    Seq::new(rows.len(), |i: int| wrap_row(c, arity, rows[i]))
}

/// The witness heads of the constructors among the first `k` of `cs` that
/// head no row of `m`: each applied to wildcards, in signature order.
pub open spec fn missing_heads(m: Seq<Seq<PatV>>, cs: Seq<(CtorV, Seq<usize>)>, k: int) -> Seq<WitV>
    decreases k,
{
    if k <= 0 || k > cs.len() {
        Seq::empty()
    } else if headed_by(m, cs[k - 1].0) {
        missing_heads(m, cs, k - 1)
    } else {
        missing_heads(m, cs, k - 1).push(WitV::Con(cs[k - 1].0, wit_wilds(cs[k - 1].1.len())))
    }
}

/// The heads of default-matrix witnesses at column type `t`: the missing
/// constructors of a closed type, a wildcard for an open one.
pub open spec fn default_heads(tbl: Seq<SigV>, m: Seq<Seq<PatV>>, t: usize) -> Seq<WitV> {
    match tbl[t as int] {
        SigV::Closed(cs) => missing_heads(m, cs, cs.len() as int),
        SigV::Open => seq![WitV::Wild],
    }
}

/// Every head in front of every tail: head by head, tails in order.
pub open spec fn cross(heads: Seq<WitV>, tails: Seq<Seq<WitV>>) -> Seq<Seq<WitV>>
    decreases heads.len(),
{
    if heads.len() == 0 {
        Seq::empty()
    } else {
        cross(heads.drop_last(), tails) + Seq::new(
            tails.len(),
            |j: int| seq![heads.last()] + tails[j],
        )
    }
}

/// The witness rows `useful` returns: with no column, one empty row when
/// no row of `m` remains; under a constructor head, the specialisation's
/// witnesses wrapped back; under a wildcard at a closed type whose every
/// constructor heads a row, the witnesses of each constructor's
/// specialisation in signature order; otherwise the default matrix's
/// witnesses, each headed by every missing constructor (or a wildcard).
pub open spec fn useful_v(tbl: Seq<SigV>, m: Seq<Seq<PatV>>, q: Seq<PatV>, cols: Seq<usize>) -> Seq<Seq<WitV>>
    decreases cc_mat(m) + cc_all(q), q.len(), head_sig_len(tbl, cols) + 1,
{
    if !shaped(m, q, cols) {
        Seq::empty()
    } else if cols.len() == 0 {
        if m.len() == 0 {
            seq![Seq::<WitV>::empty()]
        } else {
            Seq::empty()
        }
    } else {
        proof {
            lemma_cc_head(q);
            assert(rows_nonempty(m));
        }
        match q[0] {
            PatV::Con(c, ps) => {
                let fields = field_tys(tbl, cols[0], c);
                proof {
                    lemma_cc_specialize(m, c, fields.len());
                    lemma_cc_concat(ps, q.drop_first());
                }
                wrap_rows(
                    c,
                    fields.len(),
                    useful_v(tbl, specialize_v(m, c, fields.len()), ps + q.drop_first(), fields + cols.drop_first()),
                )
            },
            PatV::Wild => {
                if 0 <= cols[0] < tbl.len() && (tbl[cols[0] as int] matches SigV::Closed(cs) && forall|k: int|
                    0 <= k < cs.len() ==> headed_by(m, #[trigger] cs[k].0)) {
                    complete_v(tbl, m, q, cols, head_sig_len(tbl, cols) as int)
                } else {
                    proof {
                        lemma_cc_default(m);
                    }
                    let sub = useful_v(tbl, default_v(m), q.drop_first(), cols.drop_first());
                    if sub.len() == 0 || cols[0] >= tbl.len() {
                        Seq::empty()
                    } else {
                        cross(default_heads(tbl, m, cols[0]), sub)
                    }
                }
            },
        }
    }
}

/// The witnesses of the specialisations by the first `k` constructors of
/// the first column's closed type, each wrapped back, in signature order.
pub open spec fn complete_v(tbl: Seq<SigV>, m: Seq<Seq<PatV>>, q: Seq<PatV>, cols: Seq<usize>, k: int) -> Seq<Seq<WitV>>
    decreases cc_mat(m) + cc_all(q), q.len(), k,
{
    if k <= 0 || !shaped(m, q, cols) || cols.len() == 0 || !(0 <= cols[0] < tbl.len()) {
        Seq::empty()
    } else {
        match tbl[cols[0] as int] {
            SigV::Closed(cs) => {
                if k > cs.len() || !headed_by(m, cs[k - 1].0) || q[0] != PatV::Wild {
                    Seq::empty()
                } else {
                    let c = cs[k - 1].0;
                    let fields = field_tys(tbl, cols[0], c);
                    proof {
                        lemma_cc_head(q);
                        assert(rows_nonempty(m));
                        lemma_cc_specialize(m, c, fields.len());
                        lemma_cc_wilds(fields.len());
                        lemma_cc_concat(wilds(fields.len()), q.drop_first());
                    }
                    complete_v(tbl, m, q, cols, k - 1) + wrap_rows(
                        c,
                        fields.len(),
                        useful_v(
                            tbl,
                            specialize_v(m, c, fields.len()),
                            wilds(fields.len()) + q.drop_first(),
                            fields + cols.drop_first(),
                        ),
                    )
                }
            },
            SigV::Open => Seq::empty(),
        }
    }
}

// ── building values ────────────────────────────────────────────────

/// Values of column types concatenate and split with their types.
proof fn lemma_typed_concat(tbl: Seq<SigV>, ta: Seq<usize>, tb: Seq<usize>, va: Seq<Value>, vb: Seq<Value>)
    requires
        ta.len() == va.len(),
    ensures
        typed_all(tbl, ta + tb, va + vb) <==> typed_all(tbl, ta, va) && typed_all(tbl, tb, vb),
{
    if typed_all(tbl, ta + tb, va + vb) {
        assert forall|i: int| 0 <= i < va.len() implies typed(tbl, ta[i], #[trigger] va[i]) by {
            assert((ta + tb)[i] == ta[i]);
            assert((va + vb)[i] == va[i]);
        }
        assert forall|i: int| 0 <= i < vb.len() implies typed(tbl, tb[i], #[trigger] vb[i]) by {
            assert((ta + tb)[ta.len() + i] == tb[i]);
            assert((va + vb)[va.len() + i] == vb[i]);
        }
    }
    if typed_all(tbl, ta, va) && typed_all(tbl, tb, vb) {
        assert forall|i: int| 0 <= i < (va + vb).len() implies typed(tbl, (ta + tb)[i], #[trigger] (va + vb)[i]) by {
            if i < va.len() {
                assert(typed(tbl, ta[i], va[i]));
            } else {
                assert(typed(tbl, tb[i - va.len()], vb[i - va.len()]));
            }
        }
    }
}

/// Instances concatenate and split with their witnesses.
proof fn lemma_instance_concat(a: Seq<WitV>, b: Seq<WitV>, va: Seq<Value>, vb: Seq<Value>)
    requires
        a.len() == va.len(),
    ensures
        instance_all(a + b, va + vb) <==> instance_all(a, va) && instance_all(b, vb),
{
    if instance_all(a + b, va + vb) {
        assert forall|i: int| 0 <= i < a.len() implies instance(#[trigger] a[i], va[i]) by {
            assert((a + b)[i] == a[i]);
            assert((va + vb)[i] == va[i]);
        }
        assert forall|i: int| 0 <= i < b.len() implies instance(#[trigger] b[i], vb[i]) by {
            assert((a + b)[a.len() + i] == b[i]);
            assert((va + vb)[a.len() + i] == vb[i]);
        }
    }
    if instance_all(a, va) && instance_all(b, vb) {
        assert forall|i: int| 0 <= i < (a + b).len() implies instance(#[trigger] (a + b)[i], (va + vb)[i]) by {
            if i < a.len() {
                assert(instance(a[i], va[i]));
            } else {
                assert(instance(b[i - a.len()], vb[i - a.len()]));
            }
        }
    }
}

/// `n` wildcard witnesses.
pub open spec fn wit_wilds(n: nat) -> Seq<WitV> {
    Seq::new(n, |i: int| WitV::Wild)
}

/// The field types a closed set lists for its `k`-th constructor are the
/// constructor's field types.
proof fn lemma_field_tys_at(tbl: Seq<SigV>, t: usize, k: int)
    requires
        table_wf(tbl),
        t < tbl.len(),
        tbl[t as int] is Closed,
        0 <= k < tbl[t as int]->Closed_0.len(),
    ensures
        field_tys(tbl, t, tbl[t as int]->Closed_0[k].0) == tbl[t as int]->Closed_0[k].1,
        has_ctor(tbl[t as int]->Closed_0, tbl[t as int]->Closed_0[k].0),
        forall|i: int| 0 <= i < tbl[t as int]->Closed_0[k].1.len() ==> #[trigger] tbl[t as int]->Closed_0[k].1[i] < tbl.len(),
{
    let cs = tbl[t as int]->Closed_0;
    let c = cs[k].0;
    assert(cs[k].0 == c);
    let j = choose|j: int| 0 <= j < cs.len() && #[trigger] cs[j].0 == c;
    assert(match tbl[t as int] {
        SigV::Closed(cs) => forall|k1: int, k2: int|
            0 <= k1 < cs.len() && 0 <= k2 < cs.len() && #[trigger] cs[k1].0 == #[trigger] cs[k2].0 ==> k1 == k2,
        SigV::Open => true,
    });
}

/// A constructor of a closed set in a well-formed, inhabited table has a
/// value.
proof fn lemma_ctor_value(tbl: Seq<SigV>, t: usize, c: CtorV) -> (v: Value)
    requires
        table_wf(tbl),
        inhabited(tbl),
        t < tbl.len(),
        tbl[t as int] matches SigV::Closed(cs) && has_ctor(cs, c),
    ensures
        typed(tbl, t, v),
        v matches Value::Con(c2, ws) && c2 == c && instance_all(wit_wilds(field_tys(tbl, t, c).len()), ws),
{
    let cs = tbl[t as int]->Closed_0;
    let k = choose|k: int| 0 <= k < cs.len() && #[trigger] cs[k].0 == c;
    lemma_field_tys_at(tbl, t, k);
    let fts = field_tys(tbl, t, c);
    let ws = Seq::new(fts.len(), |i: int| choose|v: Value| #[trigger] typed(tbl, fts[i], v));
    assert forall|i: int| 0 <= i < ws.len() implies typed(tbl, fts[i], #[trigger] ws[i]) by {
        assert(fts[i] < tbl.len());
        assert(has_value(tbl, fts[i]));
    }
    Value::Con(c, ws)
}

/// Whether `h` heads a witness in the default case at column type `t`: a
/// wildcard for an open type, or a constructor no row is headed by, with
/// wildcard fields.
pub open spec fn missing_head(tbl: Seq<SigV>, m: Seq<Seq<PatV>>, t: usize, h: WitV) -> bool {
    t < tbl.len() && match tbl[t as int] {
        SigV::Open => h == WitV::Wild,
        SigV::Closed(cs) => h matches WitV::Con(c, ws) && has_ctor(cs, c) && !headed_by(m, c) && ws
            == wit_wilds(field_tys(tbl, t, c).len()),
    }
}

/// Whether `q` is useful against `m` once specialised by `c`, its head
/// taken as `c` applied to wildcards.
pub open spec fn uncovered_at(tbl: Seq<SigV>, m: Seq<Seq<PatV>>, q: Seq<PatV>, cols: Seq<usize>, c: CtorV) -> bool {
    let fields = field_tys(tbl, cols[0], c);
    uncovered(
        tbl,
        specialize_v(m, c, fields.len()),
        wilds(fields.len()) + q.drop_first(),
        fields + cols.drop_first(),
    )
}

/// A witness found under a specialisation by `c`, wrapped back, names
/// values that `q` matches and no row does.
proof fn lemma_wrap_realize(
    tbl: Seq<SigV>,
    m: Seq<Seq<PatV>>,
    q: Seq<PatV>,
    cols: Seq<usize>,
    c: CtorV,
    args: Seq<PatV>,
    w: Seq<WitV>,
)
    requires
        cols.len() > 0,
        cols[0] < tbl.len(),
        q.len() == cols.len(),
        forall|i: int| 0 <= i < m.len() ==> #[trigger] m[i].len() == cols.len(),
        q[0] == PatV::Con(c, args) || (q[0] == PatV::Wild && args == wilds(field_tys(tbl, cols[0], c).len())),
        args.len() == field_tys(tbl, cols[0], c).len(),
        match tbl[cols[0] as int] {
            SigV::Closed(cs) => has_ctor(cs, c),
            SigV::Open => c is Lit && field_tys(tbl, cols[0], c).len() == 0,
        },
        realizable(
            tbl,
            specialize_v(m, c, args.len()),
            args + q.drop_first(),
            field_tys(tbl, cols[0], c) + cols.drop_first(),
            w,
        ),
    ensures
        realizable(tbl, m, q, cols, wrap_row(c, args.len(), w)),
{
    let fields = field_tys(tbl, cols[0], c);
    let a = args.len();
    let rest = cols.drop_first();
    let q_rest = q.drop_first();
    let spec = specialize_v(m, c, a);
    let vs2 = choose|vs: Seq<Value>|
        typed_all(tbl, fields + rest, vs) && instance_all(w, vs) && matches_all(args + q_rest, vs)
            && #[trigger] none_match(spec, vs);
    let ws = vs2.take(a as int);
    let tail = vs2.skip(a as int);
    assert(vs2 =~= ws + tail);
    lemma_typed_concat(tbl, fields, rest, ws, tail);
    lemma_matches_concat(args, q_rest, ws, tail);
    assert(w.len() == vs2.len());
    assert(w =~= w.take(a as int) + w.skip(a as int));
    lemma_instance_concat(w.take(a as int), w.skip(a as int), ws, tail);
    let v0 = Value::Con(c, ws);
    let vs = seq![v0] + tail;
    assert(typed(tbl, cols[0], v0));
    assert(cols =~= seq![cols[0]] + rest);
    lemma_typed_concat(tbl, seq![cols[0]], rest, seq![v0], tail);
    assert(typed_all(tbl, cols, vs));
    assert(instance(WitV::Con(c, w.take(a as int)), v0));
    let wr = wrap_row(c, a, w);
    assert(wr =~= seq![WitV::Con(c, w.take(a as int))] + w.skip(a as int));
    lemma_instance_concat(seq![WitV::Con(c, w.take(a as int))], w.skip(a as int), seq![v0], tail);
    assert(matches(q[0], v0));
    lemma_matches_head(q, v0, tail);
    lemma_specialize(m, c, ws, tail);
    assert(none_match(m, vs));
}

/// A witness of the default matrix, headed by a missing head, names values
/// that `q` matches and no row does.
proof fn lemma_default_realize(
    tbl: Seq<SigV>,
    m: Seq<Seq<PatV>>,
    q: Seq<PatV>,
    cols: Seq<usize>,
    h: WitV,
    w: Seq<WitV>,
)
    requires
        table_wf(tbl),
        inhabited(tbl),
        cols.len() > 0,
        q.len() == cols.len(),
        q[0] == PatV::Wild,
        forall|i: int| 0 <= i < m.len() ==> #[trigger] m[i].len() == cols.len(),
        missing_head(tbl, m, cols[0], h),
        realizable(tbl, default_v(m), q.drop_first(), cols.drop_first(), w),
    ensures
        realizable(tbl, m, q, cols, seq![h] + w),
{
    let rest = cols.drop_first();
    let q_rest = q.drop_first();
    let d = default_v(m);
    let tail = choose|vs: Seq<Value>|
        typed_all(tbl, rest, vs) && instance_all(w, vs) && matches_all(q_rest, vs) && #[trigger] none_match(d, vs);
    let v0 = match tbl[cols[0] as int] {
        SigV::Open => Value::Other,
        SigV::Closed(cs) => lemma_ctor_value(tbl, cols[0], h->Con_0),
    };
    assert(typed(tbl, cols[0], v0));
    assert(instance(h, v0));
    let vs = seq![v0] + tail;
    assert(cols =~= seq![cols[0]] + rest);
    lemma_typed_concat(tbl, seq![cols[0]], rest, seq![v0], tail);
    lemma_instance_concat(seq![h], w, seq![v0], tail);
    lemma_matches_head(q, v0, tail);
    assert forall|i: int| 0 <= i < m.len() && (#[trigger] m[i][0]) is Con implies !matches(m[i][0], v0) by {
        if let SigV::Closed(cs) = tbl[cols[0] as int] {
            if matches(m[i][0], v0) {
                assert(headed_by(m, h->Con_0));
            }
        }
    }
    lemma_default(m, v0, tail);
}

/// A useful `q` headed by `c` stays useful under the specialisation by
/// `c`.
proof fn lemma_con_complete(tbl: Seq<SigV>, m: Seq<Seq<PatV>>, q: Seq<PatV>, cols: Seq<usize>, c: CtorV, args: Seq<PatV>)
    requires
        cols.len() > 0,
        q.len() == cols.len(),
        forall|i: int| 0 <= i < m.len() ==> #[trigger] m[i].len() == cols.len(),
        q[0] == PatV::Con(c, args),
        args.len() == field_tys(tbl, cols[0], c).len(),
        uncovered(tbl, m, q, cols),
    ensures
        uncovered(
            tbl,
            specialize_v(m, c, args.len()),
            args + q.drop_first(),
            field_tys(tbl, cols[0], c) + cols.drop_first(),
        ),
{
    let vs = choose|vs: Seq<Value>| typed_all(tbl, cols, vs) && matches_all(q, vs) && #[trigger] none_match(m, vs);
    let v0 = vs[0];
    let tail = vs.drop_first();
    assert(vs =~= seq![v0] + tail);
    assert(cols =~= seq![cols[0]] + cols.drop_first());
    lemma_typed_concat(tbl, seq![cols[0]], cols.drop_first(), seq![v0], tail);
    lemma_matches_head(q, v0, tail);
    let ws = v0->Con_1;
    assert(typed(tbl, cols[0], v0));
    assert(typed_all(tbl, field_tys(tbl, cols[0], c), ws));
    lemma_typed_concat(tbl, field_tys(tbl, cols[0], c), cols.drop_first(), ws, tail);
    lemma_matches_concat(args, q.drop_first(), ws, tail);
    lemma_specialize(m, c, ws, tail);
    assert(none_match(specialize_v(m, c, args.len()), ws + tail));
}

/// A useful wildcard-headed `q` over a closed type stays useful under the
/// specialisation by some constructor of the type.
proof fn lemma_wild_complete(tbl: Seq<SigV>, m: Seq<Seq<PatV>>, q: Seq<PatV>, cols: Seq<usize>)
    requires
        cols.len() > 0,
        q.len() == cols.len(),
        forall|i: int| 0 <= i < m.len() ==> #[trigger] m[i].len() == cols.len(),
        q[0] == PatV::Wild,
        tbl[cols[0] as int] is Closed,
        uncovered(tbl, m, q, cols),
    ensures
        exists|k: int|
            0 <= k < tbl[cols[0] as int]->Closed_0.len() && uncovered_at(
                tbl,
                m,
                q,
                cols,
                #[trigger] tbl[cols[0] as int]->Closed_0[k].0,
            ),
{
    let cs = tbl[cols[0] as int]->Closed_0;
    let vs = choose|vs: Seq<Value>| typed_all(tbl, cols, vs) && matches_all(q, vs) && #[trigger] none_match(m, vs);
    let v0 = vs[0];
    let tail = vs.drop_first();
    assert(vs =~= seq![v0] + tail);
    assert(cols =~= seq![cols[0]] + cols.drop_first());
    lemma_typed_concat(tbl, seq![cols[0]], cols.drop_first(), seq![v0], tail);
    lemma_matches_head(q, v0, tail);
    assert(typed(tbl, cols[0], v0));
    let c = v0->Con_0;
    let ws = v0->Con_1;
    let k = choose|k: int| 0 <= k < cs.len() && #[trigger] cs[k].0 == c;
    let fields = field_tys(tbl, cols[0], c);
    lemma_typed_concat(tbl, fields, cols.drop_first(), ws, tail);
    lemma_wilds_match(ws);
    lemma_matches_concat(wilds(fields.len()), q.drop_first(), ws, tail);
    lemma_specialize(m, c, ws, tail);
    assert(none_match(specialize_v(m, c, fields.len()), ws + tail));
    assert(uncovered_at(tbl, m, q, cols, cs[k].0));
}

/// A useful wildcard-headed `q` stays useful, without its head, against
/// the default matrix.
proof fn lemma_default_complete(tbl: Seq<SigV>, m: Seq<Seq<PatV>>, q: Seq<PatV>, cols: Seq<usize>)
    requires
        cols.len() > 0,
        q.len() == cols.len(),
        forall|i: int| 0 <= i < m.len() ==> #[trigger] m[i].len() == cols.len(),
        uncovered(tbl, m, q, cols),
    ensures
        uncovered(tbl, default_v(m), q.drop_first(), cols.drop_first()),
{
    let vs = choose|vs: Seq<Value>| typed_all(tbl, cols, vs) && matches_all(q, vs) && #[trigger] none_match(m, vs);
    let v0 = vs[0];
    let tail = vs.drop_first();
    assert(vs =~= seq![v0] + tail);
    assert(cols =~= seq![cols[0]] + cols.drop_first());
    lemma_typed_concat(tbl, seq![cols[0]], cols.drop_first(), seq![v0], tail);
    lemma_matches_head(q, v0, tail);
    lemma_default(m, v0, tail);
    assert(none_match(default_v(m), tail));
}

// ── usefulness ─────────────────────────────────────────────────────

/// Appends `xs` to `out`.
fn push_ids(out: &mut Vec<usize>, xs: &[usize])
    ensures
        final(out)@ == old(out)@ + xs@,
{
    let ghost start = out@;
    let mut i: usize = 0;
    while i < xs.len()
        invariant
            i <= xs@.len(),
            out@ == start + xs@.take(i as int),
        decreases xs@.len() - i,
    {
        out.push(xs[i]);
        proof {
            assert(xs@.take(i + 1) =~= xs@.take(i as int).push(xs@[i as int]));
        }
        i = i + 1;
    }
    proof {
        assert(xs@.take(xs@.len() as int) =~= xs@);
    }
}

/// Whether every constructor of `all` is among `present`.
fn all_present(all: &[(Ctor, Vec<usize>)], present: &[Ctor]) -> (r: bool)
    ensures
        r == forall|k: int| 0 <= k < all@.len() ==> ctors_v(present@).contains(#[trigger] all@[k].0@),
{
    let mut k: usize = 0;
    while k < all.len()
        invariant
            k <= all@.len(),
            forall|j: int| 0 <= j < k ==> ctors_v(present@).contains(#[trigger] all@[j].0@),
        decreases all@.len() - k,
    {
        let found = contains_ctor(present, &all[k].0);
        proof {
            let p = ctors_v(present@);
            if found {
                let i = choose|i: int| 0 <= i < present@.len() && #[trigger] present@[i]@ == all@[k as int].0@;
                assert(p[i] == all@[k as int].0@);
            } else {
                if p.contains(all@[k as int].0@) {
                    let i = choose|i: int| 0 <= i < p.len() && p[i] == all@[k as int].0@;
                    assert(present@[i]@ == all@[k as int].0@);
                }
            }
        }
        if !found {
            return false;
        }
        k = k + 1;
    }
    true
}

impl SigTable {
    /// Whether the table is well formed.
    pub open spec fn wf(&self) -> bool {
        table_wf(self@)
    }

    /// The field types of `ctor` at column type `col`, in order.
    pub fn field_types(&self, ctor: &Ctor, col: usize) -> (r: Vec<usize>)
        requires
            self.wf(),
            col < self@.len(),
        ensures
            r@ == field_tys(self@, col, ctor@),
    {
        let ghost tbl = self@;
        assert(tbl[col as int] == self.sigs@[col as int]@);
        match &self.sigs[col] {
            Sig::Open => Vec::new(),
            Sig::Closed(cs) => {
                let mut k: usize = 0;
                while k < cs.len()
                    invariant
                        k <= cs@.len(),
                        tbl == self@,
                        table_wf(tbl),
                        col < tbl.len(),
                        tbl[col as int] == (Sig::Closed(*cs))@,
                        forall|j: int| 0 <= j < k ==> #[trigger] cs@[j].0@ != ctor@,
                    decreases cs@.len() - k,
                {
                    if ctor_eq(&cs[k].0, ctor) {
                        let mut r: Vec<usize> = Vec::new();
                        push_ids(&mut r, cs[k].1.as_slice());
                        proof {
                            assert(r@ =~= cs@[k as int].1@);
                            lemma_field_tys_at(tbl, col, k as int);
                        }
                        return r;
                    }
                    k = k + 1;
                }
                proof {
                    let v = tbl[col as int]->Closed_0;
                    if has_ctor(v, ctor@) {
                        let j = choose|j: int| 0 <= j < v.len() && #[trigger] v[j].0 == ctor@;
                        assert(cs@[j].0@ == ctor@);
                    }
                }
                Vec::new()
            },
        }
    }

    /// Maranget's usefulness with witness reconstruction: value shapes that
    /// `q` admits and no row of `matrix` does. Every witness row names such
    /// values (in a table whose types all have values), and whenever such
    /// values exist the result is not empty. The rows are exactly those of
    /// [`useful_v`], in its order.
    pub fn useful(&self, matrix: &[Vec<Pat>], q: &[Pat], col_types: &[usize]) -> (r: Vec<Vec<Witness>>)
        requires
            self.wf(),
            forall|i: int| 0 <= i < col_types@.len() ==> #[trigger] col_types@[i] < self@.len(),
            fits_all(self@, col_types@, pats_v(q@)),
            forall|i: int| 0 <= i < matrix@.len() ==> fits_all(self@, col_types@, #[trigger] matrix_v(matrix@)[i]),
        ensures
            forall|k: int| 0 <= k < r@.len() ==> (#[trigger] wit_rows_v(r@)[k]).len() == col_types@.len(),
            uncovered(self@, matrix_v(matrix@), pats_v(q@), col_types@) ==> r@.len() > 0,
            inhabited(self@) ==> forall|k: int|
                0 <= k < r@.len() ==> realizable(
                    self@,
                    matrix_v(matrix@),
                    pats_v(q@),
                    col_types@,
                    #[trigger] wit_rows_v(r@)[k],
                ),
            wit_rows_v(r@) == useful_v(self@, matrix_v(matrix@), pats_v(q@), col_types@),
        decreases cc_mat(matrix_v(matrix@)) + cc_all(pats_v(q@)), q@.len(), 1nat,
    {
        let ghost tbl = self@;
        let ghost m = matrix_v(matrix@);
        let ghost qv = pats_v(q@);
        let ghost cols = col_types@;
        proof {
            lemma_pats_v(q@);
            assert forall|i: int| 0 <= i < m.len() implies #[trigger] m[i].len() == cols.len() by {
                assert(fits_all(tbl, cols, m[i]));
            }
        }
        if col_types.len() == 0 {
            if matrix.len() == 0 {
                let mut r: Vec<Vec<Witness>> = Vec::new();
                r.push(Vec::new());
                proof {
                    let e = Seq::<Value>::empty();
                    assert(wit_rows_v(r@)[0] =~= Seq::<WitV>::empty());
                    assert(typed_all(tbl, cols, e));
                    assert(matches_all(qv, e));
                    assert(none_match(m, e));
                    assert(instance_all(wit_rows_v(r@)[0], e));
                }
                return r;
            } else {
                proof {
                    if uncovered(tbl, m, qv, cols) {
                        let vs = choose|vs: Seq<Value>| typed_all(tbl, cols, vs) && matches_all(qv, vs)
                            && #[trigger] none_match(m, vs);
                        assert(matches_all(m[0], vs));
                    }
                }
                return Vec::new();
            }
        }
        let col_ty = col_types[0];
        let rest_types = col_types.split_at(1).1;
        let q_rest = q.split_at(1).1;
        proof {
            assert(rest_types@ =~= cols.drop_first());
            assert(pats_v(q_rest@) =~= qv.drop_first()) by {
                lemma_pats_v(q_rest@);
            }
            assert(fits(tbl, cols[0], qv[0]));
            assert(rows_nonempty(m));
            assert(fits_all(tbl, cols.drop_first(), qv.drop_first())) by {
                assert forall|i: int| 0 <= i < qv.drop_first().len() implies fits(tbl, cols.drop_first()[i], #[trigger] qv.drop_first()[i]) by {
                    assert(fits(tbl, cols[i + 1], qv[i + 1]));
                }
            }
            lemma_cc_head(qv);
            assert(q@[0]@ == qv[0]);
        }
        match &q[0] {
            Pat::Con(ctor, args) => {
                let fields = self.field_types(ctor, col_ty);
                let arity = fields.len();
                let specialized = specialize(matrix, ctor, arity);
                let mut sub_q = clone_pats(args);
                push_pats(&mut sub_q, q_rest);
                let mut sub_types = fields;
                push_ids(&mut sub_types, rest_types);
                let ghost fv = field_tys(tbl, col_ty, ctor@);
                proof {
                    let argsv = pats_v(args@);
                    lemma_pats_v(args@);
                    assert(fits_all(tbl, fv, argsv));
                    lemma_fits_concat(tbl, fv, cols.drop_first(), argsv, qv.drop_first());
                    lemma_spec_fits(tbl, m, cols, ctor@);
                    lemma_cc_specialize(m, ctor@, arity as nat);
                    lemma_cc_concat(argsv, qv.drop_first());
                    assert forall|i: int| 0 <= i < sub_types@.len() implies #[trigger] sub_types@[i] < self@.len() by {
                        if i < fv.len() {
                            let cs = tbl[col_ty as int]->Closed_0;
                            let k = choose|k: int| 0 <= k < cs.len() && #[trigger] cs[k].0 == ctor@;
                            lemma_field_tys_at(tbl, col_ty, k);
                        } else {
                            assert(sub_types@[i] == cols[i - fv.len() + 1]);
                        }
                    }
                }
                let sub = self.useful(specialized.as_slice(), sub_q.as_slice(), sub_types.as_slice());
                let ghost ghost_sub = wit_rows_v(sub@);
                let ghost sub_len = sub@.len();
                proof {
                    assert(ghost_sub.len() == sub_len);
                }
                let r = wrap_ctor(ctor, arity, sub);
                proof {
                    let argsv = pats_v(args@);
                    assert(wit_rows_v(r@).len() == r@.len());
                    assert forall|k: int| 0 <= k < r@.len() implies (#[trigger] wit_rows_v(r@)[k]).len() == cols.len() by {
                        assert(ghost_sub[k].len() == sub_types@.len());
                    }
                    if uncovered(tbl, m, qv, cols) {
                        lemma_con_complete(tbl, m, qv, cols, ctor@, argsv);
                    }
                    if inhabited(tbl) {
                        assert forall|k: int| 0 <= k < r@.len() implies realizable(tbl, m, qv, cols, #[trigger] wit_rows_v(r@)[k]) by {
                            assert(realizable(tbl, specialize_v(m, ctor@, arity as nat), argsv + qv.drop_first(), fv + cols.drop_first(), ghost_sub[k]));
                            lemma_wrap_realize(tbl, m, qv, cols, ctor@, argsv, ghost_sub[k]);
                        }
                    }
                }
                r
            },
            Pat::Wild => {
                let present = head_ctors(matrix);
                assert(tbl[col_ty as int] == self.sigs@[col_ty as int]@);
                let complete = match &self.sigs[col_ty] {
                    Sig::Closed(all) => {
                        let c = all_present(all.as_slice(), present.as_slice());
                        proof {
                            let cs = tbl[col_ty as int]->Closed_0;
                            assert(cs.len() == all@.len());
                            assert forall|k: int| 0 <= k < cs.len() implies #[trigger] cs[k].0 == all@[k].0@ by {}
                            if !c {
                                let k = choose|k: int| 0 <= k < all@.len() && !ctors_v(present@).contains(#[trigger] all@[k].0@);
                                assert(!ctors_v(present@).contains(cs[k].0));
                            }
                        }
                        c
                    },
                    Sig::Open => false,
                };
                proof {
                    let p = ctors_v(present@);
                    match tbl[col_ty as int] {
                        SigV::Closed(cs) => {
                            if complete {
                                assert forall|k: int| 0 <= k < cs.len() implies headed_by(m, #[trigger] cs[k].0) by {
                                    lemma_head_ctors(m, cs[k].0);
                                }
                            } else {
                                let k = choose|k: int| 0 <= k < cs.len() && !p.contains(#[trigger] cs[k].0);
                                lemma_head_ctors(m, cs[k].0);
                                assert(!headed_by(m, cs[k].0));
                            }
                        },
                        SigV::Open => {},
                    }
                }
                if complete {
                    self.useful_complete(matrix, q, col_types)
                } else {
                    self.useful_default(matrix, q, col_types, present)
                }
            },
        }
    }

    /// Usefulness of a wildcard-headed `q` at a closed type whose every
    /// constructor heads some row: the union over the constructors of the
    /// specialisations' witnesses.
    fn useful_complete(&self, matrix: &[Vec<Pat>], q: &[Pat], col_types: &[usize]) -> (r: Vec<Vec<Witness>>)
        requires
            self.wf(),
            forall|i: int| 0 <= i < col_types@.len() ==> #[trigger] col_types@[i] < self@.len(),
            fits_all(self@, col_types@, pats_v(q@)),
            forall|i: int| 0 <= i < matrix@.len() ==> fits_all(self@, col_types@, #[trigger] matrix_v(matrix@)[i]),
            col_types@.len() > 0,
            pats_v(q@)[0] == PatV::Wild,
            self@[col_types@[0] as int] is Closed,
            forall|k: int|
                0 <= k < self@[col_types@[0] as int]->Closed_0.len() ==> headed_by(
                    matrix_v(matrix@),
                    #[trigger] self@[col_types@[0] as int]->Closed_0[k].0,
                ),
        ensures
            forall|k: int| 0 <= k < r@.len() ==> (#[trigger] wit_rows_v(r@)[k]).len() == col_types@.len(),
            uncovered(self@, matrix_v(matrix@), pats_v(q@), col_types@) ==> r@.len() > 0,
            inhabited(self@) ==> forall|k: int|
                0 <= k < r@.len() ==> realizable(
                    self@,
                    matrix_v(matrix@),
                    pats_v(q@),
                    col_types@,
                    #[trigger] wit_rows_v(r@)[k],
                ),
            wit_rows_v(r@) == useful_v(self@, matrix_v(matrix@), pats_v(q@), col_types@),
        decreases cc_mat(matrix_v(matrix@)) + cc_all(pats_v(q@)), q@.len(), 0nat,
    {
        let ghost tbl = self@;
        let ghost m = matrix_v(matrix@);
        let ghost qv = pats_v(q@);
        let ghost cols = col_types@;
        let col_ty = col_types[0];
        let rest_types = col_types.split_at(1).1;
        let q_rest = q.split_at(1).1;
        proof {
            lemma_pats_v(q@);
            assert forall|i: int| 0 <= i < m.len() implies #[trigger] m[i].len() == cols.len() by {
                assert(fits_all(tbl, cols, m[i]));
            }
            assert(rows_nonempty(m));
            assert(rest_types@ =~= cols.drop_first());
            assert(pats_v(q_rest@) =~= qv.drop_first()) by {
                lemma_pats_v(q_rest@);
            }
            assert(fits_all(tbl, cols.drop_first(), qv.drop_first())) by {
                assert forall|i: int| 0 <= i < qv.drop_first().len() implies fits(tbl, cols.drop_first()[i], #[trigger] qv.drop_first()[i]) by {
                    assert(fits(tbl, cols[i + 1], qv[i + 1]));
                }
            }
            lemma_cc_head(qv);
            assert(tbl[col_ty as int] == self.sigs@[col_ty as int]@);
        }
        let all = match &self.sigs[col_ty] {
            Sig::Closed(all) => all,
            Sig::Open => {
                return Vec::new();
            },
        };
        let ghost cs = tbl[col_ty as int]->Closed_0;
        let mut out: Vec<Vec<Witness>> = Vec::new();
        let mut k: usize = 0;
        while k < all.len()
            invariant
                k <= all@.len(),
                tbl == self@,
                m == matrix_v(matrix@),
                qv == pats_v(q@),
                cols == col_types@,
                self.wf(),
                cols.len() > 0,
                col_ty == cols[0],
                col_ty < tbl.len(),
                rest_types@ == cols.drop_first(),
                pats_v(q_rest@) == qv.drop_first(),
                qv.len() == cols.len(),
                qv[0] == PatV::Wild,
                cs == tbl[col_ty as int]->Closed_0,
                tbl[col_ty as int] is Closed,
                cs.len() == all@.len(),
                forall|j: int| 0 <= j < all@.len() ==> #[trigger] cs[j].0 == all@[j].0@,
                forall|j: int| 0 <= j < cs.len() ==> headed_by(m, #[trigger] cs[j].0),
                forall|i: int| 0 <= i < cols.len() ==> #[trigger] cols[i] < tbl.len(),
                fits_all(tbl, cols.drop_first(), qv.drop_first()),
                forall|i: int| 0 <= i < m.len() ==> fits_all(tbl, cols, #[trigger] m[i]),
                forall|i: int| 0 <= i < m.len() ==> #[trigger] m[i].len() == cols.len(),
                rows_nonempty(m),
                cc_all(qv) == cc_all(qv.drop_first()),
                forall|kk: int| 0 <= kk < out@.len() ==> (#[trigger] wit_rows_v(out@)[kk]).len() == cols.len(),
                inhabited(tbl) ==> forall|kk: int|
                    0 <= kk < out@.len() ==> realizable(tbl, m, qv, cols, #[trigger] wit_rows_v(out@)[kk]),
                (exists|kk: int| 0 <= kk < k && uncovered_at(tbl, m, qv, cols, #[trigger] cs[kk].0)) ==> out@.len() > 0,
                wit_rows_v(out@) == complete_v(tbl, m, qv, cols, k as int),
            decreases all@.len() - k,
        {
            let ctor = &all[k].0;
            assert(cs[k as int].0 == ctor@);
            let fields = self.field_types(ctor, col_ty);
            let arity = fields.len();
            let specialized = specialize(matrix, ctor, arity);
            let mut sub_q: Vec<Pat> = Vec::new();
            proof {
                assert(pats_v(sub_q@) =~= Seq::<PatV>::empty());
            }
            push_wilds(&mut sub_q, arity);
            push_pats(&mut sub_q, q_rest);
            let mut sub_types = fields;
            push_ids(&mut sub_types, rest_types);
            let ghost fv = field_tys(tbl, col_ty, ctor@);
            proof {
                assert(Seq::<PatV>::empty() + wilds(arity as nat) =~= wilds(arity as nat));
                lemma_field_tys_at(tbl, col_ty, k as int);
                lemma_wilds_fit(tbl, fv);
                lemma_fits_concat(tbl, fv, cols.drop_first(), wilds(arity as nat), qv.drop_first());
                lemma_spec_fits(tbl, m, cols, ctor@);
                lemma_cc_specialize(m, ctor@, arity as nat);
                lemma_cc_wilds(arity as nat);
                lemma_cc_concat(wilds(arity as nat), qv.drop_first());
                assert forall|i: int| 0 <= i < sub_types@.len() implies #[trigger] sub_types@[i] < self@.len() by {
                    if i >= fv.len() {
                        assert(sub_types@[i] == cols[i - fv.len() + 1]);
                    }
                }
            }
            let sub = self.useful(specialized.as_slice(), sub_q.as_slice(), sub_types.as_slice());
            let ghost gs = wit_rows_v(sub@);
            let ghost sub_len = sub@.len();
            proof {
                assert(gs.len() == sub_len);
            }
            let mut wrapped = wrap_ctor(ctor, arity, sub);
            let ghost before = out@;
            let ghost wr = wrapped@;
            proof {
                assert(wit_rows_v(wrapped@).len() == wrapped@.len());
                assert forall|j: int| 0 <= j < wrapped@.len() implies (#[trigger] wit_rows_v(wrapped@)[j]).len() == cols.len() by {
                    assert(gs[j].len() == sub_types@.len());
                }
                if inhabited(tbl) {
                    assert forall|j: int| 0 <= j < wrapped@.len() implies realizable(tbl, m, qv, cols, #[trigger] wit_rows_v(wrapped@)[j]) by {
                        lemma_wrap_realize(tbl, m, qv, cols, ctor@, wilds(arity as nat), gs[j]);
                    }
                }
                if uncovered_at(tbl, m, qv, cols, ctor@) {
                    assert(sub_len > 0);
                }
            }
            out.append(&mut wrapped);
            proof {
                assert(wit_rows_v(out@) =~= wit_rows_v(before) + wit_rows_v(wr));
                assert(wit_rows_v(wr) =~= wrap_rows(ctor@, arity as nat, gs));
                assert(complete_v(tbl, m, qv, cols, k + 1) == complete_v(tbl, m, qv, cols, k as int)
                    + wrap_rows(ctor@, fv.len(), useful_v(tbl, specialize_v(m, ctor@, fv.len()),
                    wilds(fv.len()) + qv.drop_first(), fv + cols.drop_first())));
                if exists|kk: int| 0 <= kk < k + 1 && uncovered_at(tbl, m, qv, cols, #[trigger] cs[kk].0) {
                    let kk = choose|kk: int| 0 <= kk < k + 1 && uncovered_at(tbl, m, qv, cols, #[trigger] cs[kk].0);
                    if kk == k {
                        assert(wr.len() > 0);
                    }
                }
            }
            k = k + 1;
        }
        proof {
            if uncovered(tbl, m, qv, cols) {
                lemma_wild_complete(tbl, m, qv, cols);
            }
        }
        out
    }

    /// Usefulness of a wildcard-headed `q` at an open type, or at a closed
    /// type with a constructor no row is headed by: the default matrix's
    /// witnesses, each headed by a missing constructor (or a wildcard).
    fn useful_default(&self, matrix: &[Vec<Pat>], q: &[Pat], col_types: &[usize], present: Vec<Ctor>) -> (r: Vec<Vec<Witness>>)
        requires
            self.wf(),
            forall|i: int| 0 <= i < col_types@.len() ==> #[trigger] col_types@[i] < self@.len(),
            fits_all(self@, col_types@, pats_v(q@)),
            forall|i: int| 0 <= i < matrix@.len() ==> fits_all(self@, col_types@, #[trigger] matrix_v(matrix@)[i]),
            col_types@.len() > 0,
            pats_v(q@)[0] == PatV::Wild,
            ctors_v(present@) == head_ctors_v(matrix_v(matrix@)),
            match self@[col_types@[0] as int] {
                SigV::Closed(cs) => exists|k: int| 0 <= k < cs.len() && !headed_by(matrix_v(matrix@), #[trigger] cs[k].0),
                SigV::Open => true,
            },
        ensures
            forall|k: int| 0 <= k < r@.len() ==> (#[trigger] wit_rows_v(r@)[k]).len() == col_types@.len(),
            uncovered(self@, matrix_v(matrix@), pats_v(q@), col_types@) ==> r@.len() > 0,
            inhabited(self@) ==> forall|k: int|
                0 <= k < r@.len() ==> realizable(
                    self@,
                    matrix_v(matrix@),
                    pats_v(q@),
                    col_types@,
                    #[trigger] wit_rows_v(r@)[k],
                ),
            wit_rows_v(r@) == useful_v(self@, matrix_v(matrix@), pats_v(q@), col_types@),
        decreases cc_mat(matrix_v(matrix@)) + cc_all(pats_v(q@)), q@.len(), 0nat,
    {
        let ghost tbl = self@;
        let ghost m = matrix_v(matrix@);
        let ghost qv = pats_v(q@);
        let ghost cols = col_types@;
        let col_ty = col_types[0];
        let rest_types = col_types.split_at(1).1;
        let q_rest = q.split_at(1).1;
        proof {
            lemma_pats_v(q@);
            assert forall|i: int| 0 <= i < m.len() implies #[trigger] m[i].len() == cols.len() by {
                assert(fits_all(tbl, cols, m[i]));
            }
            assert(rows_nonempty(m));
            assert(rest_types@ =~= cols.drop_first());
            assert(pats_v(q_rest@) =~= qv.drop_first()) by {
                lemma_pats_v(q_rest@);
            }
            assert(fits_all(tbl, cols.drop_first(), qv.drop_first())) by {
                assert forall|i: int| 0 <= i < qv.drop_first().len() implies fits(tbl, cols.drop_first()[i], #[trigger] qv.drop_first()[i]) by {
                    assert(fits(tbl, cols[i + 1], qv[i + 1]));
                }
            }
            lemma_cc_head(qv);
            lemma_default_fits(tbl, m, cols);
            lemma_cc_default(m);
            assert(tbl[col_ty as int] == self.sigs@[col_ty as int]@);
        }
        let default = default_matrix(matrix);
        let sub = self.useful(default.as_slice(), q_rest, rest_types);
        let ghost d = default_v(m);
        let ghost gs = wit_rows_v(sub@);
        proof {
            if uncovered(tbl, m, qv, cols) {
                lemma_default_complete(tbl, m, qv, cols);
            }
        }
        if sub.len() == 0 {
            return Vec::new();
        }
        let mut heads: Vec<Witness> = Vec::new();
        match &self.sigs[col_ty] {
            Sig::Closed(all) => {
                let ghost cs = tbl[col_ty as int]->Closed_0;
                let mut k: usize = 0;
                while k < all.len()
                    invariant
                        k <= all@.len(),
                        tbl == self@,
                        m == matrix_v(matrix@),
                        self.wf(),
                        col_ty < tbl.len(),
                        cs == tbl[col_ty as int]->Closed_0,
                        tbl[col_ty as int] is Closed,
                        cs.len() == all@.len(),
                        forall|j: int| 0 <= j < all@.len() ==> #[trigger] cs[j].0 == all@[j].0@ && cs[j].1 == all@[j].1@,
                        ctors_v(present@) == head_ctors_v(m),
                        forall|i: int| 0 <= i < heads@.len() ==> missing_head(tbl, m, col_ty, #[trigger] heads@[i]@),
                        (exists|j: int| 0 <= j < k && !headed_by(m, #[trigger] cs[j].0)) ==> heads@.len() > 0,
                        wits_v(heads@) == missing_heads(m, cs, k as int),
                    decreases all@.len() - k,
                {
                    let ctor = &all[k].0;
                    let ghost old_heads = heads@;
                    let found = contains_ctor(present.as_slice(), ctor);
                    proof {
                        let p = ctors_v(present@);
                        lemma_head_ctors(m, ctor@);
                        if found {
                            let i = choose|i: int| 0 <= i < present@.len() && #[trigger] present@[i]@ == ctor@;
                            assert(p[i] == ctor@);
                        } else {
                            if p.contains(ctor@) {
                                let i = choose|i: int| 0 <= i < p.len() && p[i] == ctor@;
                                assert(present@[i]@ == ctor@);
                            }
                        }
                        assert(cs[k as int].0 == ctor@);
                    }
                    if !found {
                        let arity = all[k].1.len();
                        let mut fields: Vec<Witness> = Vec::new();
                        let mut j: usize = 0;
                        while j < arity
                            invariant
                                j <= arity,
                                fields@.len() == j,
                                forall|t: int| 0 <= t < j ==> #[trigger] fields@[t]@ == WitV::Wild,
                            decreases arity - j,
                        {
                            fields.push(Witness::Wild);
                            j = j + 1;
                        }
                        let h = Witness::Con(ctor.clone(), fields);
                        proof {
                            lemma_wits_v(fields@);
                            lemma_field_tys_at(tbl, col_ty, k as int);
                            assert(wits_v(fields@) =~= wit_wilds(field_tys(tbl, col_ty, ctor@).len()));
                            assert(missing_head(tbl, m, col_ty, h@));
                        }
                        heads.push(h);
                    }
                    proof {
                        lemma_wits_v(heads@);
                        lemma_wits_v(old_heads);
                        lemma_head_ctors(m, ctor@);
                        if !found {
                            lemma_field_tys_at(tbl, col_ty, k as int);
                            assert(heads@.last()@ == WitV::Con(cs[k as int].0, wit_wilds(cs[k as int].1.len())));
                            assert(heads@.drop_last() =~= old_heads);
                        } else {
                            assert(heads@ == old_heads);
                        }
                        assert(wits_v(heads@) =~= missing_heads(m, cs, k + 1));
                    }
                    k = k + 1;
                }
            },
            Sig::Open => {
                heads.push(Witness::Wild);
                proof {
                    lemma_wits_v(heads@);
                    assert(wits_v(heads@) =~= seq![WitV::Wild]);
                }
            },
        }
        let ghost hv = wits_v(heads@);
        proof {
            lemma_wits_v(heads@);
            assert(hv == default_heads(tbl, m, col_ty));
            assert(hv.take(0) =~= Seq::<WitV>::empty());
            assert(wit_rows_v(Seq::<Vec<Witness>>::empty()) =~= Seq::<Seq<WitV>>::empty());
        }
        let mut out: Vec<Vec<Witness>> = Vec::new();
        let mut i: usize = 0;
        while i < heads.len()
            invariant
                i <= heads@.len(),
                tbl == self@,
                m == matrix_v(matrix@),
                qv == pats_v(q@),
                cols == col_types@,
                self.wf(),
                cols.len() > 0,
                col_ty == cols[0],
                qv.len() == cols.len(),
                qv[0] == PatV::Wild,
                forall|t: int| 0 <= t < m.len() ==> #[trigger] m[t].len() == cols.len(),
                d == default_v(m),
                gs == wit_rows_v(sub@),
                sub@.len() > 0,
                forall|k: int| 0 <= k < sub@.len() ==> (#[trigger] gs[k]).len() == cols.len() - 1,
                inhabited(tbl) ==> forall|k: int|
                    0 <= k < sub@.len() ==> realizable(tbl, d, qv.drop_first(), cols.drop_first(), #[trigger] gs[k]),
                forall|t: int| 0 <= t < heads@.len() ==> missing_head(tbl, m, col_ty, #[trigger] heads@[t]@),
                forall|kk: int| 0 <= kk < out@.len() ==> (#[trigger] wit_rows_v(out@)[kk]).len() == cols.len(),
                inhabited(tbl) ==> forall|kk: int|
                    0 <= kk < out@.len() ==> realizable(tbl, m, qv, cols, #[trigger] wit_rows_v(out@)[kk]),
                i > 0 ==> out@.len() > 0,
                hv.len() == heads@.len(),
                forall|t: int| 0 <= t < heads@.len() ==> #[trigger] hv[t] == heads@[t]@,
                wit_rows_v(out@) == cross(hv.take(i as int), gs),
            decreases heads@.len() - i,
        {
            let mut j: usize = 0;
            while j < sub.len()
                invariant
                    j <= sub@.len(),
                    i < heads@.len(),
                    tbl == self@,
                    m == matrix_v(matrix@),
                    qv == pats_v(q@),
                    cols == col_types@,
                    self.wf(),
                    cols.len() > 0,
                    col_ty == cols[0],
                    qv.len() == cols.len(),
                    qv[0] == PatV::Wild,
                    forall|t: int| 0 <= t < m.len() ==> #[trigger] m[t].len() == cols.len(),
                    d == default_v(m),
                    gs == wit_rows_v(sub@),
                    forall|k: int| 0 <= k < sub@.len() ==> (#[trigger] gs[k]).len() == cols.len() - 1,
                    inhabited(tbl) ==> forall|k: int|
                        0 <= k < sub@.len() ==> realizable(tbl, d, qv.drop_first(), cols.drop_first(), #[trigger] gs[k]),
                    missing_head(tbl, m, col_ty, heads@[i as int]@),
                    forall|kk: int| 0 <= kk < out@.len() ==> (#[trigger] wit_rows_v(out@)[kk]).len() == cols.len(),
                    inhabited(tbl) ==> forall|kk: int|
                        0 <= kk < out@.len() ==> realizable(tbl, m, qv, cols, #[trigger] wit_rows_v(out@)[kk]),
                    (i > 0 || j > 0) ==> out@.len() > 0,
                    hv.len() == heads@.len(),
                    forall|t: int| 0 <= t < heads@.len() ==> #[trigger] hv[t] == heads@[t]@,
                    wit_rows_v(out@) == cross(hv.take(i as int), gs) + Seq::new(
                        j as nat,
                        |t: int| seq![hv[i as int]] + gs[t],
                    ),
                decreases sub@.len() - j,
            {
                let mut row: Vec<Witness> = Vec::new();
                row.push(heads[i].clone());
                let tail = &sub[j];
                let mut t: usize = 0;
                while t < tail.len()
                    invariant
                        t <= tail@.len(),
                        row@.len() == 1 + t,
                        row@[0]@ == heads@[i as int]@,
                        forall|x: int| 0 <= x < t ==> #[trigger] row@[1 + x]@ == tail@[x]@,
                    decreases tail@.len() - t,
                {
                    row.push(tail[t].clone());
                    t = t + 1;
                }
                let ghost before = out@;
                proof {
                    lemma_wits_v(row@);
                    lemma_wits_v(tail@);
                    assert(wits_v(tail@) == gs[j as int]);
                    assert forall|x: int| 0 <= x < row@.len() implies #[trigger] wits_v(row@)[x]
                        == (seq![heads@[i as int]@] + gs[j as int])[x] by {
                        if x > 0 {
                            assert(row@[1 + (x - 1)]@ == tail@[x - 1]@);
                        }
                    }
                    assert(wits_v(row@) =~= seq![heads@[i as int]@] + gs[j as int]);
                    if inhabited(tbl) {
                        lemma_default_realize(tbl, m, qv, cols, heads@[i as int]@, gs[j as int]);
                    }
                }
                out.push(row);
                proof {
                    assert(wit_rows_v(out@) =~= wit_rows_v(before).push(wits_v(row@)));
                    assert(wit_rows_v(out@) =~= cross(hv.take(i as int), gs) + Seq::new(
                        (j + 1) as nat,
                        |t: int| seq![hv[i as int]] + gs[t],
                    ));
                }
                j = j + 1;
            }
            proof {
                assert(hv.take(i + 1).drop_last() =~= hv.take(i as int));
                assert(hv.take(i + 1).last() == hv[i as int]);
                assert(gs.len() == sub@.len());
                assert(wit_rows_v(out@) =~= cross(hv.take(i + 1), gs));
            }
            i = i + 1;
        }
        proof {
            match tbl[col_ty as int] {
                SigV::Closed(cs) => {
                    let k = choose|k: int| 0 <= k < cs.len() && !headed_by(m, #[trigger] cs[k].0);
                    assert(heads@.len() > 0);
                },
                SigV::Open => {},
            }
            assert(hv.take(heads@.len() as int) =~= hv);
        }
        out
    }
}

// ── rendering ──────────────────────────────────────────────────────

/// The surface text of a witness: `_`, a literal's text, a tuple, or a
/// constructor with its fields in parentheses.
pub open spec fn wit_text(w: WitV) -> Seq<char>
    decreases w, 1nat,
{
    match w {
        WitV::Wild => "_"@,
        WitV::Con(c, args) => match c {
            CtorV::Lit(text) => text,
            CtorV::Tuple => "("@ + wits_text(args) + ")"@,
            CtorV::Variant(name) => if args.len() == 0 {
                name
            } else {
                name + "("@ + wits_text(args) + ")"@
            },
        },
    }
}

/// The texts of witnesses, joined with `, `.
pub open spec fn wits_text(ws: Seq<WitV>) -> Seq<char>
    decreases ws, 0nat,
{
    if ws.len() == 0 {
        Seq::empty()
    } else if ws.len() == 1 {
        wit_text(ws[0])
    } else {
        wits_text(ws.drop_last()) + ", "@ + wit_text(ws.last())
    }
}

/// Renders a witness as surface-like syntax.
pub fn render_witness(witness: &Witness) -> (r: String)
    ensures
        r@ == wit_text(witness@),
    decreases witness,
{
    match witness {
        Witness::Wild => {
            let mut out = String::new();
            out.append("_");
            proof {
                assert(Seq::<char>::empty() + "_"@ =~= "_"@);
            }
            out
        },
        Witness::Con(Ctor::Lit(text), _) => text.clone(),
        Witness::Con(Ctor::Tuple, args) => {
            let mut out = String::new();
            out.append("(");
            write_wits(&mut out, args);
            out.append(")");
            proof {
                assert(Seq::<char>::empty() + "("@ =~= "("@);
            }
            out
        },
        Witness::Con(Ctor::Variant(name), args) => {
            if args.len() == 0 {
                proof {
                    lemma_wits_v(args@);
                }
                name.clone()
            } else {
                let mut out = String::new();
                out.append(name.as_str());
                out.append("(");
                write_wits(&mut out, args);
                out.append(")");
                proof {
                    assert(Seq::<char>::empty() + name@ =~= name@);
                    lemma_wits_v(args@);
                }
                out
            }
        },
    }
}

/// Appends the texts of `ws`, joined with `, `.
fn write_wits(out: &mut String, ws: &Vec<Witness>)
    ensures
        final(out)@ == old(out)@ + wits_text(wits_v(ws@)),
    decreases ws,
{
    let ghost start = out@;
    let mut i: usize = 0;
    proof {
        lemma_wits_v(ws@);
        assert(wits_v(ws@).take(0) =~= Seq::<WitV>::empty());
        assert(start + Seq::<char>::empty() =~= start);
    }
    while i < ws.len()
        invariant
            i <= ws@.len(),
            wits_v(ws@).len() == ws@.len(),
            forall|j: int| 0 <= j < ws@.len() ==> #[trigger] wits_v(ws@)[j] == ws@[j]@,
            out@ == start + wits_text(wits_v(ws@).take(i as int)),
        decreases ws@.len() - i,
    {
        let ghost before = out@;
        if i > 0 {
            out.append(", ");
        }
        let t = render_witness(&ws[i]);
        out.append(t.as_str());
        proof {
            let w = wits_v(ws@);
            let tk = w.take(i + 1);
            assert(tk.drop_last() =~= w.take(i as int));
            assert(tk.last() == ws@[i as int]@);
            if i == 0 {
                assert(tk.len() == 1);
                assert(wits_text(tk) == wit_text(tk[0]));
                assert(wits_text(w.take(0)) == Seq::<char>::empty());
            }
            assert(out@ =~= start + wits_text(tk));
        }
        i = i + 1;
    }
    proof {
        assert(wits_v(ws@).take(ws@.len() as int) =~= wits_v(ws@));
    }
}

/// Whether `s` is strictly ascending, character by character.
pub open spec fn str_sorted(s: Seq<Seq<char>>) -> bool {
    forall|i: int, j: int| 0 <= i < j < s.len() ==> str_lt(#[trigger] s[i], #[trigger] s[j])
}

/// Whether `s` and `t` hold the same texts.
pub open spec fn same_texts(s: Seq<Seq<char>>, t: Seq<Seq<char>>) -> bool {
    forall|x: Seq<char>| s.contains(x) <==> t.contains(x)
}

/// The text of each witness row, its columns joined with `, `.
pub open spec fn case_texts(rows: Seq<Seq<WitV>>) -> Seq<Seq<char>> {
    Seq::new(rows.len(), |i: int| wits_text(rows[i]))
}

/// The distinct case texts of witness rows, in ascending order.
pub open spec fn case_list(rows: Seq<Seq<WitV>>) -> Seq<Seq<char>> {
    choose|cs: Seq<Seq<char>>| str_sorted(cs) && same_texts(cs, case_texts(rows))
}

/// Two ascending sequences of the same texts are equal.
proof fn lemma_sorted_unique(a: Seq<Seq<char>>, b: Seq<Seq<char>>)
    requires
        str_sorted(a),
        str_sorted(b),
        same_texts(a, b),
    ensures
        a == b,
    decreases a.len(),
{
    if a.len() == 0 {
        if b.len() > 0 {
            assert(b.contains(b[0]));
        }
        assert(a =~= b);
    } else {
        assert(a.contains(a[0]));
        assert(b.len() > 0);
        assert(b.contains(b[0]));
        let j = choose|j: int| 0 <= j < b.len() && b[j] == a[0];
        let i = choose|i: int| 0 <= i < a.len() && a[i] == b[0];
        if j > 0 {
            assert(str_lt(b[0], b[j]));
            if i > 0 {
                assert(str_lt(a[0], a[i]));
                lemma_str_lt_trans(b[0], a[0], b[0]);
                lemma_str_lt_asym(b[0], b[0]);
            } else {
                lemma_str_lt_asym(b[0], b[0]);
            }
        }
        assert(a[0] == b[0]);
        let a1 = a.drop_first();
        let b1 = b.drop_first();
        assert forall|x: Seq<char>| a1.contains(x) <==> b1.contains(x) by {
            if a1.contains(x) {
                let k = choose|k: int| 0 <= k < a1.len() && a1[k] == x;
                assert(str_lt(a[0], a[k + 1]));
                lemma_str_lt_asym(a[0], a[k + 1]);
                assert(a.contains(x));
                let k2 = choose|k2: int| 0 <= k2 < b.len() && b[k2] == x;
                assert(k2 != 0);
                assert(b1[k2 - 1] == x);
            }
            if b1.contains(x) {
                let k = choose|k: int| 0 <= k < b1.len() && b1[k] == x;
                assert(str_lt(b[0], b[k + 1]));
                lemma_str_lt_asym(b[0], b[k + 1]);
                assert(b.contains(x));
                let k2 = choose|k2: int| 0 <= k2 < a.len() && a[k2] == x;
                assert(k2 != 0);
                assert(a1[k2 - 1] == x);
            }
        }
        assert forall|p: int, q: int| 0 <= p < q < a1.len() implies str_lt(#[trigger] a1[p], #[trigger] a1[q]) by {
            assert(str_lt(a[p + 1], a[q + 1]));
        }
        assert forall|p: int, q: int| 0 <= p < q < b1.len() implies str_lt(#[trigger] b1[p], #[trigger] b1[q]) by {
            assert(str_lt(b[p + 1], b[q + 1]));
        }
        lemma_sorted_unique(a1, b1);
        assert(a =~= seq![a[0]] + a1);
        assert(b =~= seq![b[0]] + b1);
    }
}

/// The views of a sequence of character vectors.
pub open spec fn texts_v(s: Seq<Vec<char>>) -> Seq<Seq<char>> {
    Seq::new(s.len(), |i: int| s[i]@)
}

/// Inserts `x` into the ascending `cases`, unless it is present.
fn insert_sorted(cases: &mut Vec<Vec<char>>, x: Vec<char>)
    requires
        str_sorted(texts_v(old(cases)@)),
    ensures
        str_sorted(texts_v(final(cases)@)),
        same_texts(texts_v(final(cases)@), texts_v(old(cases)@).push(x@)),
{
    let ghost old_v = texts_v(cases@);
    let mut p: usize = 0;
    while p < cases.len() && chars_lt(cases[p].as_slice(), x.as_slice())
        invariant
            p <= cases@.len(),
            old_v == texts_v(cases@),
            forall|q: int| 0 <= q < p ==> str_lt(#[trigger] old_v[q], x@),
        decreases cases@.len() - p,
    {
        p = p + 1;
    }
    if p < cases.len() && chars_eq(cases[p].as_slice(), x.as_slice()) {
        proof {
            assert(old_v[p as int] == x@);
            assert forall|y: Seq<char>| old_v.contains(y) <==> old_v.push(x@).contains(y) by {
                if old_v.push(x@).contains(y) {
                    let k = choose|k: int| 0 <= k < old_v.len() + 1 && old_v.push(x@)[k] == y;
                    if k == old_v.len() {
                        assert(old_v[p as int] == y);
                    } else {
                        assert(old_v[k] == y);
                    }
                }
                if old_v.contains(y) {
                    let k = choose|k: int| 0 <= k < old_v.len() && old_v[k] == y;
                    assert(old_v.push(x@)[k] == y);
                }
            }
        }
        return;
    }
    proof {
        if p < cases@.len() {
            assert(old_v[p as int] != x@);
            lemma_str_lt_total(old_v[p as int], x@);
        }
    }
    let ghost xv = x@;
    cases.insert(p, x);
    proof {
        let nv = texts_v(cases@);
        assert(nv =~= old_v.insert(p as int, xv));
        assert forall|i: int, j: int| 0 <= i < j < nv.len() implies str_lt(#[trigger] nv[i], #[trigger] nv[j]) by {
            if j < p {
                assert(str_lt(old_v[i], old_v[j]));
            } else if j == p {
                assert(str_lt(old_v[i], xv));
            } else if i < p {
                assert(nv[j] == old_v[j - 1]);
                assert(str_lt(old_v[i], xv));
                if j - 1 == p {
                    lemma_str_lt_trans(old_v[i], xv, old_v[j - 1]);
                } else {
                    assert(str_lt(old_v[p as int], old_v[j - 1]));
                    lemma_str_lt_trans(xv, old_v[p as int], old_v[j - 1]);
                    lemma_str_lt_trans(old_v[i], xv, old_v[j - 1]);
                }
            } else if i == p {
                assert(nv[j] == old_v[j - 1]);
                if j - 1 > p {
                    assert(str_lt(old_v[p as int], old_v[j - 1]));
                    lemma_str_lt_trans(xv, old_v[p as int], old_v[j - 1]);
                }
            } else {
                assert(str_lt(old_v[i - 1], old_v[j - 1]));
            }
        }
        assert forall|y: Seq<char>| nv.contains(y) <==> old_v.push(xv).contains(y) by {
            if nv.contains(y) {
                let k = choose|k: int| 0 <= k < nv.len() && nv[k] == y;
                if k < p {
                    assert(old_v.push(xv)[k] == y);
                } else if k == p {
                    assert(old_v.push(xv)[old_v.len() as int] == y);
                } else {
                    assert(old_v.push(xv)[k - 1] == y);
                }
            }
            if old_v.push(xv).contains(y) {
                let k = choose|k: int| 0 <= k < old_v.len() + 1 && old_v.push(xv)[k] == y;
                if k == old_v.len() {
                    assert(nv[p as int] == y);
                } else if k < p {
                    assert(nv[k] == y);
                } else {
                    assert(nv[k + 1] == y);
                }
            }
        }
    }
}

/// The message when only a catch-all is missing.
pub open spec fn catch_all_text() -> Seq<char> {
    "non-exhaustive match: add a wildcard `_` arm to cover the remaining values"@
}

/// The cases a message shows: the first six in backticks, then how many
/// more there are.
pub open spec fn shown_cases(cs: Seq<Seq<char>>) -> Seq<Seq<char>> {
    let k: int = if cs.len() <= 6 {
        cs.len() as int
    } else {
        6
    };
    Seq::new(k as nat, |i: int| "`"@ + cs[i] + "`"@) + if cs.len() > 6 {
        seq!["and "@ + nat_text((cs.len() - 6) as nat) + " more"@]
    } else {
        Seq::empty()
    }
}

/// Texts joined with `, `.
pub open spec fn join_texts(s: Seq<Seq<char>>) -> Seq<char>
    decreases s.len(),
{
    if s.len() == 0 {
        Seq::empty()
    } else if s.len() == 1 {
        s[0]
    } else {
        join_texts(s.drop_last()) + ", "@ + s.last()
    }
}

/// The non-exhaustive-match message for ascending distinct cases: a prompt
/// for a catch-all when every case is `_`, else the missing cases.
pub open spec fn missing_text(cs: Seq<Seq<char>>) -> Seq<char> {
    if forall|i: int| 0 <= i < cs.len() ==> #[trigger] cs[i] == "_"@ {
        catch_all_text()
    } else {
        "non-exhaustive match: missing case(s): "@ + join_texts(shown_cases(cs))
    }
}

/// Builds the non-exhaustive-match message from reconstructed witnesses.
pub fn non_exhaustive_message(witnesses: &[Vec<Witness>]) -> (r: String)
    ensures
        r@ == missing_text(case_list(wit_rows_v(witnesses@))),
{
    let ghost rows = wit_rows_v(witnesses@);
    let mut cases: Vec<Vec<char>> = Vec::new();
    let mut i: usize = 0;
    while i < witnesses.len()
        invariant
            i <= witnesses@.len(),
            rows == wit_rows_v(witnesses@),
            str_sorted(texts_v(cases@)),
            same_texts(texts_v(cases@), case_texts(rows.take(i as int))),
        decreases witnesses@.len() - i,
    {
        let mut text = String::new();
        write_wits(&mut text, &witnesses[i]);
        let chars = chars_of(text.as_str());
        let ghost before = texts_v(cases@);
        proof {
            assert(chars@ == wits_text(rows[i as int]));
        }
        insert_sorted(&mut cases, chars);
        proof {
            let ct = case_texts(rows.take(i + 1));
            assert(ct =~= case_texts(rows.take(i as int)).push(wits_text(rows[i as int])));
            assert forall|y: Seq<char>| texts_v(cases@).contains(y) <==> ct.contains(y) by {
                let prev = case_texts(rows.take(i as int));
                if before.push(wits_text(rows[i as int])).contains(y) {
                    let k = choose|k: int| 0 <= k < before.len() + 1 && before.push(wits_text(rows[i as int]))[k] == y;
                    if k < before.len() {
                        assert(before.contains(y));
                        assert(prev.contains(y));
                        let k2 = choose|k2: int| 0 <= k2 < prev.len() && prev[k2] == y;
                        assert(ct[k2] == y);
                    } else {
                        assert(ct[prev.len() as int] == y);
                    }
                }
                if ct.contains(y) {
                    let k = choose|k: int| 0 <= k < ct.len() && ct[k] == y;
                    if k < prev.len() {
                        assert(prev[k] == y);
                        assert(prev.contains(y));
                        assert(before.contains(y));
                        let k2 = choose|k2: int| 0 <= k2 < before.len() && before[k2] == y;
                        assert(before.push(wits_text(rows[i as int]))[k2] == y);
                    } else {
                        assert(before.push(wits_text(rows[i as int]))[before.len() as int] == y);
                    }
                }
            }
        }
        i = i + 1;
    }
    let ghost cs = texts_v(cases@);
    proof {
        assert(rows.take(rows.len() as int) =~= rows);
        lemma_sorted_unique(cs, case_list(rows));
    }
    let underscore = chars_of("_");
    let mut all_wild = true;
    let mut k: usize = 0;
    while k < cases.len()
        invariant
            k <= cases@.len(),
            cs == texts_v(cases@),
            underscore@ == "_"@,
            all_wild == forall|j: int| 0 <= j < k ==> #[trigger] cs[j] == "_"@,
        decreases cases@.len() - k,
    {
        assert(cs[k as int] == cases@[k as int]@);
        if !chars_eq(cases[k].as_slice(), underscore.as_slice()) {
            all_wild = false;
        }
        k = k + 1;
    }
    if all_wild {
        let mut out = String::new();
        out.append("non-exhaustive match: add a wildcard `_` arm to cover the remaining values");
        proof {
            assert(Seq::<char>::empty() + catch_all_text() =~= catch_all_text());
        }
        return out;
    }
    let mut out = String::new();
    out.append("non-exhaustive match: missing case(s): ");
    let ghost head = "non-exhaustive match: missing case(s): "@;
    proof {
        assert(Seq::<char>::empty() + head =~= head);
    }
    let shown: usize = if cases.len() <= 6 { cases.len() } else { 6 };
    let ghost sc = shown_cases(cs);
    let mut j: usize = 0;
    while j < shown
        invariant
            j <= shown,
            shown <= cases@.len(),
            shown == (if cases@.len() <= 6 { cases@.len() as int } else { 6 }),
            cs == texts_v(cases@),
            sc == shown_cases(cs),
            out@ == head + join_texts(sc.take(j as int)),
        decreases shown - j,
    {
        if j > 0 {
            out.append(", ");
        }
        out.append("`");
        push_chars(&mut out, cases[j].as_slice());
        out.append("`");
        proof {
            let tk = sc.take(j + 1);
            assert(tk.drop_last() =~= sc.take(j as int));
            assert(tk.last() == "`"@ + cs[j as int] + "`"@);
            if j == 0 {
                assert(join_texts(sc.take(0)) == Seq::<char>::empty());
            }
            assert(out@ =~= head + join_texts(tk));
        }
        j = j + 1;
    }
    if cases.len() > 6 {
        let extra = cases.len() - 6;
        out.append(", and ");
        write_nat(&mut out, extra as u64);
        out.append(" more");
        proof {
            reveal_strlit(", and ");
            reveal_strlit(", ");
            reveal_strlit("and ");
            assert(", and "@ =~= ", "@ + "and "@);
            let tk = sc.take(7);
            assert(sc.len() == 7);
            assert(tk =~= sc);
            assert(tk.drop_last() =~= sc.take(6));
            assert(out@ =~= head + join_texts(sc));
        }
    } else {
        proof {
            assert(sc.take(shown as int) =~= sc);
        }
    }
    out
}

// ── lowering ───────────────────────────────────────────────────────

/// The view of an optional pattern.
pub open spec fn opt_pat(r: Option<Pat>) -> Option<PatV> {
    match r {
        Some(p) => Some(p@),
        None => None,
    }
}

/// A surface pattern lowered to a matrix pattern: wildcards and bindings
/// become [`PatV::Wild`]; `None` when a literal or a constructor name is
/// missing (a malformed tree).
pub open spec fn lower_v(t: Tree) -> Option<PatV>
    decreases t, 1nat,
{
    match t {
        Tree::Node(k, c, _) => if k == SyntaxKind::WILDCARD_PAT || k == SyntaxKind::BIND_PAT {
            Some(PatV::Wild)
        } else if k == SyntaxKind::LITERAL_PAT {
            match first(c, Sel::Literal) {
                Some(l) => Some(PatV::Con(CtorV::Lit(text_of(l)), Seq::empty())),
                None => None,
            }
        } else if k == SyntaxKind::TUPLE_PAT {
            match lower_kids(c) {
                Some(ps) => Some(PatV::Con(CtorV::Tuple, ps)),
                None => None,
            }
        } else if k == SyntaxKind::CONSTRUCTOR_PAT {
            match lower_kids(c) {
                Some(ps) => match first_text(c, Sel::Token(SyntaxKind::IDENT)) {
                    Some(name) => Some(PatV::Con(CtorV::Variant(name), ps)),
                    None => None,
                },
                None => None,
            }
        } else {
            None
        },
        Tree::Token(_, _, _) => None,
    }
}

/// A wildcard `_` or a variable binding lowers to a pattern that matches
/// every value, so an arm made of one covers everything left.
pub proof fn law_wildcard_matches_all(t: Tree, v: Value)
    requires
        t is Node,
        t.kind() == SyntaxKind::WILDCARD_PAT || t.kind() == SyntaxKind::BIND_PAT,
    ensures
        lower_v(t) is Some,
        lower_v(t) matches Some(p) && matches(p, v),
{
}

/// A literal pattern lowers to a pattern that matches exactly the value
/// the literal names, and nothing else.
pub proof fn law_literal_matches_itself(t: Tree, l: Tree, v: Value)
    requires
        t is Node,
        t.kind() == SyntaxKind::LITERAL_PAT,
        first(t.kids(), Sel::Literal) == Some(l),
    ensures
        lower_v(t) matches Some(p) && (matches(p, v) <==> v == Value::Con(CtorV::Lit(text_of(l)), Seq::empty())),
{
    match v {
        Value::Con(c, vs) => {
            if c == CtorV::Lit(text_of(l)) && matches_all(Seq::<PatV>::empty(), vs) {
                assert(vs =~= Seq::<Value>::empty());
            }
        },
        Value::Other => {},
    }
}

/// A match with an arm that lowers from `_` (or a binding) leaves no value
/// uncovered: a wildcard against its arms is useless, so no case is
/// missing.
pub proof fn law_wildcard_arm_is_exhaustive(tbl: Seq<SigV>, arms: Seq<PatV>, i: int, t: Tree, scrutinee: usize)
    requires
        0 <= i < arms.len(),
        t is Node,
        t.kind() == SyntaxKind::WILDCARD_PAT || t.kind() == SyntaxKind::BIND_PAT,
        lower_v(t) == Some(arms[i]),
    ensures
        !uncovered(tbl, arm_rows(arms), seq![PatV::Wild], seq![scrutinee]),
{
    if uncovered(tbl, arm_rows(arms), seq![PatV::Wild], seq![scrutinee]) {
        let vs = choose|vs: Seq<Value>| typed_all(tbl, seq![scrutinee], vs) && matches_all(seq![PatV::Wild], vs)
            && #[trigger] none_match(arm_rows(arms), vs);
        law_wildcard_matches_all(t, vs[0]);
        assert(arm_rows(arms)[i] == seq![arms[i]]);
        assert(matches_all(arm_rows(arms)[i], vs));
    }
}

/// The child patterns among `c`, each lowered; `None` if one fails.
pub open spec fn lower_kids(c: Seq<Tree>) -> Option<Seq<PatV>>
    decreases c, 0nat,
{
    if c.len() == 0 {
        Some(Seq::empty())
    } else {
        match lower_kids(c.drop_last()) {
            None => None,
            Some(r) => if selects(Sel::Pattern, c.last()) {
                match lower_v(c.last()) {
                    Some(p) => Some(r.push(p)),
                    None => None,
                }
            } else {
                Some(r)
            },
        }
    }
}

/// Patterns each lowered; `None` if one fails.
pub open spec fn lower_seq(s: Seq<Tree>) -> Option<Seq<PatV>>
    decreases s.len(),
{
    if s.len() == 0 {
        Some(Seq::empty())
    } else {
        match lower_seq(s.drop_last()) {
            None => None,
            Some(r) => match lower_v(s.last()) {
                Some(p) => Some(r.push(p)),
                None => None,
            },
        }
    }
}

/// Lowering the child patterns is lowering the picked children.
proof fn lemma_lower_kids(c: Seq<Tree>)
    ensures
        lower_kids(c) == lower_seq(pick(c, Sel::Pattern)),
    decreases c.len(),
{
    if c.len() > 0 {
        lemma_lower_kids(c.drop_last());
        let r = pick(c.drop_last(), Sel::Pattern);
        if selects(Sel::Pattern, c.last()) {
            assert(r.push(c.last()).drop_last() =~= r);
        }
    }
}

/// Once a prefix fails to lower, the whole sequence does.
proof fn lemma_lower_seq_fail(s: Seq<Tree>, i: int)
    requires
        0 <= i <= s.len(),
        lower_seq(s.take(i)) is None,
    ensures
        lower_seq(s) is None,
    decreases s.len() - i,
{
    if i < s.len() {
        assert(s.take(i + 1).drop_last() =~= s.take(i));
        lemma_lower_seq_fail(s, i + 1);
    } else {
        assert(s.take(i) =~= s);
    }
}

/// Every picked child is a child.
proof fn lemma_pick_member(s: Seq<Tree>, p: Sel, i: int)
    requires
        0 <= i < pick(s, p).len(),
    ensures
        exists|j: int| 0 <= j < s.len() && #[trigger] s[j] == pick(s, p)[i],
    decreases s.len(),
{
    let r = pick(s.drop_last(), p);
    if i < r.len() {
        lemma_pick_member(s.drop_last(), p, i);
        let j = choose|j: int| 0 <= j < s.drop_last().len() && #[trigger] s.drop_last()[j] == r[i];
        assert(s[j] == s.drop_last()[j]);
    } else {
        assert(s[s.len() - 1] == pick(s, p)[i]);
    }
}

/// Lowers the patterns `elems`, the picked children of `t`.
fn lower_elems(t: Ghost<Tree>, elems: &Vec<Pattern>) -> (r: Option<Vec<Pat>>)
    requires
        t@ is Node,
        crate::ast::views(elems@) == pick(t@.kids(), Sel::Pattern),
        crate::ast::all_wf(elems@),
    ensures
        match r {
            Some(ps) => lower_kids(t@.kids()) == Some(pats_v(ps@)),
            None => lower_kids(t@.kids()) is None,
        },
    decreases t@, 0nat,
{
    let ghost picked = pick(t@.kids(), Sel::Pattern);
    proof {
        lemma_lower_kids(t@.kids());
        assert(picked.take(0) =~= Seq::<Tree>::empty());
        assert(pats_v(Seq::<Pat>::empty()) =~= Seq::<PatV>::empty());
    }
    let mut out: Vec<Pat> = Vec::new();
    let mut i: usize = 0;
    while i < elems.len()
        invariant
            i <= elems@.len(),
            picked == pick(t@.kids(), Sel::Pattern),
            crate::ast::views(elems@) == picked,
            crate::ast::all_wf(elems@),
            t@ is Node,
            lower_kids(t@.kids()) == lower_seq(picked),
            lower_seq(picked.take(i as int)) == Some(pats_v(out@)),
        decreases elems@.len() - i,
    {
        proof {
            assert(elems@[i as int]@ == picked[i as int]);
            lemma_pick_member(t@.kids(), Sel::Pattern, i as int);
            let j = choose|j: int| 0 <= j < t@.kids().len() && #[trigger] t@.kids()[j] == picked[i as int];
            let c = t@->Node_1;
            assert(decreases_to!(t@ => c));
            assert(decreases_to!(c => c[j]));
            assert(decreases_to!(t@ => elems@[i as int]@));
            assert(elems@[i as int].wf());
            assert(picked.take(i + 1).drop_last() =~= picked.take(i as int));
        }
        match lower(&elems[i]) {
            Some(p) => {
                let ghost before = out@;
                out.push(p);
                proof {
                    lemma_pats_v(out@);
                    lemma_pats_v(before);
                    assert(pats_v(out@) =~= pats_v(before).push(p@));
                }
            },
            None => {
                proof {
                    lemma_lower_seq_fail(picked, i + 1);
                }
                return None;
            },
        }
        i = i + 1;
    }
    proof {
        assert(picked.take(elems@.len() as int) =~= picked);
    }
    Some(out)
}

/// Lowers a surface pattern to a matrix pattern; `None` on a malformed
/// tree (a missing name or literal token).
pub fn lower(pattern: &Pattern) -> (r: Option<Pat>)
    requires
        pattern.wf(),
    ensures
        opt_pat(r) == lower_v(pattern@),
    decreases pattern@, 1nat,
{
    match pattern {
        Pattern::Wildcard(_) => Some(Pat::Wild),
        Pattern::Bind(_) => Some(Pat::Wild),
        Pattern::Literal(lit) => match lit.literal() {
            Some(l) => {
                let text = String::from_str(l.text());
                let r = Pat::Con(Ctor::Lit(text), Vec::new());
                proof {
                    assert(pats_v(Seq::<Pat>::empty()) =~= Seq::<PatV>::empty());
                }
                Some(r)
            },
            None => None,
        },
        Pattern::Tuple(tuple) => {
            let elems = tuple.elements();
            match lower_elems(Ghost(pattern@), &elems) {
                Some(ps) => Some(Pat::Con(Ctor::Tuple, ps)),
                None => None,
            }
        },
        Pattern::Constructor(ctor) => {
            let fields = ctor.fields();
            match lower_elems(Ghost(pattern@), &fields) {
                Some(ps) => match ctor.name() {
                    Some(name) => Some(Pat::Con(Ctor::Variant(String::from_str(name)), ps)),
                    None => None,
                },
                None => None,
            }
        },
    }
}

// ── checking a match ───────────────────────────────────────────────

/// Each pattern as a one-column row.
pub open spec fn arm_rows(s: Seq<PatV>) -> Seq<Seq<PatV>> {
    Seq::new(s.len(), |i: int| seq![s[i]])
}

/// What coverage found of a match: the arms no value reaches, and the
/// message naming the cases no arm covers.
#[derive(Debug)]
pub struct MatchReport {
    /// The indices of the unreachable arms, ascending.
    pub unreachable: Vec<usize>,
    /// The non-exhaustive-match message, when some value matches no arm.
    pub missing: Option<String>,
}

/// The warning text for an unreachable arm.
pub open spec fn unreachable_text() -> Seq<char> {
    "unreachable match arm: this pattern is already covered"@
}

impl SigTable {
    /// Checks the arms of a match on a scrutinee of type `scrutinee`:
    /// each arm must be useful against the arms above it, and a wildcard
    /// must not be useful against all of them.
    /// The missing cases the message names are the witnesses of
    /// [`useful_v`] for a wildcard against all the arms.
    pub fn check_match(&self, arms: &[Pat], scrutinee: usize) -> (r: MatchReport)
        requires
            self.wf(),
            scrutinee < self@.len(),
            forall|i: int| 0 <= i < arms@.len() ==> fits(self@, scrutinee, #[trigger] arms@[i]@),
        ensures
            forall|a: int, b: int| 0 <= a < b < r.unreachable@.len() ==> r.unreachable@[a] < r.unreachable@[b],
            forall|a: int| 0 <= a < r.unreachable@.len() ==> #[trigger] r.unreachable@[a] < arms@.len(),
            forall|i: int|
                0 <= i < arms@.len() && r.unreachable@.contains(i as usize) ==> !uncovered(
                    self@,
                    arm_rows(pats_v(arms@).take(i)),
                    seq![#[trigger] arms@[i]@],
                    seq![scrutinee],
                ),
            inhabited(self@) ==> forall|i: int|
                0 <= i < arms@.len() && !r.unreachable@.contains(i as usize) ==> uncovered(
                    self@,
                    arm_rows(pats_v(arms@).take(i)),
                    seq![#[trigger] arms@[i]@],
                    seq![scrutinee],
                ),
            uncovered(self@, arm_rows(pats_v(arms@)), seq![PatV::Wild], seq![scrutinee]) ==> r.missing is Some,
            inhabited(self@) && r.missing is Some ==> uncovered(
                self@,
                arm_rows(pats_v(arms@)),
                seq![PatV::Wild],
                seq![scrutinee],
            ),
            forall|i: int|
                0 <= i < arms@.len() ==> (r.unreachable@.contains(i as usize) <==> useful_v(
                    self@,
                    arm_rows(pats_v(arms@).take(i)),
                    seq![#[trigger] arms@[i]@],
                    seq![scrutinee],
                ).len() == 0),
            r.missing is Some <==> useful_v(self@, arm_rows(pats_v(arms@)), seq![PatV::Wild], seq![scrutinee]).len() > 0,
            r.missing matches Some(msg) ==> msg@ == missing_text(
                case_list(useful_v(self@, arm_rows(pats_v(arms@)), seq![PatV::Wild], seq![scrutinee])),
            ),
    {
        let ghost tbl = self@;
        let ghost av = pats_v(arms@);
        let mut cols: Vec<usize> = Vec::new();
        cols.push(scrutinee);
        let mut rows: Vec<Vec<Pat>> = Vec::new();
        let mut unreachable: Vec<usize> = Vec::new();
        proof {
            lemma_pats_v(arms@);
            assert(cols@ =~= seq![scrutinee]);
            assert(matrix_v(rows@) =~= arm_rows(av.take(0)));
        }
        let mut i: usize = 0;
        while i < arms.len()
            invariant
                i <= arms@.len(),
                tbl == self@,
                self.wf(),
                scrutinee < tbl.len(),
                av == pats_v(arms@),
                av.len() == arms@.len(),
                forall|j: int| 0 <= j < arms@.len() ==> #[trigger] av[j] == arms@[j]@,
                forall|j: int| 0 <= j < arms@.len() ==> fits(tbl, scrutinee, #[trigger] arms@[j]@),
                cols@ == seq![scrutinee],
                matrix_v(rows@) == arm_rows(av.take(i as int)),
                forall|a: int, b: int| 0 <= a < b < unreachable@.len() ==> unreachable@[a] < unreachable@[b],
                forall|a: int| 0 <= a < unreachable@.len() ==> #[trigger] unreachable@[a] < i,
                forall|j: int|
                    0 <= j < i && unreachable@.contains(j as usize) ==> !uncovered(
                        tbl,
                        arm_rows(av.take(j)),
                        seq![#[trigger] arms@[j]@],
                        seq![scrutinee],
                    ),
                inhabited(tbl) ==> forall|j: int|
                    0 <= j < i && !unreachable@.contains(j as usize) ==> uncovered(
                        tbl,
                        arm_rows(av.take(j)),
                        seq![#[trigger] arms@[j]@],
                        seq![scrutinee],
                    ),
                forall|j: int|
                    0 <= j < i ==> (unreachable@.contains(j as usize) <==> useful_v(
                        tbl,
                        arm_rows(av.take(j)),
                        seq![#[trigger] arms@[j]@],
                        seq![scrutinee],
                    ).len() == 0),
            decreases arms@.len() - i,
        {
            let mut row: Vec<Pat> = Vec::new();
            row.push(arms[i].clone());
            proof {
                lemma_pats_v(row@);
                assert(pats_v(row@) =~= seq![arms@[i as int]@]);
                assert(matrix_v(rows@).len() == rows@.len());
                assert(rows@.len() == i);
                assert forall|k: int| 0 <= k < rows@.len() implies fits_all(tbl, cols@, #[trigger] matrix_v(rows@)[k]) by {
                    assert(av.take(i as int)[k] == av[k]);
                    assert(matrix_v(rows@)[k] == seq![av[k]]);
                    assert(fits(tbl, scrutinee, arms@[k]@));
                }
                assert(fits_all(tbl, cols@, pats_v(row@)));
            }
            let witnesses = self.useful(rows.as_slice(), row.as_slice(), cols.as_slice());
            let ghost before = unreachable@;
            if witnesses.len() == 0 {
                unreachable.push(i);
            }
            proof {
                if witnesses@.len() > 0 && inhabited(tbl) {
                    assert(realizable(tbl, matrix_v(rows@), pats_v(row@), cols@, wit_rows_v(witnesses@)[0]));
                }
                assert forall|j: int| 0 <= j <= i && unreachable@.contains(j as usize) implies !uncovered(
                    tbl,
                    arm_rows(av.take(j)),
                    seq![#[trigger] arms@[j]@],
                    seq![scrutinee],
                ) by {
                    if j < i {
                        let k = choose|k: int| 0 <= k < unreachable@.len() && unreachable@[k] == j as usize;
                        if k == before.len() {
                            assert(unreachable@[k] == i);
                        } else {
                            assert(before[k] == j as usize);
                        }
                    }
                }
                if inhabited(tbl) {
                    assert forall|j: int| 0 <= j <= i && !unreachable@.contains(j as usize) implies uncovered(
                        tbl,
                        arm_rows(av.take(j)),
                        seq![#[trigger] arms@[j]@],
                        seq![scrutinee],
                    ) by {
                        if j < i {
                            if before.contains(j as usize) {
                                let k = choose|k: int| 0 <= k < before.len() && before[k] == j as usize;
                                assert(unreachable@[k] == j as usize);
                            }
                        } else {
                            if witnesses@.len() == 0 {
                                assert(unreachable@[before.len() as int] == i);
                            }
                        }
                    }
                }
            }
            proof {
                assert(wit_rows_v(witnesses@).len() == witnesses@.len());
                assert forall|j: int|
                    0 <= j <= i implies (unreachable@.contains(j as usize) <==> useful_v(
                        tbl,
                        arm_rows(av.take(j)),
                        seq![#[trigger] arms@[j]@],
                        seq![scrutinee],
                    ).len() == 0) by {
                    if j < i {
                        if before.contains(j as usize) {
                            let k = choose|k: int| 0 <= k < before.len() && before[k] == j as usize;
                            assert(unreachable@[k] == j as usize);
                        }
                        if unreachable@.contains(j as usize) {
                            let k = choose|k: int| 0 <= k < unreachable@.len() && unreachable@[k] == j as usize;
                            if k == before.len() {
                                assert(unreachable@[k] == i);
                            } else {
                                assert(before[k] == j as usize);
                            }
                        }
                    } else {
                        assert(pats_v(row@) == seq![arms@[j]@]);
                        if witnesses@.len() == 0 {
                            assert(unreachable@[before.len() as int] == i);
                        } else {
                            assert(unreachable@ == before);
                            if before.contains(i) {
                                let k = choose|k: int| 0 <= k < before.len() && before[k] == i;
                                assert(before[k] < i);
                            }
                        }
                    }
                }
            }
            let ghost rv = pats_v(row@);
            let ghost rows_before = rows@;
            rows.push(row);
            proof {
                assert(rv == seq![av[i as int]]);
                assert(matrix_v(rows@) =~= matrix_v(rows_before).push(rv));
                assert(arm_rows(av.take(i + 1)) =~= arm_rows(av.take(i as int)).push(seq![av[i as int]]));
                assert(matrix_v(rows@) =~= arm_rows(av.take(i + 1)));
            }
            i = i + 1;
        }
        let mut wild: Vec<Pat> = Vec::new();
        wild.push(Pat::Wild);
        proof {
            lemma_pats_v(wild@);
            assert(pats_v(wild@) =~= seq![PatV::Wild]);
            assert(av.take(arms@.len() as int) =~= av);
            assert(matrix_v(rows@).len() == rows@.len());
            assert forall|k: int| 0 <= k < rows@.len() implies fits_all(tbl, cols@, #[trigger] matrix_v(rows@)[k]) by {
                assert(av.take(arms@.len() as int)[k] == av[k]);
                assert(matrix_v(rows@)[k] == seq![av[k]]);
                assert(fits(tbl, scrutinee, arms@[k]@));
            }
        }
        let witnesses = self.useful(rows.as_slice(), wild.as_slice(), cols.as_slice());
        let missing = if witnesses.len() == 0 {
            None
        } else {
            proof {
                if inhabited(tbl) {
                    assert(realizable(tbl, matrix_v(rows@), pats_v(wild@), cols@, wit_rows_v(witnesses@)[0]));
                }
            }
            Some(non_exhaustive_message(witnesses.as_slice()))
        };
        MatchReport { unreachable, missing }
    }
}

impl MatchReport {
    /// The diagnostics of the report: a warning at each unreachable arm's
    /// span, then an error at the match's span when cases are missing.
    pub fn diagnostics(&self, arm_spans: &[Span], span: Span) -> (r: Vec<CheckDiagnostic>)
        requires
            forall|a: int| 0 <= a < self.unreachable@.len() ==> #[trigger] self.unreachable@[a] < arm_spans@.len(),
        ensures
            r@.len() == self.unreachable@.len() + if self.missing is Some {
                1int
            } else {
                0int
            },
            forall|k: int|
                0 <= k < self.unreachable@.len() ==> {
                    &&& (#[trigger] r@[k]).code == CheckCode::C0016
                    &&& r@[k].severity == crate::diag::Severity::Warning
                    &&& r@[k].span == arm_spans@[self.unreachable@[k] as int]
                    &&& r@[k].message@ == unreachable_text()
                    &&& r@[k].related@.len() == 0
                },
            self.missing matches Some(msg) ==> {
                let d = r@[self.unreachable@.len() as int];
                &&& d.code == CheckCode::C0015
                &&& d.severity == crate::diag::Severity::Error
                &&& d.span == span
                &&& d.message@ == msg@
                &&& d.related@.len() == 0
            },
    {
        let mut out: Vec<CheckDiagnostic> = Vec::new();
        let mut k: usize = 0;
        while k < self.unreachable.len()
            invariant
                k <= self.unreachable@.len(),
                out@.len() == k,
                forall|a: int| 0 <= a < self.unreachable@.len() ==> #[trigger] self.unreachable@[a] < arm_spans@.len(),
                forall|j: int|
                    0 <= j < k ==> {
                        &&& (#[trigger] out@[j]).code == CheckCode::C0016
                        &&& out@[j].severity == crate::diag::Severity::Warning
                        &&& out@[j].span == arm_spans@[self.unreachable@[j] as int]
                        &&& out@[j].message@ == unreachable_text()
                        &&& out@[j].related@.len() == 0
                    },
            decreases self.unreachable@.len() - k,
        {
            let idx = self.unreachable[k];
            let mut message = String::new();
            message.append("unreachable match arm: this pattern is already covered");
            proof {
                assert(Seq::<char>::empty() + unreachable_text() =~= unreachable_text());
            }
            out.push(CheckDiagnostic::warning(CheckCode::C0016, arm_spans[idx], message));
            k = k + 1;
        }
        if let Some(msg) = &self.missing {
            out.push(CheckDiagnostic::error(CheckCode::C0015, span, msg.clone()));
        }
        out
    }
}


/// The field count a constructor scheme exposes: the parameters of the
/// function type under its quantifiers, none for a nullary constructor.
pub open spec fn scheme_arity_v(t: TyV) -> nat
    decreases t,
{
    match t {
        TyV::Forall(_, b) => scheme_arity_v(*b),
        TyV::Fn(ps, _, _) => ps.len(),
        _ => 0,
    }
}

/// The field count a constructor scheme exposes (0 for nullary
/// constructors).
pub fn scheme_arity(scheme: &Ty) -> (r: usize)
    ensures
        r == scheme_arity_v(scheme@),
    decreases scheme,
{
    match scheme {
        Ty::Forall(_, inner) => scheme_arity(inner),
        Ty::Fn(params, _, _) => {
            proof {
                crate::wire::value::lemma_tys_v(params@);
            }
            params.len()
        },
        _ => 0,
    }
}

} // verus!
