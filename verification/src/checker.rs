//! Syntactic helpers of the checker's passes: the reference graph its
//! generalisation order comes from, and small queries over declarations.
use vstd::prelude::*;

use crate::ast::{
    opt_view, views, ActorDecl, ActorField, AstNode, BinOpExpr, Expr, FnDecl, TypeDecl,
    TypeExpr,
};
use crate::diag::{CheckCode, CheckDiagnostic, Severity, Span};
use crate::graph::ascending;
use crate::names::{is_uppercase, uppercase, ModuleName};
use crate::select::{after, find_sel, first, first_text, flat, lemma_kids, pick, texts, upto, Sel};
use crate::syntax::{elem_tree, elems_tree, lemma_elems_tree, SyntaxElement, SyntaxKind, SyntaxNode, Tree};
use crate::registry::{
    find_last, keyed, lemma_keyed_last, lemma_keyed_push, module_v, CtorInfo,
    field_tys, lemma_set_of_push, lemma_unvisited, names_v, opaque_adt, set_of, unvisited, visited_has,
    Registry, RegistryV,
};
use crate::wire::grammar::{subst, subst_all, subst_fields};
use crate::wire::schema::chars_eq;
use crate::wire::schema::subst_tys;
use crate::wire::value::{fields_ty_v, lemma_fields_ty_v, lemma_tys_v, tys_v, Ty, TyV};
use crate::wire::text::chars_of;

verus! {

// ── identifiers under a tree ───────────────────────────────────────

/// The texts of the identifier tokens in a tree, in source order.
pub open spec fn idents_tree(t: Tree) -> Seq<Seq<char>>
    decreases t, 1nat,
{
    match t {
        Tree::Token(k, text, _) => if k == SyntaxKind::IDENT {
            seq![text]
        } else {
            Seq::empty()
        },
        Tree::Node(_, c, _) => idents_kids(c),
    }
}

/// The texts of the identifier tokens under a sequence of trees.
pub open spec fn idents_kids(c: Seq<Tree>) -> Seq<Seq<char>>
    decreases c, 0nat,
{
    if c.len() == 0 {
        Seq::empty()
    } else {
        idents_kids(c.drop_last()) + idents_tree(c.last())
    }
}

/// The views of strings.
pub open spec fn strs_v(s: Seq<String>) -> Seq<Seq<char>> {
    Seq::new(s.len(), |i: int| s[i]@)
}

/// Pushes the text of every identifier token under `node` into `out`.
pub fn collect_idents(node: &SyntaxNode, out: &mut Vec<String>)
    ensures
        strs_v(final(out)@) == strs_v(old(out)@) + idents_tree(node@),
    decreases node@,
{
    let ghost start = strs_v(out@);
    let ghost c = elems_tree(node.children@);
    proof {
        lemma_elems_tree(node.children@);
        assert(node@ == Tree::Node(node.kind, c, (node.start, node.end)));
        assert(c.take(0) =~= Seq::<Tree>::empty());
        assert(start + Seq::<Seq<char>>::empty() =~= start);
    }
    let mut i: usize = 0;
    while i < node.children.len()
        invariant
            i <= node.children@.len(),
            c == elems_tree(node.children@),
            c.len() == node.children@.len(),
            node@ == Tree::Node(node.kind, c, (node.start, node.end)),
            forall|j: int| 0 <= j < node.children@.len() ==> #[trigger] c[j] == elem_tree(&node.children@[j]),
            strs_v(out@) == start + idents_kids(c.take(i as int)),
        decreases node.children@.len() - i,
    {
        let ghost before = strs_v(out@);
        proof {
            assert(c.take(i + 1).drop_last() =~= c.take(i as int));
            assert(c.take(i + 1).last() == c[i as int]);
        }
        match &node.children[i] {
            SyntaxElement::Token(t) => {
                proof {
                    assert(c[i as int] == elem_tree(&node.children@[i as int]));
                    assert(c[i as int] == Tree::Token(t.kind, t.text@, (t.start, t.end)));
                    assert(idents_kids(c.take(i + 1)) == idents_kids(c.take(i as int)) + idents_tree(c[i as int]));
                }
                if t.kind == SyntaxKind::IDENT {
                    out.push(t.text.clone());
                    proof {
                        assert(strs_v(out@) =~= before.push(t.text@));
                        assert(seq![t.text@] + Seq::<Seq<char>>::empty() =~= seq![t.text@]);
                        assert(strs_v(out@) =~= start + idents_kids(c.take(i + 1)));
                    }
                } else {
                    proof {
                        assert(strs_v(out@) =~= start + idents_kids(c.take(i + 1)));
                    }
                }
            },
            SyntaxElement::Node(n) => {
                proof {
                    assert(c[i as int] == elem_tree(&node.children@[i as int]));
                    assert(c[i as int] == n@);
                    let tr = node@;
                    assert(tr->Node_1 == c);
                    assert(decreases_to!(tr => tr->Node_1));
                    assert(decreases_to!(c => c[i as int]));
                    assert(idents_kids(c.take(i + 1)) == idents_kids(c.take(i as int)) + idents_tree(c[i as int]));
                }
                collect_idents(n, out);
                proof {
                    assert(strs_v(out@) =~= start + idents_kids(c.take(i + 1)));
                }
            },
        }
        i = i + 1;
    }
    proof {
        assert(c.take(node.children@.len() as int) =~= c);
    }
}

// ── the reference graph ────────────────────────────────────────────

/// The name of each function declaration.
pub open spec fn fn_names(fns: Seq<FnDecl>) -> Seq<Option<Seq<char>>> {
    Seq::new(fns.len(), |i: int| first_text(fns[i]@.kids(), Sel::Token(SyntaxKind::IDENT)))
}

/// The identifiers of a function's body.
pub open spec fn body_idents(decl: FnDecl) -> Seq<Seq<char>> {
    match first(after(decl@.kids(), SyntaxKind::EQ), Sel::Expr) {
        Some(body) => idents_tree(body),
        None => Seq::empty(),
    }
}

/// The first index at or after `j` whose name is `x`.
pub open spec fn name_index(names: Seq<Option<Seq<char>>>, x: Seq<char>, j: int) -> Option<int>
    decreases names.len() - j,
{
    if 0 <= j < names.len() {
        if names[j] == Some(x) {
            Some(j)
        } else {
            name_index(names, x, j + 1)
        }
    } else {
        None
    }
}

/// Whether some identifier among `idents` names function `j` (the first
/// function of that name).
pub open spec fn refers(names: Seq<Option<Seq<char>>>, idents: Seq<Seq<char>>, j: int) -> bool {
    exists|k: int| 0 <= k < idents.len() && name_index(names, #[trigger] idents[k], 0) == Some(j)
}

/// A found name index is in range.
proof fn lemma_name_index(names: Seq<Option<Seq<char>>>, x: Seq<char>, j: int)
    requires
        0 <= j,
    ensures
        name_index(names, x, j) matches Some(k) ==> j <= k < names.len() && names[k] == Some(x),
    decreases names.len() - j,
{
    if 0 <= j < names.len() && names[j] != Some(x) {
        lemma_name_index(names, x, j + 1);
    }
}

/// The index of the first function named `x`.
fn find_name(names: &Vec<Option<Vec<char>>>, x: &Vec<char>) -> (r: Option<usize>)
    ensures
        match r {
            Some(j) => name_index(opt_chars_v(names@), x@, 0) == Some(j as int),
            None => name_index(opt_chars_v(names@), x@, 0) is None,
        },
{
    let ghost nv = opt_chars_v(names@);
    let mut j: usize = 0;
    while j < names.len()
        invariant
            j <= names@.len(),
            nv == opt_chars_v(names@),
            name_index(nv, x@, 0) == name_index(nv, x@, j as int),
        decreases names@.len() - j,
    {
        let hit = match &names[j] {
            Some(n) => chars_eq(n.as_slice(), x.as_slice()),
            None => false,
        };
        if hit {
            return Some(j);
        }
        j = j + 1;
    }
    None
}

/// The views of optional character vectors.
pub open spec fn opt_chars_v(s: Seq<Option<Vec<char>>>) -> Seq<Option<Seq<char>>> {
    Seq::new(
        s.len(),
        |i: int|
            match s[i] {
                Some(v) => Some(v@),
                None => None,
            },
    )
}

/// What `o` holds with `x` inserted at `p`: what `o` held, and `x`.
proof fn lemma_insert_contains(o: Seq<usize>, p: int, x: usize)
    requires
        0 <= p <= o.len(),
    ensures
        forall|y: usize| o.insert(p, x).contains(y) <==> (o.contains(y) || y == x),
{
    let v = o.insert(p, x);
    assert forall|y: usize| v.contains(y) <==> (o.contains(y) || y == x) by {
        if v.contains(y) {
            let k = choose|k: int| 0 <= k < v.len() && v[k] == y;
            if k < p {
                assert(o[k] == y);
            } else if k > p {
                assert(o[k - 1] == y);
            }
        }
        if o.contains(y) {
            let k = choose|k: int| 0 <= k < o.len() && o[k] == y;
            if k < p {
                assert(v[k] == y);
            } else {
                assert(v[k + 1] == y);
            }
        }
        if y == x {
            assert(v[p] == x);
        }
    }
}

/// Inserts `x` into the strictly ascending `v`, unless present.
#[verifier::spinoff_prover]
pub(crate) fn insert_index(v: &mut Vec<usize>, x: usize)
    requires
        ascending(old(v)@),
    ensures
        ascending(final(v)@),
        forall|y: usize| final(v)@.contains(y) <==> (old(v)@.contains(y) || y == x),
{
    let ghost o = v@;
    let mut p: usize = 0;
    while p < v.len() && v[p] < x
        invariant
            p <= v@.len(),
            o == v@,
            forall|q: int| 0 <= q < p ==> v@[q] < x,
        decreases v@.len() - p,
    {
        p = p + 1;
    }
    if p < v.len() && v[p] == x {
        proof {
            assert(o[p as int] == x);
            assert(o.contains(x));
            assert(forall|y: usize| v@.contains(y) <==> (o.contains(y) || y == x));
        }
        return;
    }
    v.insert(p, x);
    proof {
        assert forall|i: int, j: int| 0 <= i < j < v@.len() implies v@[i] < v@[j] by {
            if j < p {
                assert(o[i] < o[j]);
            } else if j == p {
            } else if i < p {
                assert(v@[j] == o[j - 1]);
                if j - 1 > p {
                    assert(o[p as int] < o[j - 1]);
                }
            } else if i == p {
                assert(v@[j] == o[j - 1]);
                if j - 1 > p {
                    assert(o[p as int] < o[j - 1]);
                }
            } else {
                assert(o[i - 1] < o[j - 1]);
            }
        }
        lemma_insert_contains(o, p as int, x);
        assert(forall|y: usize| v@.contains(y) <==> (o.contains(y) || y == x));
    }
}

/// The top-level reference graph: an edge `i → j` whenever the body of
/// function `i` mentions the name of function `j` (the first function of
/// that name). References are collected lexically, from every identifier
/// token; each edge list is strictly ascending.
pub fn reference_graph(fns: &[FnDecl]) -> (r: Vec<Vec<usize>>)
    ensures
        r@.len() == fns@.len(),
        forall|i: int| 0 <= i < r@.len() ==> ascending(#[trigger] r@[i]@),
        forall|i: int, j: usize|
            0 <= i < r@.len() ==> (#[trigger] r@[i]@.contains(j) <==> refers(
                fn_names(fns@),
                body_idents(fns@[i]),
                j as int,
            )),
{
    let ghost names_v = fn_names(fns@);
    let mut names: Vec<Option<Vec<char>>> = Vec::new();
    let mut i: usize = 0;
    while i < fns.len()
        invariant
            i <= fns@.len(),
            names_v == fn_names(fns@),
            names@.len() == i,
            forall|k: int| 0 <= k < i ==> #[trigger] opt_chars_v(names@)[k] == names_v[k],
        decreases fns@.len() - i,
    {
        let n = match fns[i].name() {
            Some(s) => Some(chars_of(s)),
            None => None,
        };
        let ghost before = names@;
        names.push(n);
        proof {
            assert forall|k: int| 0 <= k < i + 1 implies #[trigger] opt_chars_v(names@)[k] == names_v[k] by {
                if k < i {
                    assert(names@[k] == before[k]);
                    assert(opt_chars_v(before)[k] == names_v[k]);
                }
            }
        }
        i = i + 1;
    }
    proof {
        assert(opt_chars_v(names@) =~= names_v);
    }
    let mut out: Vec<Vec<usize>> = Vec::new();
    let mut i: usize = 0;
    while i < fns.len()
        invariant
            i <= fns@.len(),
            names_v == fn_names(fns@),
            opt_chars_v(names@) == names_v,
            out@.len() == i,
            forall|k: int| 0 <= k < i ==> ascending(#[trigger] out@[k]@),
            forall|k: int, j: usize|
                0 <= k < i ==> (#[trigger] out@[k]@.contains(j) <==> refers(names_v, body_idents(fns@[k]), j as int)),
        decreases fns@.len() - i,
    {
        let decl = &fns[i];
        let mut idents: Vec<String> = Vec::new();
        let body_opt = decl.body();
        proof {
            assert(strs_v(idents@) =~= Seq::<Seq<char>>::empty());
        }
        match &body_opt {
            Some(body) => {
                match body.syntax() {
                    Some(node) => {
                        collect_idents(node, &mut idents);
                        proof {
                            assert(Seq::<Seq<char>>::empty() + idents_tree(node@) =~= idents_tree(node@));
                        }
                    },
                    None => {
                        if let Expr::Name(name) = body {
                            let t = name.text();
                            idents.push(String::from_str(t));
                            proof {
                                assert(strs_v(idents@) =~= seq![t@]);
                            }
                        }
                    },
                }
            },
            None => {},
        }
        let ghost iv = strs_v(idents@);
        proof {
            assert(iv =~= body_idents(fns@[i as int]));
        }
        let mut edges: Vec<usize> = Vec::new();
        let mut k: usize = 0;
        while k < idents.len()
            invariant
                k <= idents@.len(),
                iv == strs_v(idents@),
                opt_chars_v(names@) == names_v,
                ascending(edges@),
                forall|j: usize| edges@.contains(j) <==> refers(names_v, iv.take(k as int), j as int),
            decreases idents@.len() - k,
        {
            let x = chars_of(idents[k].as_str());
            let found = find_name(&names, &x);
            let ghost before = edges@;
            match found {
                Some(j) => {
                    insert_index(&mut edges, j);
                },
                None => {},
            }
            proof {
                assert(x@ == iv[k as int]);
                let t = iv.take(k + 1);
                assert forall|j: usize| edges@.contains(j) <==> refers(names_v, t, j as int) by {
                    if refers(names_v, t, j as int) {
                        let q = choose|q: int| 0 <= q < t.len() && name_index(names_v, #[trigger] t[q], 0) == Some(j as int);
                        if q < k {
                            assert(iv.take(k as int)[q] == t[q]);
                            assert(refers(names_v, iv.take(k as int), j as int));
                        }
                    }
                    if refers(names_v, iv.take(k as int), j as int) {
                        let q = choose|q: int| 0 <= q < k && name_index(names_v, #[trigger] iv.take(k as int)[q], 0) == Some(j as int);
                        assert(t[q] == iv.take(k as int)[q]);
                    }
                    if found == Some(j) {
                        assert(t[k as int] == iv[k as int]);
                    }
                }
            }
            k = k + 1;
        }
        proof {
            assert(iv.take(idents@.len() as int) =~= iv);
        }
        let ghost before = out@;
        out.push(edges);
        proof {
            assert forall|kk: int, j: usize|
                0 <= kk < i + 1 implies (#[trigger] out@[kk]@.contains(j) <==> refers(names_v, body_idents(fns@[kk]), j as int)) by {
                if kk < i {
                    assert(out@[kk] == before[kk]);
                }
            }
        }
        i = i + 1;
    }
    out
}

/// Every edge of the reference graph points at a function.
pub proof fn lemma_reference_edges(fns: Seq<FnDecl>, r: Seq<Vec<usize>>)
    requires
        r.len() == fns.len(),
        forall|i: int, j: usize|
            0 <= i < r.len() ==> (#[trigger] r[i]@.contains(j) <==> refers(fn_names(fns), body_idents(fns[i]), j as int)),
    ensures
        crate::graph::edges_in_range(r),
{
    assert forall|u: int, k: int| 0 <= u < r.len() && 0 <= k < r[u]@.len() implies #[trigger] r[u]@[k] < r.len() by {
        let j = r[u]@[k];
        assert(r[u]@.contains(j));
        let idents = body_idents(fns[u]);
        let q = choose|q: int| 0 <= q < idents.len() && name_index(fn_names(fns), #[trigger] idents[q], 0) == Some(j as int);
        lemma_name_index(fn_names(fns), idents[q], 0);
    }
}

// ── declaration queries ────────────────────────────────────────────

/// Whether a parameter carries a type annotation.
pub open spec fn param_annotated(p: Tree) -> bool {
    first(after(p.kids(), SyntaxKind::COLON), Sel::Type) is Some
}

/// Whether every parameter and the return type carry annotations.
pub fn is_fully_annotated(decl: &FnDecl) -> (r: bool)
    ensures
        r == (crate::ast::first_in(decl@.kids(), SyntaxKind::RETURN_TYPE, Sel::Type) is Some && forall|i: int|
            0 <= i < pick(flat(decl@.kids(), SyntaxKind::PARAM_LIST), Sel::Node(SyntaxKind::PARAM)).len()
                ==> param_annotated(
                #[trigger] pick(flat(decl@.kids(), SyntaxKind::PARAM_LIST), Sel::Node(SyntaxKind::PARAM))[i],
            )),
{
    let rt = decl.return_type();
    if rt.is_none() {
        proof {
            assert(opt_view(rt) is None);
        }
        return false;
    }
    let params = decl.params();
    let ghost ps = pick(flat(decl@.kids(), SyntaxKind::PARAM_LIST), Sel::Node(SyntaxKind::PARAM));
    let mut i: usize = 0;
    while i < params.len()
        invariant
            i <= params@.len(),
            ps == pick(flat(decl@.kids(), SyntaxKind::PARAM_LIST), Sel::Node(SyntaxKind::PARAM)),
            views(params@) == ps,
            forall|k: int| 0 <= k < i ==> param_annotated(#[trigger] ps[k]),
        decreases params@.len() - i,
    {
        proof {
            assert(params@[i as int]@ == ps[i as int]);
        }
        if params[i].ty().is_none() {
            proof {
                assert(!param_annotated(ps[i as int]));
            }
            return false;
        }
        i = i + 1;
    }
    true
}

/// The distinct elements of `s`, each at its first occurrence.
pub open spec fn dedup_first(s: Seq<Seq<char>>) -> Seq<Seq<char>>
    decreases s.len(),
{
    if s.len() == 0 {
        Seq::empty()
    } else {
        let d = dedup_first(s.drop_last());
        if d.contains(s.last()) {
            d
        } else {
            d.push(s.last())
        }
    }
}

/// The declaration's type parameter names without repeats, in order of
/// first appearance.
pub fn distinct_params(decl: &TypeDecl) -> (r: Vec<String>)
    ensures
        strs_v(r@) == dedup_first(texts(pick(flat(decl@.kids(), SyntaxKind::TYPE_PARAMS), Sel::Token(SyntaxKind::IDENT)))),
{
    let all = decl.type_params();
    let ghost s = texts(pick(flat(decl@.kids(), SyntaxKind::TYPE_PARAMS), Sel::Token(SyntaxKind::IDENT)));
    let mut params: Vec<String> = Vec::new();
    let mut i: usize = 0;
    proof {
        assert(s.take(0) =~= Seq::<Seq<char>>::empty());
        assert(strs_v(params@) =~= Seq::<Seq<char>>::empty());
    }
    while i < all.len()
        invariant
            i <= all@.len(),
            crate::ast::str_views(all@) == s,
            strs_v(params@) == dedup_first(s.take(i as int)),
        decreases all@.len() - i,
    {
        let p = chars_of(all[i]);
        let mut present = false;
        let mut k: usize = 0;
        while k < params.len()
            invariant
                k <= params@.len(),
                present == exists|q: int| 0 <= q < k && #[trigger] strs_v(params@)[q] == p@,
            decreases params@.len() - k,
        {
            let q = chars_of(params[k].as_str());
            if chars_eq(q.as_slice(), p.as_slice()) {
                present = true;
            }
            proof {
                if present && !(exists|q2: int| 0 <= q2 < k && #[trigger] strs_v(params@)[q2] == p@) {
                    assert(strs_v(params@)[k as int] == p@);
                }
            }
            k = k + 1;
        }
        let ghost before = strs_v(params@);
        proof {
            assert(s.take(i + 1).drop_last() =~= s.take(i as int));
            assert(s.take(i + 1).last() == s[i as int]);
            assert(p@ == s[i as int]);
            if before.contains(p@) {
                let q = choose|q: int| 0 <= q < before.len() && before[q] == p@;
                assert(strs_v(params@)[q] == p@);
            }
        }
        if !present {
            params.push(String::from_str(all[i]));
            proof {
                assert(strs_v(params@) =~= before.push(s[i as int]));
            }
        }
        i = i + 1;
    }
    proof {
        assert(s.take(all@.len() as int) =~= s);
    }
    params
}

/// The index of the first field named `member`, from `k` on.
pub open spec fn field_named(fields: Seq<Tree>, member: Seq<char>, k: int) -> Option<int>
    decreases fields.len() - k,
{
    if 0 <= k < fields.len() {
        if first_text(fields[k].kids(), Sel::Token(SyntaxKind::IDENT)) == Some(member) {
            Some(k)
        } else {
            field_named(fields, member, k + 1)
        }
    } else {
        None
    }
}

/// The actor body field named `member`, if present (the first of that
/// name).
pub fn actor_field(decl: &ActorDecl, member: &str) -> (r: Option<ActorField>)
    ensures
        ({
            let fields = pick(decl@.kids(), Sel::Node(SyntaxKind::ACTOR_FIELD));
            match field_named(fields, member@, 0) {
                Some(k) => opt_view(r) == Some(fields[k]),
                None => r is None,
            }
        }),
{
    let mut fields = decl.fields();
    let ghost fs = pick(decl@.kids(), Sel::Node(SyntaxKind::ACTOR_FIELD));
    let m = chars_of(member);
    let mut i: usize = 0;
    while i < fields.len()
        invariant
            i <= fields@.len(),
            fs == pick(decl@.kids(), Sel::Node(SyntaxKind::ACTOR_FIELD)),
            views(fields@) == fs,
            m@ == member@,
            field_named(fs, member@, 0) == field_named(fs, member@, i as int),
        decreases fields@.len() - i,
    {
        proof {
            assert(fields@[i as int]@ == fs[i as int]);
        }
        let hit = match fields[i].name() {
            Some(n) => {
                let nc = chars_of(n);
                chars_eq(nc.as_slice(), m.as_slice())
            },
            None => false,
        };
        if hit {
            let ghost fi = fields@[i as int];
            let f = fields.remove(i);
            proof {
                assert(f == fi);
                assert(fi@ == fs[i as int]);
                assert(field_named(fs, member@, i as int) == Some(i as int));
                assert(opt_view(Some(f)) == Some(fs[i as int]));
            }
            return Some(f);
        }
        i = i + 1;
    }
    None
}

/// The declared type name of a message field: its type value when that is
/// a bare name whose first character is uppercase.
pub open spec fn message_type_v(field: Tree) -> Option<Seq<char>> {
    match first(upto(after(field.kids(), SyntaxKind::COLON), SyntaxKind::EQ), Sel::Type) {
        Some(Tree::Token(k, text, _)) => if text.len() > 0 && uppercase(text[0]) {
            Some(text)
        } else {
            None
        },
        _ => None,
    }
}

/// The message field's declared type name (`message: Msg = …`); `None`
/// when the field's value is missing, lowercase, or not a bare name.
pub fn message_type_name(field: &ActorField) -> (r: Option<String>)
    ensures
        match r {
            Some(s) => message_type_v(field@) == Some(s@),
            None => message_type_v(field@) is None,
        },
{
    match field.ty() {
        Some(TypeExpr::Name(name)) => {
            let text = chars_of(name.text());
            if text.len() > 0 && is_uppercase(text[0]) {
                Some(String::from_str(name.text()))
            } else {
                None
            }
        },
        Some(_) => None,
        None => None,
    }
}


// ── what may cross the tool wire ────────────────────────────────

/// A type that cannot cross the tool wire boundary.
#[derive(Debug)]
pub enum WireViolation {
    /// A function type: not serialisable.
    Function(Ty),
    /// An opaque capability type: minting one from a log would forge it.
    Capability(String),
}

/// The view of a [`WireViolation`].
pub enum WireViolationV {
    /// A function type.
    Function(TyV),
    /// An opaque capability type, by name.
    Capability(Seq<char>),
}

impl View for WireViolation {
    type V = WireViolationV;

    open spec fn view(&self) -> WireViolationV {
        match self {
            WireViolation::Function(t) => WireViolationV::Function(t@),
            WireViolation::Capability(n) => WireViolationV::Capability(n@),
        }
    }
}

/// Whether the violation `w` is found in `t` when declared types may be
/// looked through at most `n` deep. A declared type is looked through by
/// the field types of its declared constructors, instantiated at the
/// type's arguments; a type variable passes.
pub open spec fn violation_in(reg: RegistryV, t: TyV, n: nat, w: WireViolationV) -> bool
    decreases n, t, 1nat,
{
    match t {
        TyV::Var(_) => false,
        TyV::Fn(_, _, _) => w == WireViolationV::Function(t),
        TyV::Con(name, args) => (opaque_adt(reg, name) && w == WireViolationV::Capability(name))
            || violation_in_any(reg, args, n, w) || (n > 0 && reg.adts.contains_key(name) && exists|
            j: int,
        |
            0 <= j < reg.adts[name].ctors.len() && violation_in_any(
                reg,
                subst_all(field_tys(reg, #[trigger] reg.adts[name].ctors[j]), args),
                (n - 1) as nat,
                w,
            )),
        TyV::Tuple(ts) => violation_in_any(reg, ts, n, w),
        TyV::Record(fs) => violation_in_fields(reg, fs, n, w),
        TyV::Forall(_, b) => violation_in(reg, *b, n, w),
    }
}

/// Whether the violation `w` is found in one of `ts`.
pub open spec fn violation_in_any(reg: RegistryV, ts: Seq<TyV>, n: nat, w: WireViolationV) -> bool
    decreases n, ts, 0nat,
{
    exists|i: int| 0 <= i < ts.len() && violation_in(reg, #[trigger] ts[i], n, w)
}

/// Whether the violation `w` is found in one of the field types of `fs`.
pub open spec fn violation_in_fields(
    reg: RegistryV,
    fs: Seq<(Seq<char>, TyV)>,
    n: nat,
    w: WireViolationV,
) -> bool
    decreases n, fs, 0nat,
{
    exists|i: int| 0 <= i < fs.len() && violation_in(reg, #[trigger] fs[i].1, n, w)
}

/// Whether some violation is found in `t`, looking through declared types
/// as deep as need be.
pub open spec fn has_violation(reg: RegistryV, t: TyV) -> bool {
    exists|n: nat, w: WireViolationV| #[trigger] violation_in(reg, t, n, w)
}

/// Whether `t` holds no function and no opaque type on its own, every
/// declared type it names being left to `v`.
pub open spec fn wire_clean(reg: RegistryV, t: TyV, v: Set<Seq<char>>) -> bool
    decreases t, 1nat,
{
    match t {
        TyV::Var(_) => true,
        TyV::Fn(_, _, _) => false,
        TyV::Con(name, args) => !opaque_adt(reg, name) && wire_clean_all(reg, args, v) && (
        reg.adts.contains_key(name) ==> v.contains(name)),
        TyV::Tuple(ts) => wire_clean_all(reg, ts, v),
        TyV::Record(fs) => wire_clean_fields(reg, fs, v),
        TyV::Forall(_, b) => wire_clean(reg, *b, v),
    }
}

/// Whether each of `ts` is wire-clean with respect to `v`.
pub open spec fn wire_clean_all(reg: RegistryV, ts: Seq<TyV>, v: Set<Seq<char>>) -> bool
    decreases ts, 0nat,
{
    forall|i: int| 0 <= i < ts.len() ==> wire_clean(reg, #[trigger] ts[i], v)
}

/// Whether each field type of `fs` is wire-clean with respect to `v`.
pub open spec fn wire_clean_fields(reg: RegistryV, fs: Seq<(Seq<char>, TyV)>, v: Set<Seq<char>>) -> bool
    decreases fs, 0nat,
{
    forall|i: int| 0 <= i < fs.len() ==> wire_clean(reg, #[trigger] fs[i].1, v)
}

/// Whether every field of every constructor of `name` is wire-clean with
/// respect to `v`.
pub open spec fn wire_fields_clean(reg: RegistryV, name: Seq<char>, v: Set<Seq<char>>) -> bool {
    forall|j: int|
        0 <= j < reg.adts[name].ctors.len() ==> #[trigger] wire_clean_all(
            reg,
            field_tys(reg, reg.adts[name].ctors[j]),
            v,
        )
}

/// Whether `v1` extends `v0`, every declared type added having wire-clean
/// fields with respect to `v1`.
pub open spec fn wire_grown(reg: RegistryV, v0: Set<Seq<char>>, v1: Set<Seq<char>>) -> bool {
    &&& v0.subset_of(v1)
    &&& forall|x: Seq<char>|
        #[trigger] v1.contains(x) && !v0.contains(x) && reg.adts.contains_key(x) ==> wire_fields_clean(
            reg,
            x,
            v1,
        )
}

/// Substitution is taken element-wise.
pub proof fn lemma_subst_all(ts: Seq<TyV>, a: Seq<TyV>)
    ensures
        subst_all(ts, a).len() == ts.len(),
        forall|i: int| 0 <= i < ts.len() ==> #[trigger] subst_all(ts, a)[i] == subst(ts[i], a),
    decreases ts.len(),
{
    if ts.len() > 0 {
        lemma_subst_all(ts.drop_last(), a);
        assert forall|i: int| 0 <= i < ts.len() implies #[trigger] subst_all(ts, a)[i] == subst(ts[i], a) by {
            if i < ts.len() - 1 {
                assert(ts.drop_last()[i] == ts[i]);
            }
        }
    }
}

/// Substitution on field types is taken element-wise.
pub proof fn lemma_subst_fields(fs: Seq<(Seq<char>, TyV)>, a: Seq<TyV>)
    ensures
        subst_fields(fs, a).len() == fs.len(),
        forall|i: int| 0 <= i < fs.len() ==> #[trigger] subst_fields(fs, a)[i] == (fs[i].0, subst(fs[i].1, a)),
    decreases fs.len(),
{
    if fs.len() > 0 {
        lemma_subst_fields(fs.drop_last(), a);
        assert forall|i: int| 0 <= i < fs.len() implies #[trigger] subst_fields(fs, a)[i] == (fs[i].0, subst(fs[i].1, a)) by {
            if i < fs.len() - 1 {
                assert(fs.drop_last()[i] == fs[i]);
            }
        }
    }
}

/// Wire-cleanliness survives handing more names to the set.
pub proof fn lemma_wire_clean_mono(reg: RegistryV, t: TyV, v: Set<Seq<char>>, w: Set<Seq<char>>)
    requires
        wire_clean(reg, t, v),
        v.subset_of(w),
    ensures
        wire_clean(reg, t, w),
    decreases t, 1nat,
{
    match t {
        TyV::Con(_, args) => lemma_wire_clean_all_mono(reg, args, v, w),
        TyV::Tuple(ts) => lemma_wire_clean_all_mono(reg, ts, v, w),
        TyV::Record(fs) => lemma_wire_clean_fields_mono(reg, fs, v, w),
        TyV::Forall(_, b) => lemma_wire_clean_mono(reg, *b, v, w),
        _ => {},
    }
}

/// [`lemma_wire_clean_mono`] for each of `ts`.
pub proof fn lemma_wire_clean_all_mono(reg: RegistryV, ts: Seq<TyV>, v: Set<Seq<char>>, w: Set<Seq<char>>)
    requires
        wire_clean_all(reg, ts, v),
        v.subset_of(w),
    ensures
        wire_clean_all(reg, ts, w),
    decreases ts, 0nat,
{
    assert forall|i: int| 0 <= i < ts.len() implies wire_clean(reg, #[trigger] ts[i], w) by {
        lemma_wire_clean_mono(reg, ts[i], v, w);
    }
}

/// [`lemma_wire_clean_mono`] for each field type of `fs`.
pub proof fn lemma_wire_clean_fields_mono(
    reg: RegistryV,
    fs: Seq<(Seq<char>, TyV)>,
    v: Set<Seq<char>>,
    w: Set<Seq<char>>,
)
    requires
        wire_clean_fields(reg, fs, v),
        v.subset_of(w),
    ensures
        wire_clean_fields(reg, fs, w),
    decreases fs, 0nat,
{
    assert forall|i: int| 0 <= i < fs.len() implies wire_clean(reg, #[trigger] fs[i].1, w) by {
        lemma_wire_clean_mono(reg, fs[i].1, v, w);
    }
}

/// Growth composes.
proof fn lemma_wire_grown_trans(
    reg: RegistryV,
    a: Set<Seq<char>>,
    b: Set<Seq<char>>,
    c: Set<Seq<char>>,
)
    requires
        wire_grown(reg, a, b),
        wire_grown(reg, b, c),
    ensures
        wire_grown(reg, a, c),
{
    assert forall|x: Seq<char>|
        #[trigger] c.contains(x) && !a.contains(x) && reg.adts.contains_key(x) implies wire_fields_clean(
        reg,
        x,
        c,
    ) by {
        if b.contains(x) {
            assert forall|j: int| 0 <= j < reg.adts[x].ctors.len() implies #[trigger] wire_clean_all(
                reg,
                field_tys(reg, reg.adts[x].ctors[j]),
                c,
            ) by {
                assert(wire_clean_all(reg, field_tys(reg, reg.adts[x].ctors[j]), b));
                lemma_wire_clean_all_mono(reg, field_tys(reg, reg.adts[x].ctors[j]), b, c);
            }
        }
    }
}

/// A clean type stays clean when clean arguments are substituted into it.
pub proof fn lemma_wire_clean_subst(reg: RegistryV, t: TyV, a: Seq<TyV>, v: Set<Seq<char>>)
    requires
        wire_clean(reg, t, v),
        wire_clean_all(reg, a, v),
    ensures
        wire_clean(reg, subst(t, a), v),
    decreases t, 1nat,
{
    match t {
        TyV::Var(_) => {},
        TyV::Fn(_, _, _) => {},
        TyV::Con(_, ts) => lemma_wire_clean_subst_all(reg, ts, a, v),
        TyV::Tuple(ts) => lemma_wire_clean_subst_all(reg, ts, a, v),
        TyV::Record(fs) => lemma_wire_clean_subst_fields(reg, fs, a, v),
        TyV::Forall(_, b) => lemma_wire_clean_subst(reg, *b, a, v),
    }
}

/// [`lemma_wire_clean_subst`] for each of `ts`.
pub proof fn lemma_wire_clean_subst_all(reg: RegistryV, ts: Seq<TyV>, a: Seq<TyV>, v: Set<Seq<char>>)
    requires
        wire_clean_all(reg, ts, v),
        wire_clean_all(reg, a, v),
    ensures
        wire_clean_all(reg, subst_all(ts, a), v),
    decreases ts, 0nat,
{
    lemma_subst_all(ts, a);
    assert forall|i: int| 0 <= i < ts.len() implies wire_clean(reg, #[trigger] subst_all(ts, a)[i], v) by {
        lemma_wire_clean_subst(reg, ts[i], a, v);
    }
}

/// [`lemma_wire_clean_subst`] for each field type of `fs`.
pub proof fn lemma_wire_clean_subst_fields(
    reg: RegistryV,
    fs: Seq<(Seq<char>, TyV)>,
    a: Seq<TyV>,
    v: Set<Seq<char>>,
)
    requires
        wire_clean_fields(reg, fs, v),
        wire_clean_all(reg, a, v),
    ensures
        wire_clean_fields(reg, subst_fields(fs, a), v),
    decreases fs, 0nat,
{
    lemma_subst_fields(fs, a);
    assert forall|i: int| 0 <= i < fs.len() implies wire_clean(
        reg,
        #[trigger] subst_fields(fs, a)[i].1,
        v,
    ) by {
        lemma_wire_clean_subst(reg, fs[i].1, a, v);
    }
}

/// [`lemma_wire_clean_unsubst`] for each field type of `fs`.
pub proof fn lemma_wire_clean_unsubst_fields(
    reg: RegistryV,
    fs: Seq<(Seq<char>, TyV)>,
    a: Seq<TyV>,
    v: Set<Seq<char>>,
)
    requires
        wire_clean_fields(reg, subst_fields(fs, a), v),
    ensures
        wire_clean_fields(reg, fs, v),
    decreases fs, 0nat,
{
    lemma_subst_fields(fs, a);
    assert forall|i: int| 0 <= i < fs.len() implies wire_clean(reg, #[trigger] fs[i].1, v) by {
        assert(wire_clean(reg, subst_fields(fs, a)[i].1, v));
        lemma_wire_clean_unsubst(reg, fs[i].1, a, v);
    }
}

/// [`lemma_wire_clean_sound`] for each field type of `fs`.
pub proof fn lemma_wire_clean_fields_sound(
    reg: RegistryV,
    fs: Seq<(Seq<char>, TyV)>,
    v: Set<Seq<char>>,
    n: nat,
    w: WireViolationV,
)
    requires
        wire_clean_fields(reg, fs, v),
        forall|x: Seq<char>| #[trigger] v.contains(x) && reg.adts.contains_key(x) ==> wire_fields_clean(reg, x, v),
    ensures
        !violation_in_fields(reg, fs, n, w),
    decreases n, fs, 0nat,
{
    assert forall|i: int| 0 <= i < fs.len() implies !violation_in(reg, #[trigger] fs[i].1, n, w) by {
        lemma_wire_clean_sound(reg, fs[i].1, v, n, w);
    }
}

/// A type whose instance is clean is clean itself: substitution only
/// replaces variables, which are clean.
pub proof fn lemma_wire_clean_unsubst(reg: RegistryV, t: TyV, a: Seq<TyV>, v: Set<Seq<char>>)
    requires
        wire_clean(reg, subst(t, a), v),
    ensures
        wire_clean(reg, t, v),
    decreases t, 1nat,
{
    match t {
        TyV::Var(_) => {},
        TyV::Fn(_, _, _) => {},
        TyV::Con(_, ts) => lemma_wire_clean_unsubst_all(reg, ts, a, v),
        TyV::Tuple(ts) => lemma_wire_clean_unsubst_all(reg, ts, a, v),
        TyV::Record(fs) => lemma_wire_clean_unsubst_fields(reg, fs, a, v),
        TyV::Forall(_, b) => lemma_wire_clean_unsubst(reg, *b, a, v),
    }
}

/// [`lemma_wire_clean_unsubst`] for each of `ts`.
pub proof fn lemma_wire_clean_unsubst_all(reg: RegistryV, ts: Seq<TyV>, a: Seq<TyV>, v: Set<Seq<char>>)
    requires
        wire_clean_all(reg, subst_all(ts, a), v),
    ensures
        wire_clean_all(reg, ts, v),
    decreases ts, 0nat,
{
    lemma_subst_all(ts, a);
    assert forall|i: int| 0 <= i < ts.len() implies wire_clean(reg, #[trigger] ts[i], v) by {
        assert(wire_clean(reg, subst_all(ts, a)[i], v));
        lemma_wire_clean_unsubst(reg, ts[i], a, v);
    }
}

/// A wire-clean type, with every declared type of the set having
/// wire-clean fields, holds no violation however deep declared types are
/// looked through.
pub proof fn lemma_wire_clean_sound(reg: RegistryV, t: TyV, v: Set<Seq<char>>, n: nat, w: WireViolationV)
    requires
        wire_clean(reg, t, v),
        forall|x: Seq<char>| #[trigger] v.contains(x) && reg.adts.contains_key(x) ==> wire_fields_clean(reg, x, v),
    ensures
        !violation_in(reg, t, n, w),
    decreases n, t, 1nat,
{
    match t {
        TyV::Con(name, args) => {
            lemma_wire_clean_all_sound(reg, args, v, n, w);
            if n > 0 && reg.adts.contains_key(name) {
                assert(v.contains(name));
                assert forall|j: int| 0 <= j < reg.adts[name].ctors.len() implies !violation_in_any(
                    reg,
                    subst_all(field_tys(reg, #[trigger] reg.adts[name].ctors[j]), args),
                    (n - 1) as nat,
                    w,
                ) by {
                    assert(wire_clean_all(reg, field_tys(reg, reg.adts[name].ctors[j]), v));
                    lemma_wire_clean_subst_all(reg, field_tys(reg, reg.adts[name].ctors[j]), args, v);
                    lemma_wire_clean_all_sound(
                        reg,
                        subst_all(field_tys(reg, reg.adts[name].ctors[j]), args),
                        v,
                        (n - 1) as nat,
                        w,
                    );
                }
            }
        },
        TyV::Tuple(ts) => lemma_wire_clean_all_sound(reg, ts, v, n, w),
        TyV::Record(fs) => lemma_wire_clean_fields_sound(reg, fs, v, n, w),
        TyV::Forall(_, b) => lemma_wire_clean_sound(reg, *b, v, n, w),
        _ => {},
    }
}

/// [`lemma_wire_clean_sound`] for each of `ts`.
pub proof fn lemma_wire_clean_all_sound(
    reg: RegistryV,
    ts: Seq<TyV>,
    v: Set<Seq<char>>,
    n: nat,
    w: WireViolationV,
)
    requires
        wire_clean_all(reg, ts, v),
        forall|x: Seq<char>| #[trigger] v.contains(x) && reg.adts.contains_key(x) ==> wire_fields_clean(reg, x, v),
    ensures
        !violation_in_any(reg, ts, n, w),
    decreases n, ts, 0nat,
{
    assert forall|i: int| 0 <= i < ts.len() implies !violation_in(reg, #[trigger] ts[i], n, w) by {
        lemma_wire_clean_sound(reg, ts[i], v, n, w);
    }
}


/// The first wire-representability violation in `ty`, if any.
///
/// Walks the type structurally and through the constructor fields of
/// every declared type it applies, instantiated at the type's arguments,
/// so that a nested declaration cannot smuggle a function or capability
/// past the check. Each declared type is looked through once (the
/// arguments are walked at every application). Type variables pass: a
/// generic tool's instantiations are validated value by value on the wire.
pub fn wire_violation(registry: &Registry, ty: &Ty) -> (r: Option<WireViolation>)
    ensures
        r is None <==> !has_violation(registry@, ty@),
        r matches Some(w) ==> exists|n: nat| #[trigger] violation_in(registry@, ty@, n, w@),
{
    let mut visited: Vec<String> = Vec::new();
    let r = violation_within(registry, ty, &mut visited);
    proof {
        if r is None {
            let v = set_of(visited@);
            assert(set_of(Seq::<String>::empty()) =~= Set::<Seq<char>>::empty());
            assert forall|n: nat, w: WireViolationV| !#[trigger] violation_in(registry@, ty@, n, w) by {
                lemma_wire_clean_sound(registry@, ty@, v, n, w);
            }
        }
    }
    r
}

/// The walk behind [`wire_violation`]; `visited` holds the type names
/// already looked through.
fn violation_within(registry: &Registry, ty: &Ty, visited: &mut Vec<String>) -> (r: Option<
    WireViolation,
>)
    ensures
        set_of(old(visited)@).subset_of(set_of(final(visited)@)),
        r matches Some(w) ==> exists|n: nat| #[trigger] violation_in(registry@, ty@, n, w@),
        r is None ==> wire_clean(registry@, ty@, set_of(final(visited)@)) && wire_grown(
            registry@,
            set_of(old(visited)@),
            set_of(final(visited)@),
        ),
    decreases unvisited(registry@, set_of(old(visited)@)), ty, 1nat,
{
    proof {
        registry.lemma_finite();
    }
    let ghost reg = registry@;
    match ty {
        Ty::Var(_) => None,
        Ty::Fn(_, _, _) => {
            let r = WireViolation::Function(ty.clone());
            assert(violation_in(reg, ty@, 0, r@));
            Some(r)
        },
        Ty::Con(name, args) => {
            proof {
                lemma_tys_v(args@);
            }
            if registry.adt_is_opaque(name.as_str()) {
                let r = WireViolation::Capability(name.clone());
                assert(violation_in(reg, ty@, 0, r@));
                return Some(r);
            }
            let ghost v0 = set_of(visited@);
            if let Some(w) = violation_any(registry, args, visited) {
                let ghost n = choose|n: nat| #[trigger] violation_in_any(reg, tys_v(args@), n, w@);
                assert(violation_in(reg, ty@, n, w@));
                return Some(w);
            }
            let ghost v1 = set_of(visited@);
            if visited_has(visited, name.as_str()) {
                return None;
            }
            let ghost e1 = visited@;
            visited.push(name.clone());
            proof {
                assert(visited@ == e1.push(visited@.last()));
                lemma_set_of_push(e1, visited@.last());
                lemma_unvisited(reg, v0, set_of(visited@), name@);
            }
            let ghost v2 = set_of(visited@);
            let adt = registry.adt_constructors(name.as_str());
            if adt.is_none() {
                proof {
                    assert(wire_grown(reg, v1, v2));
                    lemma_wire_grown_trans(reg, v0, v1, v2);
                    lemma_wire_clean_all_mono(reg, tys_v(args@), v1, v2);
                }
                return None;
            }
            let cs = adt.unwrap();
            let mut j: usize = 0;
            while j < cs.len()
                invariant
                    j <= cs@.len(),
                    reg == registry@,
                    reg.adts.contains_key(name@),
                    reg.adts[name@].ctors == names_v(cs@),
                    reg.adts.dom().finite(),
                    v0 == set_of(old(visited)@),
                    v2 == v1.insert(name@),
                    !v1.contains(name@),
                    wire_grown(reg, v0, v1),
                    wire_clean_all(reg, tys_v(args@), v1),
                    ty@ == TyV::Con(name@, tys_v(args@)),
                    wire_grown(reg, v2, set_of(visited@)),
                    unvisited(reg, set_of(visited@)) < unvisited(reg, v0),
                    forall|k: int|
                        0 <= k < j ==> #[trigger] wire_clean_all(
                            reg,
                            field_tys(reg, names_v(cs@)[k]),
                            set_of(visited@),
                        ),
                decreases cs@.len() - j,
            {
                assert(names_v(cs@)[j as int] == cs@[j as int]@);
                let ghost vb = set_of(visited@);
                match registry.ctor(cs[j].as_str()) {
                    None => {
                        assert(field_tys(reg, names_v(cs@)[j as int]) =~= Seq::<TyV>::empty());
                    },
                    Some(info) => {
                        let fields = subst_tys(&info.fields, args);
                        if let Some(w) = violation_any(registry, &fields, visited) {
                            let ghost n = choose|n: nat| #[trigger] violation_in_any(
                                reg,
                                tys_v(fields@),
                                n,
                                w@,
                            );
                            assert(reg.adts[name@].ctors[j as int] == cs@[j as int]@);
                            assert(violation_in(reg, ty@, n + 1, w@));
                            return Some(w);
                        }
                        proof {
                            lemma_wire_clean_unsubst_all(
                                reg,
                                field_tys(reg, names_v(cs@)[j as int]),
                                tys_v(args@),
                                set_of(visited@),
                            );
                            lemma_wire_grown_trans(reg, v2, vb, set_of(visited@));
                            lemma_unvisited(reg, vb, set_of(visited@), name@);
                        }
                    },
                }
                proof {
                    assert forall|k: int| 0 <= k < j + 1 implies #[trigger] wire_clean_all(
                        reg,
                        field_tys(reg, names_v(cs@)[k]),
                        set_of(visited@),
                    ) by {
                        if k < j {
                            lemma_wire_clean_all_mono(
                                reg,
                                field_tys(reg, names_v(cs@)[k]),
                                vb,
                                set_of(visited@),
                            );
                        }
                    }
                }
                j = j + 1;
            }
            proof {
                let vf = set_of(visited@);
                assert(wire_fields_clean(reg, name@, vf));
                lemma_wire_clean_all_mono(reg, tys_v(args@), v1, vf);
                assert(wire_grown(reg, v1, vf));
                lemma_wire_grown_trans(reg, v0, v1, vf);
            }
            None
        },
        Ty::Tuple(ts) => {
            if let Some(w) = violation_any(registry, ts, visited) {
                let ghost n = choose|n: nat| #[trigger] violation_in_any(reg, tys_v(ts@), n, w@);
                assert(violation_in(reg, ty@, n, w@));
                return Some(w);
            }
            None
        },
        Ty::Record(fs) => {
            if let Some(w) = violation_fields(registry, fs, visited) {
                let ghost n = choose|n: nat| #[trigger] violation_in_fields(
                    reg,
                    fields_ty_v(fs@),
                    n,
                    w@,
                );
                assert(violation_in(reg, ty@, n, w@));
                return Some(w);
            }
            None
        },
        Ty::Forall(_, body) => {
            if let Some(w) = violation_within(registry, body, visited) {
                let ghost n = choose|n: nat| #[trigger] violation_in(reg, body@, n, w@);
                assert(violation_in(reg, ty@, n, w@));
                return Some(w);
            }
            None
        },
    }
}

/// [`violation_within`] over each of `tys`, stopping at the first
/// violation.
fn violation_any(registry: &Registry, tys: &Vec<Ty>, visited: &mut Vec<String>) -> (r: Option<
    WireViolation,
>)
    ensures
        set_of(old(visited)@).subset_of(set_of(final(visited)@)),
        r matches Some(w) ==> exists|n: nat| #[trigger] violation_in_any(registry@, tys_v(tys@), n, w@),
        r is None ==> wire_clean_all(registry@, tys_v(tys@), set_of(final(visited)@)) && wire_grown(
            registry@,
            set_of(old(visited)@),
            set_of(final(visited)@),
        ),
    decreases unvisited(registry@, set_of(old(visited)@)), tys, 0nat,
{
    proof {
        registry.lemma_finite();
        lemma_tys_v(tys@);
    }
    let ghost reg = registry@;
    let ghost v0 = set_of(visited@);
    let mut i: usize = 0;
    while i < tys.len()
        invariant
            i <= tys@.len(),
            reg == registry@,
            reg.adts.dom().finite(),
            tys_v(tys@).len() == tys@.len(),
            forall|k: int| 0 <= k < tys@.len() ==> #[trigger] tys_v(tys@)[k] == tys@[k]@,
            v0 == set_of(old(visited)@),
            wire_grown(reg, v0, set_of(visited@)),
            forall|k: int| 0 <= k < i ==> wire_clean(reg, #[trigger] tys_v(tys@)[k], set_of(visited@)),
        decreases tys@.len() - i,
    {
        let ghost vb = set_of(visited@);
        proof {
            lemma_unvisited(reg, v0, vb, Seq::empty());
        }
        if let Some(w) = violation_within(registry, &tys[i], visited) {
            let ghost n = choose|n: nat| #[trigger] violation_in(reg, tys@[i as int]@, n, w@);
            assert(violation_in(reg, tys_v(tys@)[i as int], n, w@));
            assert(violation_in_any(reg, tys_v(tys@), n, w@));
            return Some(w);
        }
        proof {
            lemma_wire_grown_trans(reg, v0, vb, set_of(visited@));
            assert forall|k: int| 0 <= k < i + 1 implies wire_clean(
                reg,
                #[trigger] tys_v(tys@)[k],
                set_of(visited@),
            ) by {
                if k < i {
                    lemma_wire_clean_mono(reg, tys_v(tys@)[k], vb, set_of(visited@));
                }
            }
        }
        i = i + 1;
    }
    None
}

/// [`violation_within`] over each field type of `fs`, stopping at the
/// first violation.
fn violation_fields(registry: &Registry, fs: &Vec<(String, Ty)>, visited: &mut Vec<String>) -> (r:
    Option<WireViolation>)
    ensures
        set_of(old(visited)@).subset_of(set_of(final(visited)@)),
        r matches Some(w) ==> exists|n: nat| #[trigger] violation_in_fields(registry@, fields_ty_v(fs@), n, w@),
        r is None ==> wire_clean_fields(registry@, fields_ty_v(fs@), set_of(final(visited)@)) && wire_grown(
            registry@,
            set_of(old(visited)@),
            set_of(final(visited)@),
        ),
    decreases unvisited(registry@, set_of(old(visited)@)), fs, 0nat,
{
    proof {
        registry.lemma_finite();
        lemma_fields_ty_v(fs@);
    }
    let ghost reg = registry@;
    let ghost v0 = set_of(visited@);
    let mut i: usize = 0;
    while i < fs.len()
        invariant
            i <= fs@.len(),
            reg == registry@,
            reg.adts.dom().finite(),
            fields_ty_v(fs@).len() == fs@.len(),
            forall|k: int| 0 <= k < fs@.len() ==> #[trigger] fields_ty_v(fs@)[k] == (fs@[k].0@, fs@[k].1@),
            v0 == set_of(old(visited)@),
            wire_grown(reg, v0, set_of(visited@)),
            forall|k: int| 0 <= k < i ==> wire_clean(reg, #[trigger] fields_ty_v(fs@)[k].1, set_of(visited@)),
        decreases fs@.len() - i,
    {
        let ghost vb = set_of(visited@);
        proof {
            lemma_unvisited(reg, v0, vb, Seq::empty());
        }
        if let Some(w) = violation_within(registry, &fs[i].1, visited) {
            let ghost n = choose|n: nat| #[trigger] violation_in(reg, fs@[i as int].1@, n, w@);
            assert(violation_in(reg, fields_ty_v(fs@)[i as int].1, n, w@));
            assert(violation_in_fields(reg, fields_ty_v(fs@), n, w@));
            return Some(w);
        }
        proof {
            lemma_wire_grown_trans(reg, v0, vb, set_of(visited@));
            assert forall|k: int| 0 <= k < i + 1 implies wire_clean(
                reg,
                #[trigger] fields_ty_v(fs@)[k].1,
                set_of(visited@),
            ) by {
                if k < i {
                    lemma_wire_clean_mono(reg, fields_ty_v(fs@)[k].1, vb, set_of(visited@));
                }
            }
        }
        i = i + 1;
    }
    None
}


// ── small rules of the checker ──────────────────────────────────

/// The operator token kind of a binary expression: its first
/// binary-operator token.
pub fn binop_kind(op: &BinOpExpr) -> (r: Option<SyntaxKind>)
    ensures
        r == match first(op@.kids(), Sel::Binop) {
            Some(t) => Some(t.kind()),
            None => None,
        },
{
    let n = op.syntax();
    proof {
        lemma_kids(n);
        assert(elems_tree(n.children@).skip(0) =~= n@.kids());
    }
    match find_sel(&n.children, 0, Sel::Binop) {
        Some(i) => match &n.children[i] {
            SyntaxElement::Token(t) => Some(t.kind),
            SyntaxElement::Node(c) => Some(c.kind),
        },
        None => None,
    }
}

/// The message for touching a constructor of the opaque type `owner`,
/// declared in `module`, outside that module; `verb` is the action.
pub open spec fn opaque_message(verb: Seq<char>, owner: Seq<char>, module: Seq<char>) -> Seq<char> {
    "cannot "@ + verb + " opaque type `"@ + owner + "` outside module `"@ + module + "`"@
}

/// The "outside its module" diagnostic for touching a foreign opaque
/// constructor `info`; `verb` is the action (`construct`/`destructure`).
/// `None` when `info` is transparent or owned by `current`. A module-less
/// owner (single-file checking) renders as the empty module name.
pub fn opaque_violation(info: &CtorInfo, current: Option<&ModuleName>, verb: &str) -> (r: Option<String>)
    ensures
        r is None <==> (!info.opaque || module_v(info.module) == match current {
            Some(m) => Some(m@),
            None => None::<Seq<char>>,
        }),
        r matches Some(m) ==> m@ == opaque_message(
            verb@,
            info.owner@,
            match info.module {
                Some(n) => n@,
                None => Seq::empty(),
            },
        ),
{
    if !info.opaque {
        return None;
    }
    let same = match (&info.module, current) {
        (Some(a), Some(b)) => crate::wire::replay::str_eq(a.as_str(), b.as_str()),
        (None, None) => true,
        _ => false,
    };
    if same {
        return None;
    }
    let mut m = String::new();
    m.append("cannot ");
    m.append(verb);
    m.append(" opaque type `");
    m.append(info.owner.as_str());
    m.append("` outside module `");
    if let Some(n) = &info.module {
        m.append(n.as_str());
    }
    m.append("`");
    proof {
        assert(m@ =~= opaque_message(
            verb@,
            info.owner@,
            match info.module {
                Some(n) => n@,
                None => Seq::empty(),
            },
        ));
    }
    Some(m)
}

/// Records `name`'s first definition at `span` in `spans`, or, when one
/// is recorded already, pushes a duplicate diagnostic (`code`, `message`)
/// related to the first occurrence.
pub fn note_duplicate(
    diags: &mut Vec<CheckDiagnostic>,
    spans: &mut Vec<(String, Span)>,
    code: CheckCode,
    name: &str,
    span: Span,
    message: String,
)
    ensures
        keyed(old(spans)@).contains_key(name@) ==> {
            &&& keyed(final(spans)@) == keyed(old(spans)@)
            &&& final(diags)@.len() == old(diags)@.len() + 1
            &&& final(diags)@.drop_last() == old(diags)@
            &&& final(diags)@.last().code == code
            &&& final(diags)@.last().severity == Severity::Error
            &&& final(diags)@.last().span == span
            &&& final(diags)@.last().message == message
            &&& final(diags)@.last().related@.len() == 1
            &&& final(diags)@.last().related@[0].span == keyed(old(spans)@)[name@]
            &&& final(diags)@.last().related@[0].message@ == "first defined here"@
        },
        !keyed(old(spans)@).contains_key(name@) ==> {
            &&& keyed(final(spans)@) == keyed(old(spans)@).insert(name@, span)
            &&& final(diags)@ == old(diags)@
        },
{
    match find_last(spans, name) {
        Some(k) => {
            proof {
                lemma_keyed_last(spans@, k as int, name@);
            }
            let first = spans[k].1;
            let d = CheckDiagnostic::error(code, span, message).with_related(
                first,
                String::from_str("first defined here"),
            );
            let ghost before = diags@;
            diags.push(d);
            proof {
                assert(diags@.drop_last() =~= before);
            }
        },
        None => {
            let key = String::from_str(name);
            proof {
                lemma_keyed_last(spans@, -1, name@);
                lemma_keyed_push(spans@, (key, span));
            }
            spans.push((key, span));
        },
    }
}

} // verus!
