//! The typed AST: a projection over the concrete syntax tree.
//!
//! Each node type is a thin newtype around a [`SyntaxNode`]; casting checks
//! the [`SyntaxKind`] and accessors walk the children. Atomic operands
//! (literals and bare names) are tokens, so [`Expr`] and [`TypeExpr`] hold
//! them as token variants. Every accessor states, over the tree view, which
//! children it returns: the first or all children a selector picks, the ones
//! after a keyword, or the children of a wrapper node.
use vstd::prelude::*;

use crate::select::{
    after, find_kind, find_sel, first, flat, is_decl_kind, is_literal_kind, is_pattern_kind, lemma_kids,
    first_text, lemma_pick_step, pick, select, selects, text_of, texts, upto, Sel,
};
use crate::syntax::{lemma_elems_tree, SyntaxElement, SyntaxKind, SyntaxNode, SyntaxToken, Tree};

verus! {

/// A typed view of a syntax element.
pub trait Projection: Sized + View<V = Tree> {
    /// Which children of a node project to this type.
    spec fn sel() -> Sel;

    /// The selector, at run time.
    fn selector() -> (r: Sel)
        ensures
            r == Self::sel(),
    ;

    /// Whether the value's variant agrees with the kind of its tree.
    spec fn wf(&self) -> bool;

    /// Projects `e` if the selector picks it.
    fn project(e: &SyntaxElement) -> (r: Option<Self>)
        ensures
            r is Some <==> selects(Self::sel(), e@),
            r matches Some(x) ==> x@ == e@ && x.wf(),
    ;
}

/// A typed view over a single kind of syntax node.
pub trait AstNode: Sized + View<V = Tree> {
    /// Which kinds cast to this type.
    spec fn kind_ok(kind: SyntaxKind) -> bool;

    /// Whether a node of `kind` can be cast to this type.
    fn can_cast(kind: SyntaxKind) -> (r: bool)
        ensures
            r == Self::kind_ok(kind),
    ;

    /// Wraps `syntax` if its kind matches; otherwise `None`.
    fn cast(syntax: SyntaxNode) -> (r: Option<Self>)
        ensures
            r is Some <==> Self::kind_ok(syntax.kind),
            r matches Some(x) ==> x@ == syntax@,
    ;

    /// The byte range of the underlying node.
    spec fn range(&self) -> (u32, u32);

    /// The underlying node.
    fn syntax(&self) -> (r: &SyntaxNode)
        ensures
            r@ == self@,
            (r.start, r.end) == self.range(),
    ;
}

/// The views of a sequence of projected values.
pub open spec fn views<N: View<V = Tree>>(s: Seq<N>) -> Seq<Tree> {
    Seq::new(s.len(), |i: int| s[i]@)
}

/// The view of an optional projected value.
pub open spec fn opt_view<N: View<V = Tree>>(r: Option<N>) -> Option<Tree> {
    match r {
        Some(x) => Some(x@),
        None => None,
    }
}

/// Whether every projected value is well formed.
pub open spec fn all_wf<N: Projection>(s: Seq<N>) -> bool {
    forall|i: int| 0 <= i < s.len() ==> (#[trigger] s[i]).wf()
}

/// Whether an optional projected value is well formed.
pub open spec fn opt_wf<N: Projection>(r: Option<N>) -> bool {
    r matches Some(x) ==> x.wf()
}

/// The views of a sequence of string slices.
pub open spec fn str_views(s: Seq<&str>) -> Seq<Seq<char>> {
    Seq::new(s.len(), |i: int| s[i]@)
}

/// The view of an optional string slice.
pub open spec fn opt_str(r: Option<&str>) -> Option<Seq<char>> {
    match r {
        Some(s) => Some(s@),
        None => None,
    }
}

/// `pick` distributes over concatenation.
pub proof fn lemma_pick_add(a: Seq<Tree>, b: Seq<Tree>, p: Sel)
    ensures
        pick(a + b, p) == pick(a, p) + pick(b, p),
    decreases b.len(),
{
    if b.len() == 0 {
        assert(a + b =~= a);
        assert(pick(a, p) + pick(b, p) =~= pick(a, p));
    } else {
        lemma_pick_add(a, b.drop_last(), p);
        assert((a + b).drop_last() =~= a + b.drop_last());
        assert((a + b).last() == b.last());
        if selects(p, b.last()) {
            assert(pick(a, p) + pick(b.drop_last(), p).push(b.last()) =~= (pick(a, p) + pick(
                b.drop_last(),
                p,
            )).push(b.last()));
        }
    }
}

/// The first `p` selects is the first element of `pick`.
pub proof fn lemma_first_pick(s: Seq<Tree>, p: Sel)
    ensures
        first(s, p) == if pick(s, p).len() > 0 {
            Some(pick(s, p)[0])
        } else {
            None
        },
    decreases s.len(),
{
    if s.len() > 0 {
        lemma_first_pick(s.drop_first(), p);
        lemma_pick_add(seq![s[0]], s.drop_first(), p);
        assert(seq![s[0]] + s.drop_first() =~= s);
        assert(seq![s[0]].drop_last() =~= Seq::<Tree>::empty());
        assert(seq![s[0]].last() == s[0]);
        assert(pick(Seq::<Tree>::empty(), p) =~= Seq::<Tree>::empty());
        if selects(p, s[0]) {
            assert(pick(seq![s[0]], p) =~= seq![s[0]]);
            assert(pick(s, p)[0] == s[0]);
        } else {
            assert(pick(seq![s[0]], p) =~= Seq::<Tree>::empty());
            assert(pick(s, p) =~= pick(s.drop_first(), p));
        }
    }
}

/// Projects every child in `[from, to)` that `N` selects.
fn project_range<N: Projection>(children: &Vec<SyntaxElement>, from: usize, to: usize) -> (r: Vec<N>)
    requires
        from <= to <= children@.len(),
    ensures
        views(r@) == pick(crate::syntax::elems_tree(children@).subrange(from as int, to as int), N::sel()),
        all_wf(r@),
{
    let ghost s = crate::syntax::elems_tree(children@);
    proof {
        lemma_elems_tree(children@);
    }
    let mut r: Vec<N> = Vec::new();
    let mut i = from;
    while i < to
        invariant
            from <= i <= to <= children@.len(),
            s == crate::syntax::elems_tree(children@),
            s.len() == children@.len(),
            forall|j: int| 0 <= j < s.len() ==> #[trigger] s[j] == children@[j]@,
            views(r@) == pick(s.subrange(from as int, i as int), N::sel()),
            all_wf(r@),
        decreases to - i,
    {
        let ghost before = r@;
        proof {
            lemma_pick_step(s.subrange(from as int, to as int), i - from, N::sel());
            assert(s.subrange(from as int, to as int).take(i - from) =~= s.subrange(
                from as int,
                i as int,
            ));
            assert(s.subrange(from as int, to as int).take(i - from + 1) =~= s.subrange(
                from as int,
                i + 1,
            ));
        }
        match N::project(&children[i]) {
            Some(x) => {
                r.push(x);
                assert(views(r@) =~= views(before).push(x@));
            },
            None => {},
        }
        i = i + 1;
    }
    r
}

/// The first child of `node` that `N` selects.
fn child<N: Projection>(node: &SyntaxNode) -> (r: Option<N>)
    ensures
        opt_view(r) == first(node@.kids(), N::sel()),
        opt_wf(r),
{
    proof {
        lemma_kids(node);
        assert(crate::syntax::elems_tree(node.children@).skip(0) =~= node@.kids());
    }
    match find_sel(&node.children, 0, N::selector()) {
        Some(i) => N::project(&node.children[i]),
        None => None,
    }
}

/// Every child of `node` that `N` selects, in order.
fn children<N: Projection>(node: &SyntaxNode) -> (r: Vec<N>)
    ensures
        views(r@) == pick(node@.kids(), N::sel()),
        all_wf(r@),
{
    proof {
        lemma_kids(node);
        assert(crate::syntax::elems_tree(node.children@).subrange(0, node.children@.len() as int)
            =~= node@.kids());
    }
    project_range(&node.children, 0, node.children.len())
}

/// The first child after the first child of kind `k` that `N` selects.
fn child_after<N: Projection>(node: &SyntaxNode, k: SyntaxKind) -> (r: Option<N>)
    ensures
        opt_view(r) == first(after(node@.kids(), k), N::sel()),
        opt_wf(r),
{
    proof {
        lemma_kids(node);
        assert(crate::syntax::elems_tree(node.children@).skip(0) =~= node@.kids());
    }
    let at = find_kind(&node.children, 0, k);
    if at < node.children.len() {
        match find_sel(&node.children, at + 1, N::selector()) {
            Some(i) => N::project(&node.children[i]),
            None => None,
        }
    } else {
        None
    }
}

/// Every child after the first child of kind `k` that `N` selects.
fn children_after<N: Projection>(node: &SyntaxNode, k: SyntaxKind) -> (r: Vec<N>)
    ensures
        views(r@) == pick(after(node@.kids(), k), N::sel()),
        all_wf(r@),
{
    proof {
        lemma_kids(node);
        assert(crate::syntax::elems_tree(node.children@).skip(0) =~= node@.kids());
    }
    let n = node.children.len();
    let at = find_kind(&node.children, 0, k);
    if at < n {
        proof {
            assert(crate::syntax::elems_tree(node.children@).subrange(at + 1, n as int)
                =~= crate::syntax::elems_tree(node.children@).skip(at + 1));
        }
        project_range(&node.children, at + 1, n)
    } else {
        Vec::new()
    }
}

/// The first child before the first child of kind `k` that `N` selects.
fn child_before<N: Projection>(node: &SyntaxNode, k: SyntaxKind) -> (r: Option<N>)
    ensures
        opt_view(r) == first(upto(node@.kids(), k), N::sel()),
        opt_wf(r),
{
    proof {
        lemma_kids(node);
        assert(crate::syntax::elems_tree(node.children@).skip(0) =~= node@.kids());
    }
    let at = find_kind(&node.children, 0, k);
    let all: Vec<N> = project_range(&node.children, 0, at);
    proof {
        lemma_first_pick(upto(node@.kids(), k), N::sel());
    }
    first_of(all)
}

/// The first element of `v`, if any.
fn first_of<N: Projection>(v: Vec<N>) -> (r: Option<N>)
    ensures
        opt_view(r) == if v@.len() > 0 {
            Some(v@[0]@)
        } else {
            None
        },
        all_wf(v@) ==> opt_wf(r),
{
    let mut v = v;
    if v.len() > 0 {
        Some(v.remove(0))
    } else {
        None
    }
}

/// The element of `v` at `i`, if any.
fn nth_of<N: Projection>(v: Vec<N>, i: usize) -> (r: Option<N>)
    ensures
        opt_view(r) == if i < v@.len() {
            Some(v@[i as int]@)
        } else {
            None
        },
        all_wf(v@) ==> opt_wf(r),
{
    let mut v = v;
    if i < v.len() {
        Some(v.remove(i))
    } else {
        None
    }
}


/// Whether `p` only ever selects tokens.
pub open spec fn token_sel(p: Sel) -> bool {
    p is Token || p is NonTrivia || p is Binop || p is Literal
}

/// The texts of every child token in `[from, to)` that `p` selects.
fn texts_range(children: &Vec<SyntaxElement>, from: usize, to: usize, p: Sel) -> (r: Vec<&str>)
    requires
        from <= to <= children@.len(),
        token_sel(p),
    ensures
        str_views(r@) == texts(pick(crate::syntax::elems_tree(children@).subrange(from as int, to as int), p)),
{
    let ghost s = crate::syntax::elems_tree(children@);
    proof {
        lemma_elems_tree(children@);
    }
    let mut r: Vec<&str> = Vec::new();
    let mut i = from;
    while i < to
        invariant
            from <= i <= to <= children@.len(),
            token_sel(p),
            s == crate::syntax::elems_tree(children@),
            s.len() == children@.len(),
            forall|j: int| 0 <= j < s.len() ==> #[trigger] s[j] == children@[j]@,
            str_views(r@) == texts(pick(s.subrange(from as int, i as int), p)),
        decreases to - i,
    {
        let ghost before = r@;
        proof {
            lemma_pick_step(s.subrange(from as int, to as int), i - from, p);
            assert(s.subrange(from as int, to as int).take(i - from) =~= s.subrange(
                from as int,
                i as int,
            ));
            assert(s.subrange(from as int, to as int).take(i - from + 1) =~= s.subrange(
                from as int,
                i + 1,
            ));
        }
        if select(p, &children[i]) {
            match &children[i] {
                SyntaxElement::Token(t) => {
                    assert(s[i as int] == children@[i as int]@);
                    assert(text_of(s[i as int]) == t.text@);
                    let txt = t.text.as_str();
                    r.push(txt);
                    proof {
                        let a = pick(s.subrange(from as int, i as int), p);
                        assert(texts(a.push(s[i as int])) =~= texts(a).push(text_of(s[i as int])));
                        assert(r@ == before.push(txt));
                        assert(str_views(before.push(txt)) =~= str_views(before).push(txt@));
                    }
                },
                SyntaxElement::Node(_) => {
                    assert(false);
                },
            }
        }
        i = i + 1;
    }
    r
}

/// The texts of every child token of `node` that `p` selects.
fn token_texts(node: &SyntaxNode, p: Sel) -> (r: Vec<&str>)
    requires
        token_sel(p),
    ensures
        str_views(r@) == texts(pick(node@.kids(), p)),
{
    proof {
        lemma_kids(node);
        assert(crate::syntax::elems_tree(node.children@).subrange(0, node.children@.len() as int)
            =~= node@.kids());
    }
    texts_range(&node.children, 0, node.children.len(), p)
}

/// The texts of every child token before the first child of kind `k` that
/// `p` selects.
fn token_texts_before(node: &SyntaxNode, k: SyntaxKind, p: Sel) -> (r: Vec<&str>)
    requires
        token_sel(p),
    ensures
        str_views(r@) == texts(pick(upto(node@.kids(), k), p)),
{
    proof {
        lemma_kids(node);
        assert(crate::syntax::elems_tree(node.children@).skip(0) =~= node@.kids());
    }
    let at = find_kind(&node.children, 0, k);
    texts_range(&node.children, 0, at, p)
}

/// The text of the first child token of `node` in `[from, ..)` that `p`
/// selects.
fn first_text_from(children: &Vec<SyntaxElement>, from: usize, p: Sel) -> (r: Option<&str>)
    requires
        from <= children@.len(),
        token_sel(p),
    ensures
        opt_str(r) == match first(crate::syntax::elems_tree(children@).skip(from as int), p) {
            Some(t) => Some(text_of(t)),
            None => None,
        },
{
    match find_sel(children, from, p) {
        Some(i) => match &children[i] {
            SyntaxElement::Token(t) => Some(t.text.as_str()),
            SyntaxElement::Node(_) => None,
        },
        None => None,
    }
}

/// The text of the first child token of `node` that `p` selects.
fn token_text(node: &SyntaxNode, p: Sel) -> (r: Option<&str>)
    requires
        token_sel(p),
    ensures
        opt_str(r) == crate::select::first_text(node@.kids(), p),
{
    proof {
        lemma_kids(node);
        assert(crate::syntax::elems_tree(node.children@).skip(0) =~= node@.kids());
    }
    first_text_from(&node.children, 0, p)
}

/// The text of the first child token after the first child of kind `k`
/// that `p` selects.
fn token_text_after(node: &SyntaxNode, k: SyntaxKind, p: Sel) -> (r: Option<&str>)
    requires
        token_sel(p),
    ensures
        opt_str(r) == crate::select::first_text(after(node@.kids(), k), p),
{
    proof {
        lemma_kids(node);
        assert(crate::syntax::elems_tree(node.children@).skip(0) =~= node@.kids());
    }
    let at = find_kind(&node.children, 0, k);
    if at < node.children.len() {
        first_text_from(&node.children, at + 1, p)
    } else {
        None
    }
}

/// The first child token of `node` of kind `k`.
fn token_of(node: &SyntaxNode, k: SyntaxKind) -> (r: Option<&SyntaxToken>)
    ensures
        match r {
            Some(t) => first(node@.kids(), Sel::Token(k)) == Some(t@),
            None => first(node@.kids(), Sel::Token(k)) is None,
        },
{
    proof {
        lemma_kids(node);
        assert(crate::syntax::elems_tree(node.children@).skip(0) =~= node@.kids());
    }
    match find_sel(&node.children, 0, Sel::Token(k)) {
        Some(i) => match &node.children[i] {
            SyntaxElement::Token(t) => Some(t),
            SyntaxElement::Node(_) => None,
        },
        None => None,
    }
}

/// Whether `node` has a child that `p` selects.
fn has_child(node: &SyntaxNode, p: Sel) -> (r: bool)
    ensures
        r == first(node@.kids(), p) is Some,
{
    proof {
        lemma_kids(node);
        assert(crate::syntax::elems_tree(node.children@).skip(0) =~= node@.kids());
    }
    find_sel(&node.children, 0, p).is_some()
}

/// The views of a concatenation are the concatenated views.
proof fn lemma_views_add<N: View<V = Tree>>(a: Seq<N>, b: Seq<N>)
    ensures
        views(a + b) == views(a) + views(b),
{
    assert(views(a + b) =~= views(a) + views(b));
}

/// Every child that `N` selects among the children of every child node of
/// kind `wrapper`, in order.
fn children_in<N: Projection>(node: &SyntaxNode, wrapper: SyntaxKind) -> (r: Vec<N>)
    ensures
        views(r@) == pick(flat(node@.kids(), wrapper), N::sel()),
        all_wf(r@),
{
    let ghost s = node@.kids();
    proof {
        lemma_kids(node);
    }
    let mut r: Vec<N> = Vec::new();
    let mut i: usize = 0;
    while i < node.children.len()
        invariant
            i <= node.children@.len(),
            s == node@.kids(),
            s.len() == node.children@.len(),
            forall|j: int| 0 <= j < s.len() ==> #[trigger] s[j] == node.children@[j]@,
            views(r@) == pick(flat(s.take(i as int), wrapper), N::sel()),
            all_wf(r@),
        decreases node.children@.len() - i,
    {
        let ghost before = r@;
        assert(s.take(i + 1).drop_last() =~= s.take(i as int));
        assert(s.take(i + 1).last() == s[i as int]);
        match &node.children[i] {
            SyntaxElement::Node(c) => {
                proof {
                    lemma_kids(c);
                }
                if c.kind == wrapper {
                    let mut more: Vec<N> = children::<N>(c);
                    let ghost m = more@;
                    r.append(&mut more);
                    proof {
                        lemma_views_add(before, m);
                        lemma_pick_add(flat(s.take(i as int), wrapper), c@.kids(), N::sel());
                        assert forall|j: int| 0 <= j < r@.len() implies (#[trigger] r@[j]).wf() by {
                            if j >= before.len() {
                                assert(r@[j] == m[j - before.len()]);
                            }
                        }
                    }
                } else {
                    assert(flat(s.take(i + 1), wrapper) == flat(s.take(i as int), wrapper));
                }
            },
            SyntaxElement::Token(_) => {
                assert(flat(s.take(i + 1), wrapper) == flat(s.take(i as int), wrapper));
            },
        }
        i = i + 1;
    }
    assert(s.take(i as int) =~= s);
    r
}

/// The texts of every token that `p` selects among the children of every
/// child node of kind `wrapper`, in order.
fn token_texts_in(node: &SyntaxNode, wrapper: SyntaxKind, p: Sel) -> (r: Vec<&str>)
    requires
        token_sel(p),
    ensures
        str_views(r@) == texts(pick(flat(node@.kids(), wrapper), p)),
{
    let ghost s = node@.kids();
    proof {
        lemma_kids(node);
    }
    let mut r: Vec<&str> = Vec::new();
    let mut i: usize = 0;
    while i < node.children.len()
        invariant
            i <= node.children@.len(),
            token_sel(p),
            s == node@.kids(),
            s.len() == node.children@.len(),
            forall|j: int| 0 <= j < s.len() ==> #[trigger] s[j] == node.children@[j]@,
            str_views(r@) == texts(pick(flat(s.take(i as int), wrapper), p)),
        decreases node.children@.len() - i,
    {
        let ghost before = r@;
        assert(s.take(i + 1).drop_last() =~= s.take(i as int));
        assert(s.take(i + 1).last() == s[i as int]);
        match &node.children[i] {
            SyntaxElement::Node(c) => {
                proof {
                    lemma_kids(c);
                }
                if c.kind == wrapper {
                    let mut more: Vec<&str> = token_texts(c, p);
                    let ghost m = more@;
                    r.append(&mut more);
                    proof {
                        lemma_pick_add(flat(s.take(i as int), wrapper), c@.kids(), p);
                        assert(str_views(r@) =~= str_views(before) + str_views(m));
                        assert(texts(pick(flat(s.take(i as int), wrapper), p) + pick(c@.kids(), p))
                            =~= texts(pick(flat(s.take(i as int), wrapper), p)) + texts(
                            pick(c@.kids(), p),
                        ));
                    }
                } else {
                    assert(flat(s.take(i + 1), wrapper) == flat(s.take(i as int), wrapper));
                }
            },
            SyntaxElement::Token(_) => {
                assert(flat(s.take(i + 1), wrapper) == flat(s.take(i as int), wrapper));
            },
        }
        i = i + 1;
    }
    assert(s.take(i as int) =~= s);
    r
}

/// The views of a sequence of tokens.
pub open spec fn tok_views(s: Seq<&SyntaxToken>) -> Seq<Tree> {
    Seq::new(s.len(), |i: int| s[i]@)
}

/// Every child token in `[from, to)` that `p` selects.
fn tokens_range(children: &Vec<SyntaxElement>, from: usize, to: usize, p: Sel) -> (r: Vec<&SyntaxToken>)
    requires
        from <= to <= children@.len(),
        token_sel(p),
    ensures
        tok_views(r@) == pick(crate::syntax::elems_tree(children@).subrange(from as int, to as int), p),
{
    let ghost s = crate::syntax::elems_tree(children@);
    proof {
        lemma_elems_tree(children@);
    }
    let mut r: Vec<&SyntaxToken> = Vec::new();
    let mut i = from;
    while i < to
        invariant
            from <= i <= to <= children@.len(),
            token_sel(p),
            s == crate::syntax::elems_tree(children@),
            s.len() == children@.len(),
            forall|j: int| 0 <= j < s.len() ==> #[trigger] s[j] == children@[j]@,
            tok_views(r@) == pick(s.subrange(from as int, i as int), p),
        decreases to - i,
    {
        let ghost before = r@;
        proof {
            lemma_pick_step(s.subrange(from as int, to as int), i - from, p);
            assert(s.subrange(from as int, to as int).take(i - from) =~= s.subrange(
                from as int,
                i as int,
            ));
            assert(s.subrange(from as int, to as int).take(i - from + 1) =~= s.subrange(
                from as int,
                i + 1,
            ));
        }
        if select(p, &children[i]) {
            match &children[i] {
                SyntaxElement::Token(t) => {
                    assert(s[i as int] == children@[i as int]@);
                    r.push(t);
                    proof {
                        assert(tok_views(r@) =~= tok_views(before).push(s[i as int]));
                    }
                },
                SyntaxElement::Node(_) => {
                    assert(false);
                },
            }
        }
        i = i + 1;
    }
    r
}

/// Every child token of `node` that `p` selects.
fn tokens_of(node: &SyntaxNode, p: Sel) -> (r: Vec<&SyntaxToken>)
    requires
        token_sel(p),
    ensures
        tok_views(r@) == pick(node@.kids(), p),
{
    proof {
        lemma_kids(node);
        assert(crate::syntax::elems_tree(node.children@).subrange(0, node.children@.len() as int)
            =~= node@.kids());
    }
    tokens_range(&node.children, 0, node.children.len(), p)
}

/// Every token that `p` selects among the children of the child nodes of
/// kind `wrapper`.
fn tokens_in(node: &SyntaxNode, wrapper: SyntaxKind, p: Sel) -> (r: Vec<&SyntaxToken>)
    requires
        token_sel(p),
    ensures
        tok_views(r@) == pick(flat(node@.kids(), wrapper), p),
{
    let ghost s = node@.kids();
    proof {
        lemma_kids(node);
    }
    let mut r: Vec<&SyntaxToken> = Vec::new();
    let mut i: usize = 0;
    while i < node.children.len()
        invariant
            i <= node.children@.len(),
            token_sel(p),
            s == node@.kids(),
            s.len() == node.children@.len(),
            forall|j: int| 0 <= j < s.len() ==> #[trigger] s[j] == node.children@[j]@,
            tok_views(r@) == pick(flat(s.take(i as int), wrapper), p),
        decreases node.children@.len() - i,
    {
        let ghost before = r@;
        assert(s.take(i + 1).drop_last() =~= s.take(i as int));
        assert(s.take(i + 1).last() == s[i as int]);
        match &node.children[i] {
            SyntaxElement::Node(c) => {
                proof {
                    lemma_kids(c);
                }
                if c.kind == wrapper {
                    let mut more: Vec<&SyntaxToken> = tokens_of(c, p);
                    let ghost m = more@;
                    r.append(&mut more);
                    proof {
                        lemma_pick_add(flat(s.take(i as int), wrapper), c@.kids(), p);
                        assert(tok_views(r@) =~= tok_views(before) + tok_views(m));
                    }
                } else {
                    assert(flat(s.take(i + 1), wrapper) == flat(s.take(i as int), wrapper));
                }
            },
            SyntaxElement::Token(_) => {
                assert(flat(s.take(i + 1), wrapper) == flat(s.take(i as int), wrapper));
            },
        }
        i = i + 1;
    }
    assert(s.take(i as int) =~= s);
    r
}

/// The element at `n`, if any.
pub open spec fn nth_view(s: Seq<Tree>, n: int) -> Option<Tree> {
    if 0 <= n < s.len() {
        Some(s[n])
    } else {
        None
    }
}

/// The first child `p` selects inside the first child node of kind
/// `wrapper`.
pub open spec fn first_in(s: Seq<Tree>, wrapper: SyntaxKind, p: Sel) -> Option<Tree> {
    match first(s, Sel::Node(wrapper)) {
        Some(w) => first(w.kids(), p),
        None => None,
    }
}

/// The elements after the first token whose text is `as`.
pub open spec fn after_as(s: Seq<Tree>) -> Seq<Tree>
    decreases s.len(),
{
    if s.len() == 0 {
        Seq::empty()
    } else if text_of(s[0]) == seq!['a', 's'] {
        s.drop_first()
    } else {
        after_as(s.drop_first())
    }
}

/// The text of the first element, if any.
pub open spec fn head_text(s: Seq<Tree>) -> Option<Seq<char>> {
    if s.len() > 0 {
        Some(text_of(s[0]))
    } else {
        None
    }
}

/// All but the last element; empty when there is none.
pub open spec fn all_but_last(s: Seq<Tree>) -> Seq<Tree> {
    if s.len() > 0 {
        s.drop_last()
    } else {
        s
    }
}

/// The last element, if any.
pub open spec fn last_view(s: Seq<Tree>) -> Option<Tree> {
    if s.len() > 0 {
        Some(s.last())
    } else {
        None
    }
}

/// The first child that `N` selects inside the first child node of kind
/// `wrapper`.
fn child_in<N: Projection>(node: &SyntaxNode, wrapper: SyntaxKind) -> (r: Option<N>)
    ensures
        opt_view(r) == first_in(node@.kids(), wrapper, N::sel()),
        opt_wf(r),
{
    proof {
        lemma_kids(node);
        assert(crate::syntax::elems_tree(node.children@).skip(0) =~= node@.kids());
    }
    match find_sel(&node.children, 0, Sel::Node(wrapper)) {
        Some(i) => match &node.children[i] {
            SyntaxElement::Node(c) => child::<N>(c),
            SyntaxElement::Token(_) => None,
        },
        None => None,
    }
}

/// The text of the first child token before the first child of kind `k`
/// that `p` selects.
fn token_text_before(node: &SyntaxNode, k: SyntaxKind, p: Sel) -> (r: Option<&str>)
    requires
        token_sel(p),
    ensures
        opt_str(r) == crate::select::first_text(upto(node@.kids(), k), p),
{
    let v = token_texts_before(node, k, p);
    proof {
        lemma_first_pick(upto(node@.kids(), k), p);
    }
    let ghost q = pick(upto(node@.kids(), k), p);
    assert(str_views(v@).len() == v@.len());
    assert(texts(q).len() == q.len());
    if v.len() > 0 {
        assert(v@[0]@ == str_views(v@)[0]);
        assert(texts(q)[0] == text_of(q[0]));
        Some(v[0])
    } else {
        None
    }
}

/// Whether `s` is exactly `as`.
fn is_as(s: &str) -> (r: bool)
    ensures
        r == (s@ == seq!['a', 's']),
{
    if s.unicode_len() != 2 {
        return false;
    }
    let a = s.get_char(0);
    let b = s.get_char(1);
    let r = a == 'a' && b == 's';
    proof {
        if r {
            assert(s@ =~= seq!['a', 's']);
        }
    }
    r
}

impl UseDecl {
    /// The local alias introduced by `as`, if any: the non-trivia token that
    /// follows the first non-trivia token spelled `as`.
    pub fn alias(&self) -> (r: Option<&str>)
        ensures
            opt_str(r) == head_text(after_as(pick(self@.kids(), Sel::NonTrivia))),
    {
        let toks = token_texts(&self.0, Sel::NonTrivia);
        let ghost p = pick(self@.kids(), Sel::NonTrivia);
        assert(str_views(toks@).len() == toks@.len());
        assert(texts(p).len() == p.len());
        assert(p.skip(0) =~= p);
        let mut i: usize = 0;
        while i < toks.len()
            invariant
                i <= toks@.len(),
                toks@.len() == p.len(),
                str_views(toks@) == texts(p),
                p == pick(self@.kids(), Sel::NonTrivia),
                after_as(p) == after_as(p.skip(i as int)),
            decreases toks@.len() - i,
        {
            assert(toks@[i as int]@ == str_views(toks@)[i as int]);
            assert(texts(p)[i as int] == text_of(p[i as int]));
            assert(p.skip(i as int)[0] == p[i as int]);
            assert(p.skip(i as int).drop_first() =~= p.skip(i + 1));
            if is_as(toks[i]) {
                if i + 1 < toks.len() {
                    assert(toks@[i + 1]@ == str_views(toks@)[i + 1]);
                    assert(texts(p)[i + 1] == text_of(p[i + 1]));
                    assert(p.skip(i + 1)[0] == p[i + 1]);
                    return Some(toks[i + 1]);
                } else {
                    return None;
                }
            }
            i = i + 1;
        }
        assert(p.skip(i as int).len() == 0);
        None
    }
}

impl ActorField {
    /// The field's type value (after `:`, before any `=`): the state type, or
    /// the message type name. `None` when the value is a function signature.
    pub fn ty(&self) -> (r: Option<TypeExpr>)
        ensures
            opt_view(r) == first(upto(after(self@.kids(), SyntaxKind::COLON), SyntaxKind::EQ), Sel::Type),
            opt_wf(r),
    {
        proof {
            lemma_kids(&self.0);
            assert(crate::syntax::elems_tree(self.0.children@).skip(0) =~= self@.kids());
        }
        let n = self.0.children.len();
        let at = find_kind(&self.0.children, 0, SyntaxKind::COLON);
        if at < n {
            let eq = find_kind(&self.0.children, at + 1, SyntaxKind::EQ);
            let v: Vec<TypeExpr> = project_range(&self.0.children, at + 1, eq);
            proof {
                lemma_first_pick(upto(after(self@.kids(), SyntaxKind::COLON), SyntaxKind::EQ), Sel::Type);
            }
            first_of(v)
        } else {
            proof {
                assert(upto(Seq::<Tree>::empty(), SyntaxKind::EQ) =~= Seq::<Tree>::empty());
            }
            None
        }
    }
}

impl SpawnExpr {
    /// The spawned actor's name token, for span-bearing diagnostics.
    pub fn actor_token(&self) -> (r: Option<&SyntaxToken>)
        ensures
            match r {
                Some(t) => first(self@.kids(), Sel::Token(SyntaxKind::IDENT)) == Some(t@),
                None => first(self@.kids(), Sel::Token(SyntaxKind::IDENT)) is None,
            },
    {
        token_of(&self.0, SyntaxKind::IDENT)
    }
}

impl FnType {
    /// The parameter types: every operand but the last.
    pub fn params(&self) -> (r: Vec<TypeExpr>)
        ensures
            views(r@) == all_but_last(pick(self@.kids(), Sel::Type)),
            all_wf(r@),
    {
        let mut all = children::<TypeExpr>(&self.0);
        let ghost before = all@;
        if all.len() > 0 {
            let _ = all.pop();
            assert(views(all@) =~= views(before).drop_last());
        }
        all
    }

    /// The result type: the final operand.
    pub fn return_type(&self) -> (r: Option<TypeExpr>)
        ensures
            opt_view(r) == last_view(pick(self@.kids(), Sel::Type)),
            opt_wf(r),
    {
        let mut all = children::<TypeExpr>(&self.0);
        let ghost before = all@;
        if all.len() > 0 {
            assert(views(before).last() == before.last()@);
        }
        all.pop()
    }
}

/// A literal operand (integer, float, or string token).
#[derive(Debug)]
pub struct Literal(SyntaxToken);

impl View for Literal {
    type V = Tree;

    closed spec fn view(&self) -> Tree {
        self.0@
    }
}

impl Projection for Literal {
    open spec fn sel() -> Sel {
        Sel::Literal
    }

    fn selector() -> (r: Sel) {
        Sel::Literal
    }

    open spec fn wf(&self) -> bool {
        self@ is Token && is_literal_kind(self@.kind())
    }

    fn project(e: &SyntaxElement) -> (r: Option<Self>) {
        match e {
            SyntaxElement::Token(t) => {
                if crate::select::is_literal(t.kind) {
                    Some(Literal(t.clone()))
                } else {
                    None
                }
            },
            SyntaxElement::Node(_) => None,
        }
    }
}

impl Literal {
    /// The literal's source text.
    pub fn text(&self) -> (r: &str)
        ensures
            r@ == text_of(self@),
    {
        self.0.text.as_str()
    }

    /// The kind of literal token.
    pub fn kind(&self) -> (r: SyntaxKind)
        ensures
            r == self@.kind(),
    {
        self.0.kind
    }

    /// The byte range of the underlying token.
    pub open spec fn range(&self) -> (u32, u32) {
        self@.range()
    }

    /// The underlying token.
    pub fn syntax(&self) -> (r: &SyntaxToken)
        ensures
            r@ == self@,
            (r.start, r.end) == self.range(),
    {
        &self.0
    }
}

/// A reference to a name used as an expression (a bare identifier).
#[derive(Debug)]
pub struct NameRef(SyntaxToken);

impl View for NameRef {
    type V = Tree;

    closed spec fn view(&self) -> Tree {
        self.0@
    }
}

impl Projection for NameRef {
    open spec fn sel() -> Sel {
        Sel::Token(SyntaxKind::IDENT)
    }

    fn selector() -> (r: Sel) {
        Sel::Token(SyntaxKind::IDENT)
    }

    open spec fn wf(&self) -> bool {
        self@ is Token && self@.kind() == SyntaxKind::IDENT
    }

    fn project(e: &SyntaxElement) -> (r: Option<Self>) {
        match e {
            SyntaxElement::Token(t) => {
                if t.kind == SyntaxKind::IDENT {
                    Some(NameRef(t.clone()))
                } else {
                    None
                }
            },
            SyntaxElement::Node(_) => None,
        }
    }
}

impl NameRef {
    /// The referenced name.
    pub fn text(&self) -> (r: &str)
        ensures
            r@ == text_of(self@),
    {
        self.0.text.as_str()
    }

    /// The byte range of the underlying token.
    pub open spec fn range(&self) -> (u32, u32) {
        self@.range()
    }

    /// The underlying token.
    pub fn syntax(&self) -> (r: &SyntaxToken)
        ensures
            r@ == self@,
            (r.start, r.end) == self.range(),
    {
        &self.0
    }
}

/// A bare type name: a named type (`Int`) or a type variable (`a`).
#[derive(Debug)]
pub struct NameType(SyntaxToken);

impl View for NameType {
    type V = Tree;

    closed spec fn view(&self) -> Tree {
        self.0@
    }
}

impl Projection for NameType {
    open spec fn sel() -> Sel {
        Sel::Token(SyntaxKind::IDENT)
    }

    fn selector() -> (r: Sel) {
        Sel::Token(SyntaxKind::IDENT)
    }

    open spec fn wf(&self) -> bool {
        self@ is Token && self@.kind() == SyntaxKind::IDENT
    }

    fn project(e: &SyntaxElement) -> (r: Option<Self>) {
        match e {
            SyntaxElement::Token(t) => {
                if t.kind == SyntaxKind::IDENT {
                    Some(NameType(t.clone()))
                } else {
                    None
                }
            },
            SyntaxElement::Node(_) => None,
        }
    }
}

impl NameType {
    /// The name's source text.
    pub fn text(&self) -> (r: &str)
        ensures
            r@ == text_of(self@),
    {
        self.0.text.as_str()
    }

    /// The byte range of the underlying token.
    pub open spec fn range(&self) -> (u32, u32) {
        self@.range()
    }

    /// The underlying token.
    pub fn syntax(&self) -> (r: &SyntaxToken)
        ensures
            r@ == self@,
            (r.start, r.end) == self.range(),
    {
        &self.0
    }
}

/// The root of a parsed source file.
#[derive(Debug)]
pub struct SourceFile(SyntaxNode);

impl View for SourceFile {
    type V = Tree;

    closed spec fn view(&self) -> Tree {
        self.0@
    }
}

impl Projection for SourceFile {
    open spec fn sel() -> Sel {
        Sel::Node(SyntaxKind::SOURCE_FILE)
    }

    fn selector() -> (r: Sel) {
        Sel::Node(SyntaxKind::SOURCE_FILE)
    }

    open spec fn wf(&self) -> bool {
        self@ is Node && self@.kind() == SyntaxKind::SOURCE_FILE
    }

    fn project(e: &SyntaxElement) -> (r: Option<Self>) {
        match e {
            SyntaxElement::Node(n) => {
                proof {
                    lemma_kids(n);
                }
                if n.kind == SyntaxKind::SOURCE_FILE {
                    Some(SourceFile(n.clone()))
                } else {
                    None
                }
            },
            SyntaxElement::Token(_) => None,
        }
    }
}

impl AstNode for SourceFile {
    open spec fn kind_ok(kind: SyntaxKind) -> bool {
        kind == SyntaxKind::SOURCE_FILE
    }

    fn can_cast(kind: SyntaxKind) -> (r: bool) {
        kind == SyntaxKind::SOURCE_FILE
    }

    fn cast(syntax: SyntaxNode) -> (r: Option<Self>) {
        if syntax.kind == SyntaxKind::SOURCE_FILE {
            Some(SourceFile(syntax))
        } else {
            None
        }
    }

    open spec fn range(&self) -> (u32, u32) {
        self@.range()
    }

    fn syntax(&self) -> (r: &SyntaxNode) {
        &self.0
    }
}

impl SourceFile {
    /// The leading `module` declaration, if present.
    pub fn module(&self) -> (r: Option<ModuleDecl>)
        ensures
            opt_view(r) == first(self@.kids(), Sel::Node(SyntaxKind::MODULE_DECL)),
            opt_wf(r),
    {
        child::<ModuleDecl>(&self.0)
    }

    /// All top-level declarations, in source order.
    pub fn declarations(&self) -> (r: Vec<Decl>)
        ensures
            views(r@) == pick(self@.kids(), Sel::Decl),
            all_wf(r@),
    {
        children::<Decl>(&self.0)
    }
}

/// A module declaration (`module Name`).
#[derive(Debug)]
pub struct ModuleDecl(SyntaxNode);

impl View for ModuleDecl {
    type V = Tree;

    closed spec fn view(&self) -> Tree {
        self.0@
    }
}

impl Projection for ModuleDecl {
    open spec fn sel() -> Sel {
        Sel::Node(SyntaxKind::MODULE_DECL)
    }

    fn selector() -> (r: Sel) {
        Sel::Node(SyntaxKind::MODULE_DECL)
    }

    open spec fn wf(&self) -> bool {
        self@ is Node && self@.kind() == SyntaxKind::MODULE_DECL
    }

    fn project(e: &SyntaxElement) -> (r: Option<Self>) {
        match e {
            SyntaxElement::Node(n) => {
                proof {
                    lemma_kids(n);
                }
                if n.kind == SyntaxKind::MODULE_DECL {
                    Some(ModuleDecl(n.clone()))
                } else {
                    None
                }
            },
            SyntaxElement::Token(_) => None,
        }
    }
}

impl AstNode for ModuleDecl {
    open spec fn kind_ok(kind: SyntaxKind) -> bool {
        kind == SyntaxKind::MODULE_DECL
    }

    fn can_cast(kind: SyntaxKind) -> (r: bool) {
        kind == SyntaxKind::MODULE_DECL
    }

    fn cast(syntax: SyntaxNode) -> (r: Option<Self>) {
        if syntax.kind == SyntaxKind::MODULE_DECL {
            Some(ModuleDecl(syntax))
        } else {
            None
        }
    }

    open spec fn range(&self) -> (u32, u32) {
        self@.range()
    }

    fn syntax(&self) -> (r: &SyntaxNode) {
        &self.0
    }
}

impl ModuleDecl {
    /// The module name.
    pub fn name(&self) -> (r: Option<&str>)
        ensures
            opt_str(r) == first_text(self@.kids(), Sel::Token(SyntaxKind::IDENT)),
    {
        token_text(&self.0, Sel::Token(SyntaxKind::IDENT))
    }
}

/// A use import (`use A.B`, `use M as N`, or `use M.{ a, b }`).
#[derive(Debug)]
pub struct UseDecl(SyntaxNode);

impl View for UseDecl {
    type V = Tree;

    closed spec fn view(&self) -> Tree {
        self.0@
    }
}

impl Projection for UseDecl {
    open spec fn sel() -> Sel {
        Sel::Node(SyntaxKind::USE_DECL)
    }

    fn selector() -> (r: Sel) {
        Sel::Node(SyntaxKind::USE_DECL)
    }

    open spec fn wf(&self) -> bool {
        self@ is Node && self@.kind() == SyntaxKind::USE_DECL
    }

    fn project(e: &SyntaxElement) -> (r: Option<Self>) {
        match e {
            SyntaxElement::Node(n) => {
                proof {
                    lemma_kids(n);
                }
                if n.kind == SyntaxKind::USE_DECL {
                    Some(UseDecl(n.clone()))
                } else {
                    None
                }
            },
            SyntaxElement::Token(_) => None,
        }
    }
}

impl AstNode for UseDecl {
    open spec fn kind_ok(kind: SyntaxKind) -> bool {
        kind == SyntaxKind::USE_DECL
    }

    fn can_cast(kind: SyntaxKind) -> (r: bool) {
        kind == SyntaxKind::USE_DECL
    }

    fn cast(syntax: SyntaxNode) -> (r: Option<Self>) {
        if syntax.kind == SyntaxKind::USE_DECL {
            Some(UseDecl(syntax))
        } else {
            None
        }
    }

    open spec fn range(&self) -> (u32, u32) {
        self@.range()
    }

    fn syntax(&self) -> (r: &SyntaxNode) {
        &self.0
    }
}

impl UseDecl {
    /// The imported path.
    pub fn path(&self) -> (r: Option<Path>)
        ensures
            opt_view(r) == first(self@.kids(), Sel::Node(SyntaxKind::PATH)),
            opt_wf(r),
    {
        child::<Path>(&self.0)
    }

    /// The member-name tokens of a selective group, in source order: the
    /// span-bearing form of [`UseDecl::selected`].
    pub fn selected_tokens(&self) -> (r: Vec<&SyntaxToken>)
        ensures
            tok_views(r@) == pick(flat(self@.kids(), SyntaxKind::USE_GROUP), Sel::Token(SyntaxKind::IDENT)),
    {
        tokens_in(&self.0, SyntaxKind::USE_GROUP, Sel::Token(SyntaxKind::IDENT))
    }

    /// The member names of a selective group (`.{ a, b }`), in source order. Empty for whole-module and aliased imports.
    pub fn selected(&self) -> (r: Vec<&str>)
        ensures
            str_views(r@) == texts(pick(flat(self@.kids(), SyntaxKind::USE_GROUP), Sel::Token(SyntaxKind::IDENT))),
    {
        token_texts_in(&self.0, SyntaxKind::USE_GROUP, Sel::Token(SyntaxKind::IDENT))
    }
}

/// A function declaration.
#[derive(Debug)]
pub struct FnDecl(SyntaxNode);

impl View for FnDecl {
    type V = Tree;

    closed spec fn view(&self) -> Tree {
        self.0@
    }
}

impl Projection for FnDecl {
    open spec fn sel() -> Sel {
        Sel::Node(SyntaxKind::FN_DECL)
    }

    fn selector() -> (r: Sel) {
        Sel::Node(SyntaxKind::FN_DECL)
    }

    open spec fn wf(&self) -> bool {
        self@ is Node && self@.kind() == SyntaxKind::FN_DECL
    }

    fn project(e: &SyntaxElement) -> (r: Option<Self>) {
        match e {
            SyntaxElement::Node(n) => {
                proof {
                    lemma_kids(n);
                }
                if n.kind == SyntaxKind::FN_DECL {
                    Some(FnDecl(n.clone()))
                } else {
                    None
                }
            },
            SyntaxElement::Token(_) => None,
        }
    }
}

impl AstNode for FnDecl {
    open spec fn kind_ok(kind: SyntaxKind) -> bool {
        kind == SyntaxKind::FN_DECL
    }

    fn can_cast(kind: SyntaxKind) -> (r: bool) {
        kind == SyntaxKind::FN_DECL
    }

    fn cast(syntax: SyntaxNode) -> (r: Option<Self>) {
        if syntax.kind == SyntaxKind::FN_DECL {
            Some(FnDecl(syntax))
        } else {
            None
        }
    }

    open spec fn range(&self) -> (u32, u32) {
        self@.range()
    }

    fn syntax(&self) -> (r: &SyntaxNode) {
        &self.0
    }
}

impl FnDecl {
    /// Whether the function is exported (`pub`).
    pub fn is_pub(&self) -> (r: bool)
        ensures
            r == first(self@.kids(), Sel::Node(SyntaxKind::VISIBILITY)) is Some,
    {
        has_child(&self.0, Sel::Node(SyntaxKind::VISIBILITY))
    }

    /// The function name.
    pub fn name(&self) -> (r: Option<&str>)
        ensures
            opt_str(r) == first_text(self@.kids(), Sel::Token(SyntaxKind::IDENT)),
    {
        token_text(&self.0, Sel::Token(SyntaxKind::IDENT))
    }

    /// The declared parameters, in order.
    pub fn params(&self) -> (r: Vec<Param>)
        ensures
            views(r@) == pick(flat(self@.kids(), SyntaxKind::PARAM_LIST), Sel::Node(SyntaxKind::PARAM)),
            all_wf(r@),
    {
        children_in::<Param>(&self.0, SyntaxKind::PARAM_LIST)
    }

    /// The declared return type (after `→`), if annotated.
    pub fn return_type(&self) -> (r: Option<TypeExpr>)
        ensures
            opt_view(r) == first_in(self@.kids(), SyntaxKind::RETURN_TYPE, Sel::Type),
            opt_wf(r),
    {
        child_in::<TypeExpr>(&self.0, SyntaxKind::RETURN_TYPE)
    }

    /// The body expression (after `=`).
    pub fn body(&self) -> (r: Option<Expr>)
        ensures
            opt_view(r) == first(after(self@.kids(), SyntaxKind::EQ), Sel::Expr),
            opt_wf(r),
    {
        child_after::<Expr>(&self.0, SyntaxKind::EQ)
    }

    /// The declared effect-row annotation (`! { … }`), if present.
    pub fn effect_ann(&self) -> (r: Option<EffectAnn>)
        ensures
            opt_view(r) == first(self@.kids(), Sel::Node(SyntaxKind::EFFECT_ANN)),
            opt_wf(r),
    {
        child::<EffectAnn>(&self.0)
    }
}

/// An algebraic data type declaration.
#[derive(Debug)]
pub struct TypeDecl(SyntaxNode);

impl View for TypeDecl {
    type V = Tree;

    closed spec fn view(&self) -> Tree {
        self.0@
    }
}

impl Projection for TypeDecl {
    open spec fn sel() -> Sel {
        Sel::Node(SyntaxKind::TYPE_DECL)
    }

    fn selector() -> (r: Sel) {
        Sel::Node(SyntaxKind::TYPE_DECL)
    }

    open spec fn wf(&self) -> bool {
        self@ is Node && self@.kind() == SyntaxKind::TYPE_DECL
    }

    fn project(e: &SyntaxElement) -> (r: Option<Self>) {
        match e {
            SyntaxElement::Node(n) => {
                proof {
                    lemma_kids(n);
                }
                if n.kind == SyntaxKind::TYPE_DECL {
                    Some(TypeDecl(n.clone()))
                } else {
                    None
                }
            },
            SyntaxElement::Token(_) => None,
        }
    }
}

impl AstNode for TypeDecl {
    open spec fn kind_ok(kind: SyntaxKind) -> bool {
        kind == SyntaxKind::TYPE_DECL
    }

    fn can_cast(kind: SyntaxKind) -> (r: bool) {
        kind == SyntaxKind::TYPE_DECL
    }

    fn cast(syntax: SyntaxNode) -> (r: Option<Self>) {
        if syntax.kind == SyntaxKind::TYPE_DECL {
            Some(TypeDecl(syntax))
        } else {
            None
        }
    }

    open spec fn range(&self) -> (u32, u32) {
        self@.range()
    }

    fn syntax(&self) -> (r: &SyntaxNode) {
        &self.0
    }
}

impl TypeDecl {
    /// Whether the type is exported (`pub`).
    pub fn is_pub(&self) -> (r: bool)
        ensures
            r == first(self@.kids(), Sel::Node(SyntaxKind::VISIBILITY)) is Some,
    {
        has_child(&self.0, Sel::Node(SyntaxKind::VISIBILITY))
    }

    /// Whether the type is opaque (`pub opaque type`).
    pub fn is_opaque(&self) -> (r: bool)
        ensures
            r == first(self@.kids(), Sel::Token(SyntaxKind::OPAQUE_KW)) is Some,
    {
        has_child(&self.0, Sel::Token(SyntaxKind::OPAQUE_KW))
    }

    /// The type name.
    pub fn name(&self) -> (r: Option<&str>)
        ensures
            opt_str(r) == first_text(self@.kids(), Sel::Token(SyntaxKind::IDENT)),
    {
        token_text(&self.0, Sel::Token(SyntaxKind::IDENT))
    }

    /// The type parameter names, in order.
    pub fn type_params(&self) -> (r: Vec<&str>)
        ensures
            str_views(r@) == texts(pick(flat(self@.kids(), SyntaxKind::TYPE_PARAMS), Sel::Token(SyntaxKind::IDENT))),
    {
        token_texts_in(&self.0, SyntaxKind::TYPE_PARAMS, Sel::Token(SyntaxKind::IDENT))
    }

    /// The constructors of the data type, in order.
    pub fn constructors(&self) -> (r: Vec<Constructor>)
        ensures
            views(r@) == pick(self@.kids(), Sel::Node(SyntaxKind::CONSTRUCTOR)),
            all_wf(r@),
    {
        children::<Constructor>(&self.0)
    }
}

/// An effect declaration (`effect Name<params>`).
#[derive(Debug)]
pub struct EffectDecl(SyntaxNode);

impl View for EffectDecl {
    type V = Tree;

    closed spec fn view(&self) -> Tree {
        self.0@
    }
}

impl Projection for EffectDecl {
    open spec fn sel() -> Sel {
        Sel::Node(SyntaxKind::EFFECT_DECL)
    }

    fn selector() -> (r: Sel) {
        Sel::Node(SyntaxKind::EFFECT_DECL)
    }

    open spec fn wf(&self) -> bool {
        self@ is Node && self@.kind() == SyntaxKind::EFFECT_DECL
    }

    fn project(e: &SyntaxElement) -> (r: Option<Self>) {
        match e {
            SyntaxElement::Node(n) => {
                proof {
                    lemma_kids(n);
                }
                if n.kind == SyntaxKind::EFFECT_DECL {
                    Some(EffectDecl(n.clone()))
                } else {
                    None
                }
            },
            SyntaxElement::Token(_) => None,
        }
    }
}

impl AstNode for EffectDecl {
    open spec fn kind_ok(kind: SyntaxKind) -> bool {
        kind == SyntaxKind::EFFECT_DECL
    }

    fn can_cast(kind: SyntaxKind) -> (r: bool) {
        kind == SyntaxKind::EFFECT_DECL
    }

    fn cast(syntax: SyntaxNode) -> (r: Option<Self>) {
        if syntax.kind == SyntaxKind::EFFECT_DECL {
            Some(EffectDecl(syntax))
        } else {
            None
        }
    }

    open spec fn range(&self) -> (u32, u32) {
        self@.range()
    }

    fn syntax(&self) -> (r: &SyntaxNode) {
        &self.0
    }
}

impl EffectDecl {
    /// Whether the effect is exported (`pub`).
    pub fn is_pub(&self) -> (r: bool)
        ensures
            r == first(self@.kids(), Sel::Node(SyntaxKind::VISIBILITY)) is Some,
    {
        has_child(&self.0, Sel::Node(SyntaxKind::VISIBILITY))
    }

    /// The effect name.
    pub fn name(&self) -> (r: Option<&str>)
        ensures
            opt_str(r) == first_text(self@.kids(), Sel::Token(SyntaxKind::IDENT)),
    {
        token_text(&self.0, Sel::Token(SyntaxKind::IDENT))
    }

    /// The type parameter names, in order.
    pub fn type_params(&self) -> (r: Vec<&str>)
        ensures
            str_views(r@) == texts(pick(flat(self@.kids(), SyntaxKind::TYPE_PARAMS), Sel::Token(SyntaxKind::IDENT))),
    {
        token_texts_in(&self.0, SyntaxKind::TYPE_PARAMS, Sel::Token(SyntaxKind::IDENT))
    }
}

/// A tool declaration (`tool Name : Input -> Output`).
#[derive(Debug)]
pub struct ToolDecl(SyntaxNode);

impl View for ToolDecl {
    type V = Tree;

    closed spec fn view(&self) -> Tree {
        self.0@
    }
}

impl Projection for ToolDecl {
    open spec fn sel() -> Sel {
        Sel::Node(SyntaxKind::TOOL_DECL)
    }

    fn selector() -> (r: Sel) {
        Sel::Node(SyntaxKind::TOOL_DECL)
    }

    open spec fn wf(&self) -> bool {
        self@ is Node && self@.kind() == SyntaxKind::TOOL_DECL
    }

    fn project(e: &SyntaxElement) -> (r: Option<Self>) {
        match e {
            SyntaxElement::Node(n) => {
                proof {
                    lemma_kids(n);
                }
                if n.kind == SyntaxKind::TOOL_DECL {
                    Some(ToolDecl(n.clone()))
                } else {
                    None
                }
            },
            SyntaxElement::Token(_) => None,
        }
    }
}

impl AstNode for ToolDecl {
    open spec fn kind_ok(kind: SyntaxKind) -> bool {
        kind == SyntaxKind::TOOL_DECL
    }

    fn can_cast(kind: SyntaxKind) -> (r: bool) {
        kind == SyntaxKind::TOOL_DECL
    }

    fn cast(syntax: SyntaxNode) -> (r: Option<Self>) {
        if syntax.kind == SyntaxKind::TOOL_DECL {
            Some(ToolDecl(syntax))
        } else {
            None
        }
    }

    open spec fn range(&self) -> (u32, u32) {
        self@.range()
    }

    fn syntax(&self) -> (r: &SyntaxNode) {
        &self.0
    }
}

impl ToolDecl {
    /// Whether the tool is exported (`pub`).
    pub fn is_pub(&self) -> (r: bool)
        ensures
            r == first(self@.kids(), Sel::Node(SyntaxKind::VISIBILITY)) is Some,
    {
        has_child(&self.0, Sel::Node(SyntaxKind::VISIBILITY))
    }

    /// The tool name.
    pub fn name(&self) -> (r: Option<&str>)
        ensures
            opt_str(r) == first_text(self@.kids(), Sel::Token(SyntaxKind::IDENT)),
    {
        token_text(&self.0, Sel::Token(SyntaxKind::IDENT))
    }

    /// The type parameter names, in order.
    pub fn type_params(&self) -> (r: Vec<&str>)
        ensures
            str_views(r@) == texts(pick(flat(self@.kids(), SyntaxKind::TYPE_PARAMS), Sel::Token(SyntaxKind::IDENT))),
    {
        token_texts_in(&self.0, SyntaxKind::TYPE_PARAMS, Sel::Token(SyntaxKind::IDENT))
    }

    /// The input (argument) type, between `:` and `→`.
    pub fn input(&self) -> (r: Option<TypeExpr>)
        ensures
            opt_view(r) == first(after(self@.kids(), SyntaxKind::COLON), Sel::Type),
            opt_wf(r),
    {
        child_after::<TypeExpr>(&self.0, SyntaxKind::COLON)
    }

    /// The output (result) type, after `→`.
    pub fn output(&self) -> (r: Option<TypeExpr>)
        ensures
            opt_view(r) == first(after(self@.kids(), SyntaxKind::ARROW), Sel::Type),
            opt_wf(r),
    {
        child_after::<TypeExpr>(&self.0, SyntaxKind::ARROW)
    }

    /// The trailing effect-row annotation (`! { … }`), if present.
    pub fn effect_ann(&self) -> (r: Option<EffectAnn>)
        ensures
            opt_view(r) == first(self@.kids(), Sel::Node(SyntaxKind::EFFECT_ANN)),
            opt_wf(r),
    {
        child::<EffectAnn>(&self.0)
    }
}

/// An extern function declaration (`extern fn name(params) -> Type`).
#[derive(Debug)]
pub struct ExternDecl(SyntaxNode);

impl View for ExternDecl {
    type V = Tree;

    closed spec fn view(&self) -> Tree {
        self.0@
    }
}

impl Projection for ExternDecl {
    open spec fn sel() -> Sel {
        Sel::Node(SyntaxKind::EXTERN_DECL)
    }

    fn selector() -> (r: Sel) {
        Sel::Node(SyntaxKind::EXTERN_DECL)
    }

    open spec fn wf(&self) -> bool {
        self@ is Node && self@.kind() == SyntaxKind::EXTERN_DECL
    }

    fn project(e: &SyntaxElement) -> (r: Option<Self>) {
        match e {
            SyntaxElement::Node(n) => {
                proof {
                    lemma_kids(n);
                }
                if n.kind == SyntaxKind::EXTERN_DECL {
                    Some(ExternDecl(n.clone()))
                } else {
                    None
                }
            },
            SyntaxElement::Token(_) => None,
        }
    }
}

impl AstNode for ExternDecl {
    open spec fn kind_ok(kind: SyntaxKind) -> bool {
        kind == SyntaxKind::EXTERN_DECL
    }

    fn can_cast(kind: SyntaxKind) -> (r: bool) {
        kind == SyntaxKind::EXTERN_DECL
    }

    fn cast(syntax: SyntaxNode) -> (r: Option<Self>) {
        if syntax.kind == SyntaxKind::EXTERN_DECL {
            Some(ExternDecl(syntax))
        } else {
            None
        }
    }

    open spec fn range(&self) -> (u32, u32) {
        self@.range()
    }

    fn syntax(&self) -> (r: &SyntaxNode) {
        &self.0
    }
}

impl ExternDecl {
    /// The function name.
    pub fn name(&self) -> (r: Option<&str>)
        ensures
            opt_str(r) == first_text(self@.kids(), Sel::Token(SyntaxKind::IDENT)),
    {
        token_text(&self.0, Sel::Token(SyntaxKind::IDENT))
    }

    /// The declared parameters, in order.
    pub fn params(&self) -> (r: Vec<Param>)
        ensures
            views(r@) == pick(flat(self@.kids(), SyntaxKind::PARAM_LIST), Sel::Node(SyntaxKind::PARAM)),
            all_wf(r@),
    {
        children_in::<Param>(&self.0, SyntaxKind::PARAM_LIST)
    }

    /// The declared return type (after `→`), if annotated.
    pub fn return_type(&self) -> (r: Option<TypeExpr>)
        ensures
            opt_view(r) == first_in(self@.kids(), SyntaxKind::RETURN_TYPE, Sel::Type),
            opt_wf(r),
    {
        child_in::<TypeExpr>(&self.0, SyntaxKind::RETURN_TYPE)
    }
}

/// An actor declaration (`actor Name { members } ! {row}`).
#[derive(Debug)]
pub struct ActorDecl(SyntaxNode);

impl View for ActorDecl {
    type V = Tree;

    closed spec fn view(&self) -> Tree {
        self.0@
    }
}

impl Projection for ActorDecl {
    open spec fn sel() -> Sel {
        Sel::Node(SyntaxKind::ACTOR_DECL)
    }

    fn selector() -> (r: Sel) {
        Sel::Node(SyntaxKind::ACTOR_DECL)
    }

    open spec fn wf(&self) -> bool {
        self@ is Node && self@.kind() == SyntaxKind::ACTOR_DECL
    }

    fn project(e: &SyntaxElement) -> (r: Option<Self>) {
        match e {
            SyntaxElement::Node(n) => {
                proof {
                    lemma_kids(n);
                }
                if n.kind == SyntaxKind::ACTOR_DECL {
                    Some(ActorDecl(n.clone()))
                } else {
                    None
                }
            },
            SyntaxElement::Token(_) => None,
        }
    }
}

impl AstNode for ActorDecl {
    open spec fn kind_ok(kind: SyntaxKind) -> bool {
        kind == SyntaxKind::ACTOR_DECL
    }

    fn can_cast(kind: SyntaxKind) -> (r: bool) {
        kind == SyntaxKind::ACTOR_DECL
    }

    fn cast(syntax: SyntaxNode) -> (r: Option<Self>) {
        if syntax.kind == SyntaxKind::ACTOR_DECL {
            Some(ActorDecl(syntax))
        } else {
            None
        }
    }

    open spec fn range(&self) -> (u32, u32) {
        self@.range()
    }

    fn syntax(&self) -> (r: &SyntaxNode) {
        &self.0
    }
}

impl ActorDecl {
    /// Whether the actor is exported (`pub`).
    pub fn is_pub(&self) -> (r: bool)
        ensures
            r == first(self@.kids(), Sel::Node(SyntaxKind::VISIBILITY)) is Some,
    {
        has_child(&self.0, Sel::Node(SyntaxKind::VISIBILITY))
    }

    /// The actor name.
    pub fn name(&self) -> (r: Option<&str>)
        ensures
            opt_str(r) == first_text(self@.kids(), Sel::Token(SyntaxKind::IDENT)),
    {
        token_text(&self.0, Sel::Token(SyntaxKind::IDENT))
    }

    /// The named body fields (`state`, `message`, `init`), in source order.
    pub fn fields(&self) -> (r: Vec<ActorField>)
        ensures
            views(r@) == pick(self@.kids(), Sel::Node(SyntaxKind::ACTOR_FIELD)),
            all_wf(r@),
    {
        children::<ActorField>(&self.0)
    }

    /// The `handle` clauses, in source order.
    pub fn handlers(&self) -> (r: Vec<ActorHandler>)
        ensures
            views(r@) == pick(self@.kids(), Sel::Node(SyntaxKind::ACTOR_HANDLER)),
            all_wf(r@),
    {
        children::<ActorHandler>(&self.0)
    }

    /// The trailing effect summary (`! { … }` after the body), if declared.
    pub fn effect_ann(&self) -> (r: Option<EffectAnn>)
        ensures
            opt_view(r) == first(self@.kids(), Sel::Node(SyntaxKind::EFFECT_ANN)),
            opt_wf(r),
    {
        child::<EffectAnn>(&self.0)
    }
}

/// A named actor body field (`name: value`).
#[derive(Debug)]
pub struct ActorField(SyntaxNode);

impl View for ActorField {
    type V = Tree;

    closed spec fn view(&self) -> Tree {
        self.0@
    }
}

impl Projection for ActorField {
    open spec fn sel() -> Sel {
        Sel::Node(SyntaxKind::ACTOR_FIELD)
    }

    fn selector() -> (r: Sel) {
        Sel::Node(SyntaxKind::ACTOR_FIELD)
    }

    open spec fn wf(&self) -> bool {
        self@ is Node && self@.kind() == SyntaxKind::ACTOR_FIELD
    }

    fn project(e: &SyntaxElement) -> (r: Option<Self>) {
        match e {
            SyntaxElement::Node(n) => {
                proof {
                    lemma_kids(n);
                }
                if n.kind == SyntaxKind::ACTOR_FIELD {
                    Some(ActorField(n.clone()))
                } else {
                    None
                }
            },
            SyntaxElement::Token(_) => None,
        }
    }
}

impl AstNode for ActorField {
    open spec fn kind_ok(kind: SyntaxKind) -> bool {
        kind == SyntaxKind::ACTOR_FIELD
    }

    fn can_cast(kind: SyntaxKind) -> (r: bool) {
        kind == SyntaxKind::ACTOR_FIELD
    }

    fn cast(syntax: SyntaxNode) -> (r: Option<Self>) {
        if syntax.kind == SyntaxKind::ACTOR_FIELD {
            Some(ActorField(syntax))
        } else {
            None
        }
    }

    open spec fn range(&self) -> (u32, u32) {
        self@.range()
    }

    fn syntax(&self) -> (r: &SyntaxNode) {
        &self.0
    }
}

impl ActorField {
    /// The field name (`state`, `message`, or `init`).
    pub fn name(&self) -> (r: Option<&str>)
        ensures
            opt_str(r) == first_text(self@.kids(), Sel::Token(SyntaxKind::IDENT)),
    {
        token_text(&self.0, Sel::Token(SyntaxKind::IDENT))
    }

    /// The function signature of an `init` field.
    pub fn fn_sig(&self) -> (r: Option<FnSig>)
        ensures
            opt_view(r) == first(self@.kids(), Sel::Node(SyntaxKind::FN_SIG)),
            opt_wf(r),
    {
        child::<FnSig>(&self.0)
    }

    /// The message constructors (after `=`), in source order.
    pub fn constructors(&self) -> (r: Vec<Constructor>)
        ensures
            views(r@) == pick(self@.kids(), Sel::Node(SyntaxKind::CONSTRUCTOR)),
            all_wf(r@),
    {
        children::<Constructor>(&self.0)
    }

    /// The body expression of an `init` field (after `=`).
    pub fn body(&self) -> (r: Option<Expr>)
        ensures
            opt_view(r) == first(after(self@.kids(), SyntaxKind::EQ), Sel::Expr),
            opt_wf(r),
    {
        child_after::<Expr>(&self.0, SyntaxKind::EQ)
    }
}

/// An actor message handler (`handle Pattern, State → Type ! { … } = body`).
#[derive(Debug)]
pub struct ActorHandler(SyntaxNode);

impl View for ActorHandler {
    type V = Tree;

    closed spec fn view(&self) -> Tree {
        self.0@
    }
}

impl Projection for ActorHandler {
    open spec fn sel() -> Sel {
        Sel::Node(SyntaxKind::ACTOR_HANDLER)
    }

    fn selector() -> (r: Sel) {
        Sel::Node(SyntaxKind::ACTOR_HANDLER)
    }

    open spec fn wf(&self) -> bool {
        self@ is Node && self@.kind() == SyntaxKind::ACTOR_HANDLER
    }

    fn project(e: &SyntaxElement) -> (r: Option<Self>) {
        match e {
            SyntaxElement::Node(n) => {
                proof {
                    lemma_kids(n);
                }
                if n.kind == SyntaxKind::ACTOR_HANDLER {
                    Some(ActorHandler(n.clone()))
                } else {
                    None
                }
            },
            SyntaxElement::Token(_) => None,
        }
    }
}

impl AstNode for ActorHandler {
    open spec fn kind_ok(kind: SyntaxKind) -> bool {
        kind == SyntaxKind::ACTOR_HANDLER
    }

    fn can_cast(kind: SyntaxKind) -> (r: bool) {
        kind == SyntaxKind::ACTOR_HANDLER
    }

    fn cast(syntax: SyntaxNode) -> (r: Option<Self>) {
        if syntax.kind == SyntaxKind::ACTOR_HANDLER {
            Some(ActorHandler(syntax))
        } else {
            None
        }
    }

    open spec fn range(&self) -> (u32, u32) {
        self@.range()
    }

    fn syntax(&self) -> (r: &SyntaxNode) {
        &self.0
    }
}

impl ActorHandler {
    /// The message pattern (a constructor of the actor's message type).
    pub fn message_pattern(&self) -> (r: Option<Pattern>)
        ensures
            opt_view(r) == nth_view(pick(self@.kids(), Sel::Pattern), 0),
            opt_wf(r),
    {
        nth_of(children::<Pattern>(&self.0), 0)
    }

    /// The current-state pattern (the second pattern).
    pub fn state_pattern(&self) -> (r: Option<Pattern>)
        ensures
            opt_view(r) == nth_view(pick(self@.kids(), Sel::Pattern), 1),
            opt_wf(r),
    {
        nth_of(children::<Pattern>(&self.0), 1)
    }

    /// The declared return type (after `→`), if annotated.
    pub fn return_type(&self) -> (r: Option<TypeExpr>)
        ensures
            opt_view(r) == first_in(self@.kids(), SyntaxKind::RETURN_TYPE, Sel::Type),
            opt_wf(r),
    {
        child_in::<TypeExpr>(&self.0, SyntaxKind::RETURN_TYPE)
    }

    /// The handler's effect-row annotation (`! { … }`), if present.
    pub fn effect_ann(&self) -> (r: Option<EffectAnn>)
        ensures
            opt_view(r) == first(self@.kids(), Sel::Node(SyntaxKind::EFFECT_ANN)),
            opt_wf(r),
    {
        child::<EffectAnn>(&self.0)
    }

    /// The body expression (after `=`).
    pub fn body(&self) -> (r: Option<Expr>)
        ensures
            opt_view(r) == first(after(self@.kids(), SyntaxKind::EQ), Sel::Expr),
            opt_wf(r),
    {
        child_after::<Expr>(&self.0, SyntaxKind::EQ)
    }
}

/// An unnamed function signature (`fn(params) → Ret ! { … }`), the value of an actor `init` field.
#[derive(Debug)]
pub struct FnSig(SyntaxNode);

impl View for FnSig {
    type V = Tree;

    closed spec fn view(&self) -> Tree {
        self.0@
    }
}

impl Projection for FnSig {
    open spec fn sel() -> Sel {
        Sel::Node(SyntaxKind::FN_SIG)
    }

    fn selector() -> (r: Sel) {
        Sel::Node(SyntaxKind::FN_SIG)
    }

    open spec fn wf(&self) -> bool {
        self@ is Node && self@.kind() == SyntaxKind::FN_SIG
    }

    fn project(e: &SyntaxElement) -> (r: Option<Self>) {
        match e {
            SyntaxElement::Node(n) => {
                proof {
                    lemma_kids(n);
                }
                if n.kind == SyntaxKind::FN_SIG {
                    Some(FnSig(n.clone()))
                } else {
                    None
                }
            },
            SyntaxElement::Token(_) => None,
        }
    }
}

impl AstNode for FnSig {
    open spec fn kind_ok(kind: SyntaxKind) -> bool {
        kind == SyntaxKind::FN_SIG
    }

    fn can_cast(kind: SyntaxKind) -> (r: bool) {
        kind == SyntaxKind::FN_SIG
    }

    fn cast(syntax: SyntaxNode) -> (r: Option<Self>) {
        if syntax.kind == SyntaxKind::FN_SIG {
            Some(FnSig(syntax))
        } else {
            None
        }
    }

    open spec fn range(&self) -> (u32, u32) {
        self@.range()
    }

    fn syntax(&self) -> (r: &SyntaxNode) {
        &self.0
    }
}

impl FnSig {
    /// The declared parameters, in order.
    pub fn params(&self) -> (r: Vec<Param>)
        ensures
            views(r@) == pick(flat(self@.kids(), SyntaxKind::PARAM_LIST), Sel::Node(SyntaxKind::PARAM)),
            all_wf(r@),
    {
        children_in::<Param>(&self.0, SyntaxKind::PARAM_LIST)
    }

    /// The declared return type (after `→`), if annotated.
    pub fn return_type(&self) -> (r: Option<TypeExpr>)
        ensures
            opt_view(r) == first_in(self@.kids(), SyntaxKind::RETURN_TYPE, Sel::Type),
            opt_wf(r),
    {
        child_in::<TypeExpr>(&self.0, SyntaxKind::RETURN_TYPE)
    }

    /// The declared effect-row annotation (`! { … }`), if present.
    pub fn effect_ann(&self) -> (r: Option<EffectAnn>)
        ensures
            opt_view(r) == first(self@.kids(), Sel::Node(SyntaxKind::EFFECT_ANN)),
            opt_wf(r),
    {
        child::<EffectAnn>(&self.0)
    }
}

/// A supervisor declaration (`supervisor Name { fields }`).
#[derive(Debug)]
pub struct SupervisorDecl(SyntaxNode);

impl View for SupervisorDecl {
    type V = Tree;

    closed spec fn view(&self) -> Tree {
        self.0@
    }
}

impl Projection for SupervisorDecl {
    open spec fn sel() -> Sel {
        Sel::Node(SyntaxKind::SUPERVISOR_DECL)
    }

    fn selector() -> (r: Sel) {
        Sel::Node(SyntaxKind::SUPERVISOR_DECL)
    }

    open spec fn wf(&self) -> bool {
        self@ is Node && self@.kind() == SyntaxKind::SUPERVISOR_DECL
    }

    fn project(e: &SyntaxElement) -> (r: Option<Self>) {
        match e {
            SyntaxElement::Node(n) => {
                proof {
                    lemma_kids(n);
                }
                if n.kind == SyntaxKind::SUPERVISOR_DECL {
                    Some(SupervisorDecl(n.clone()))
                } else {
                    None
                }
            },
            SyntaxElement::Token(_) => None,
        }
    }
}

impl AstNode for SupervisorDecl {
    open spec fn kind_ok(kind: SyntaxKind) -> bool {
        kind == SyntaxKind::SUPERVISOR_DECL
    }

    fn can_cast(kind: SyntaxKind) -> (r: bool) {
        kind == SyntaxKind::SUPERVISOR_DECL
    }

    fn cast(syntax: SyntaxNode) -> (r: Option<Self>) {
        if syntax.kind == SyntaxKind::SUPERVISOR_DECL {
            Some(SupervisorDecl(syntax))
        } else {
            None
        }
    }

    open spec fn range(&self) -> (u32, u32) {
        self@.range()
    }

    fn syntax(&self) -> (r: &SyntaxNode) {
        &self.0
    }
}

impl SupervisorDecl {
    /// Whether the supervisor is exported (`pub`).
    pub fn is_pub(&self) -> (r: bool)
        ensures
            r == first(self@.kids(), Sel::Node(SyntaxKind::VISIBILITY)) is Some,
    {
        has_child(&self.0, Sel::Node(SyntaxKind::VISIBILITY))
    }

    /// The supervisor name.
    pub fn name(&self) -> (r: Option<&str>)
        ensures
            opt_str(r) == first_text(self@.kids(), Sel::Token(SyntaxKind::IDENT)),
    {
        token_text(&self.0, Sel::Token(SyntaxKind::IDENT))
    }

    /// The body fields (`strategy`, `intensity`, `period`, `children`), in source order.
    pub fn fields(&self) -> (r: Vec<SupervisorField>)
        ensures
            views(r@) == pick(self@.kids(), Sel::Node(SyntaxKind::SUPERVISOR_FIELD)),
            all_wf(r@),
    {
        children::<SupervisorField>(&self.0)
    }
}

/// A supervisor body field (`name: value`).
#[derive(Debug)]
pub struct SupervisorField(SyntaxNode);

impl View for SupervisorField {
    type V = Tree;

    closed spec fn view(&self) -> Tree {
        self.0@
    }
}

impl Projection for SupervisorField {
    open spec fn sel() -> Sel {
        Sel::Node(SyntaxKind::SUPERVISOR_FIELD)
    }

    fn selector() -> (r: Sel) {
        Sel::Node(SyntaxKind::SUPERVISOR_FIELD)
    }

    open spec fn wf(&self) -> bool {
        self@ is Node && self@.kind() == SyntaxKind::SUPERVISOR_FIELD
    }

    fn project(e: &SyntaxElement) -> (r: Option<Self>) {
        match e {
            SyntaxElement::Node(n) => {
                proof {
                    lemma_kids(n);
                }
                if n.kind == SyntaxKind::SUPERVISOR_FIELD {
                    Some(SupervisorField(n.clone()))
                } else {
                    None
                }
            },
            SyntaxElement::Token(_) => None,
        }
    }
}

impl AstNode for SupervisorField {
    open spec fn kind_ok(kind: SyntaxKind) -> bool {
        kind == SyntaxKind::SUPERVISOR_FIELD
    }

    fn can_cast(kind: SyntaxKind) -> (r: bool) {
        kind == SyntaxKind::SUPERVISOR_FIELD
    }

    fn cast(syntax: SyntaxNode) -> (r: Option<Self>) {
        if syntax.kind == SyntaxKind::SUPERVISOR_FIELD {
            Some(SupervisorField(syntax))
        } else {
            None
        }
    }

    open spec fn range(&self) -> (u32, u32) {
        self@.range()
    }

    fn syntax(&self) -> (r: &SyntaxNode) {
        &self.0
    }
}

impl SupervisorField {
    /// The field name.
    pub fn name(&self) -> (r: Option<&str>)
        ensures
            opt_str(r) == first_text(self@.kids(), Sel::Token(SyntaxKind::IDENT)),
    {
        token_text(&self.0, Sel::Token(SyntaxKind::IDENT))
    }

    /// The field value (after `:`).
    pub fn value(&self) -> (r: Option<Expr>)
        ensures
            opt_view(r) == first(after(self@.kids(), SyntaxKind::COLON), Sel::Expr),
            opt_wf(r),
    {
        child_after::<Expr>(&self.0, SyntaxKind::COLON)
    }
}

/// A `let name [: Type] = value in body` expression.
#[derive(Debug)]
pub struct LetExpr(SyntaxNode);

impl View for LetExpr {
    type V = Tree;

    closed spec fn view(&self) -> Tree {
        self.0@
    }
}

impl Projection for LetExpr {
    open spec fn sel() -> Sel {
        Sel::Node(SyntaxKind::LET_EXPR)
    }

    fn selector() -> (r: Sel) {
        Sel::Node(SyntaxKind::LET_EXPR)
    }

    open spec fn wf(&self) -> bool {
        self@ is Node && self@.kind() == SyntaxKind::LET_EXPR
    }

    fn project(e: &SyntaxElement) -> (r: Option<Self>) {
        match e {
            SyntaxElement::Node(n) => {
                proof {
                    lemma_kids(n);
                }
                if n.kind == SyntaxKind::LET_EXPR {
                    Some(LetExpr(n.clone()))
                } else {
                    None
                }
            },
            SyntaxElement::Token(_) => None,
        }
    }
}

impl AstNode for LetExpr {
    open spec fn kind_ok(kind: SyntaxKind) -> bool {
        kind == SyntaxKind::LET_EXPR
    }

    fn can_cast(kind: SyntaxKind) -> (r: bool) {
        kind == SyntaxKind::LET_EXPR
    }

    fn cast(syntax: SyntaxNode) -> (r: Option<Self>) {
        if syntax.kind == SyntaxKind::LET_EXPR {
            Some(LetExpr(syntax))
        } else {
            None
        }
    }

    open spec fn range(&self) -> (u32, u32) {
        self@.range()
    }

    fn syntax(&self) -> (r: &SyntaxNode) {
        &self.0
    }
}

impl LetExpr {
    /// The bound name.
    pub fn name(&self) -> (r: Option<&str>)
        ensures
            opt_str(r) == first_text(self@.kids(), Sel::Token(SyntaxKind::IDENT)),
    {
        token_text(&self.0, Sel::Token(SyntaxKind::IDENT))
    }

    /// The type annotation (`: Type`), if present.
    pub fn annotation(&self) -> (r: Option<TypeExpr>)
        ensures
            opt_view(r) == first_in(self@.kids(), SyntaxKind::TYPE_ANN, Sel::Type),
            opt_wf(r),
    {
        child_in::<TypeExpr>(&self.0, SyntaxKind::TYPE_ANN)
    }

    /// The bound value (after `=`).
    pub fn value(&self) -> (r: Option<Expr>)
        ensures
            opt_view(r) == first(after(self@.kids(), SyntaxKind::EQ), Sel::Expr),
            opt_wf(r),
    {
        child_after::<Expr>(&self.0, SyntaxKind::EQ)
    }

    /// The body the binding is in scope for (after `in`).
    pub fn body(&self) -> (r: Option<Expr>)
        ensures
            opt_view(r) == first(after(self@.kids(), SyntaxKind::IN_KW), Sel::Expr),
            opt_wf(r),
    {
        child_after::<Expr>(&self.0, SyntaxKind::IN_KW)
    }
}

/// A lambda expression (`λx y → body`).
#[derive(Debug)]
pub struct LambdaExpr(SyntaxNode);

impl View for LambdaExpr {
    type V = Tree;

    closed spec fn view(&self) -> Tree {
        self.0@
    }
}

impl Projection for LambdaExpr {
    open spec fn sel() -> Sel {
        Sel::Node(SyntaxKind::LAMBDA_EXPR)
    }

    fn selector() -> (r: Sel) {
        Sel::Node(SyntaxKind::LAMBDA_EXPR)
    }

    open spec fn wf(&self) -> bool {
        self@ is Node && self@.kind() == SyntaxKind::LAMBDA_EXPR
    }

    fn project(e: &SyntaxElement) -> (r: Option<Self>) {
        match e {
            SyntaxElement::Node(n) => {
                proof {
                    lemma_kids(n);
                }
                if n.kind == SyntaxKind::LAMBDA_EXPR {
                    Some(LambdaExpr(n.clone()))
                } else {
                    None
                }
            },
            SyntaxElement::Token(_) => None,
        }
    }
}

impl AstNode for LambdaExpr {
    open spec fn kind_ok(kind: SyntaxKind) -> bool {
        kind == SyntaxKind::LAMBDA_EXPR
    }

    fn can_cast(kind: SyntaxKind) -> (r: bool) {
        kind == SyntaxKind::LAMBDA_EXPR
    }

    fn cast(syntax: SyntaxNode) -> (r: Option<Self>) {
        if syntax.kind == SyntaxKind::LAMBDA_EXPR {
            Some(LambdaExpr(syntax))
        } else {
            None
        }
    }

    open spec fn range(&self) -> (u32, u32) {
        self@.range()
    }

    fn syntax(&self) -> (r: &SyntaxNode) {
        &self.0
    }
}

impl LambdaExpr {
    /// The parameter names, in order.
    pub fn param_names(&self) -> (r: Vec<&str>)
        ensures
            str_views(r@) == texts(pick(upto(self@.kids(), SyntaxKind::ARROW), Sel::Token(SyntaxKind::IDENT))),
    {
        token_texts_before(&self.0, SyntaxKind::ARROW, Sel::Token(SyntaxKind::IDENT))
    }

    /// The body expression (after `→`).
    pub fn body(&self) -> (r: Option<Expr>)
        ensures
            opt_view(r) == first(after(self@.kids(), SyntaxKind::ARROW), Sel::Expr),
            opt_wf(r),
    {
        child_after::<Expr>(&self.0, SyntaxKind::ARROW)
    }
}

/// An `if cond then a else b` expression.
#[derive(Debug)]
pub struct IfExpr(SyntaxNode);

impl View for IfExpr {
    type V = Tree;

    closed spec fn view(&self) -> Tree {
        self.0@
    }
}

impl Projection for IfExpr {
    open spec fn sel() -> Sel {
        Sel::Node(SyntaxKind::IF_EXPR)
    }

    fn selector() -> (r: Sel) {
        Sel::Node(SyntaxKind::IF_EXPR)
    }

    open spec fn wf(&self) -> bool {
        self@ is Node && self@.kind() == SyntaxKind::IF_EXPR
    }

    fn project(e: &SyntaxElement) -> (r: Option<Self>) {
        match e {
            SyntaxElement::Node(n) => {
                proof {
                    lemma_kids(n);
                }
                if n.kind == SyntaxKind::IF_EXPR {
                    Some(IfExpr(n.clone()))
                } else {
                    None
                }
            },
            SyntaxElement::Token(_) => None,
        }
    }
}

impl AstNode for IfExpr {
    open spec fn kind_ok(kind: SyntaxKind) -> bool {
        kind == SyntaxKind::IF_EXPR
    }

    fn can_cast(kind: SyntaxKind) -> (r: bool) {
        kind == SyntaxKind::IF_EXPR
    }

    fn cast(syntax: SyntaxNode) -> (r: Option<Self>) {
        if syntax.kind == SyntaxKind::IF_EXPR {
            Some(IfExpr(syntax))
        } else {
            None
        }
    }

    open spec fn range(&self) -> (u32, u32) {
        self@.range()
    }

    fn syntax(&self) -> (r: &SyntaxNode) {
        &self.0
    }
}

impl IfExpr {
    /// The condition (after `if`).
    pub fn condition(&self) -> (r: Option<Expr>)
        ensures
            opt_view(r) == first(after(self@.kids(), SyntaxKind::IF_KW), Sel::Expr),
            opt_wf(r),
    {
        child_after::<Expr>(&self.0, SyntaxKind::IF_KW)
    }

    /// The consequent (after `then`).
    pub fn then_branch(&self) -> (r: Option<Expr>)
        ensures
            opt_view(r) == first(after(self@.kids(), SyntaxKind::THEN_KW), Sel::Expr),
            opt_wf(r),
    {
        child_after::<Expr>(&self.0, SyntaxKind::THEN_KW)
    }

    /// The alternative (after `else`).
    pub fn else_branch(&self) -> (r: Option<Expr>)
        ensures
            opt_view(r) == first(after(self@.kids(), SyntaxKind::ELSE_KW), Sel::Expr),
            opt_wf(r),
    {
        child_after::<Expr>(&self.0, SyntaxKind::ELSE_KW)
    }
}

/// A `match scrutinee { arms }` expression.
#[derive(Debug)]
pub struct MatchExpr(SyntaxNode);

impl View for MatchExpr {
    type V = Tree;

    closed spec fn view(&self) -> Tree {
        self.0@
    }
}

impl Projection for MatchExpr {
    open spec fn sel() -> Sel {
        Sel::Node(SyntaxKind::MATCH_EXPR)
    }

    fn selector() -> (r: Sel) {
        Sel::Node(SyntaxKind::MATCH_EXPR)
    }

    open spec fn wf(&self) -> bool {
        self@ is Node && self@.kind() == SyntaxKind::MATCH_EXPR
    }

    fn project(e: &SyntaxElement) -> (r: Option<Self>) {
        match e {
            SyntaxElement::Node(n) => {
                proof {
                    lemma_kids(n);
                }
                if n.kind == SyntaxKind::MATCH_EXPR {
                    Some(MatchExpr(n.clone()))
                } else {
                    None
                }
            },
            SyntaxElement::Token(_) => None,
        }
    }
}

impl AstNode for MatchExpr {
    open spec fn kind_ok(kind: SyntaxKind) -> bool {
        kind == SyntaxKind::MATCH_EXPR
    }

    fn can_cast(kind: SyntaxKind) -> (r: bool) {
        kind == SyntaxKind::MATCH_EXPR
    }

    fn cast(syntax: SyntaxNode) -> (r: Option<Self>) {
        if syntax.kind == SyntaxKind::MATCH_EXPR {
            Some(MatchExpr(syntax))
        } else {
            None
        }
    }

    open spec fn range(&self) -> (u32, u32) {
        self@.range()
    }

    fn syntax(&self) -> (r: &SyntaxNode) {
        &self.0
    }
}

impl MatchExpr {
    /// The scrutinee (between `match` and `{`).
    pub fn scrutinee(&self) -> (r: Option<Expr>)
        ensures
            opt_view(r) == first(after(self@.kids(), SyntaxKind::MATCH_KW), Sel::Expr),
            opt_wf(r),
    {
        child_after::<Expr>(&self.0, SyntaxKind::MATCH_KW)
    }

    /// The match arms, in order.
    pub fn arms(&self) -> (r: Vec<MatchArm>)
        ensures
            views(r@) == pick(self@.kids(), Sel::Node(SyntaxKind::MATCH_ARM)),
            all_wf(r@),
    {
        children::<MatchArm>(&self.0)
    }
}

/// A `handle { arms } in body` expression.
#[derive(Debug)]
pub struct HandleBlock(SyntaxNode);

impl View for HandleBlock {
    type V = Tree;

    closed spec fn view(&self) -> Tree {
        self.0@
    }
}

impl Projection for HandleBlock {
    open spec fn sel() -> Sel {
        Sel::Node(SyntaxKind::HANDLE_EXPR)
    }

    fn selector() -> (r: Sel) {
        Sel::Node(SyntaxKind::HANDLE_EXPR)
    }

    open spec fn wf(&self) -> bool {
        self@ is Node && self@.kind() == SyntaxKind::HANDLE_EXPR
    }

    fn project(e: &SyntaxElement) -> (r: Option<Self>) {
        match e {
            SyntaxElement::Node(n) => {
                proof {
                    lemma_kids(n);
                }
                if n.kind == SyntaxKind::HANDLE_EXPR {
                    Some(HandleBlock(n.clone()))
                } else {
                    None
                }
            },
            SyntaxElement::Token(_) => None,
        }
    }
}

impl AstNode for HandleBlock {
    open spec fn kind_ok(kind: SyntaxKind) -> bool {
        kind == SyntaxKind::HANDLE_EXPR
    }

    fn can_cast(kind: SyntaxKind) -> (r: bool) {
        kind == SyntaxKind::HANDLE_EXPR
    }

    fn cast(syntax: SyntaxNode) -> (r: Option<Self>) {
        if syntax.kind == SyntaxKind::HANDLE_EXPR {
            Some(HandleBlock(syntax))
        } else {
            None
        }
    }

    open spec fn range(&self) -> (u32, u32) {
        self@.range()
    }

    fn syntax(&self) -> (r: &SyntaxNode) {
        &self.0
    }
}

impl HandleBlock {
    /// The effect-handler arms, in order.
    pub fn arms(&self) -> (r: Vec<HandleArm>)
        ensures
            views(r@) == pick(self@.kids(), Sel::Node(SyntaxKind::HANDLE_ARM)),
            all_wf(r@),
    {
        children::<HandleArm>(&self.0)
    }

    /// The handled body (after `in`).
    pub fn body(&self) -> (r: Option<Expr>)
        ensures
            opt_view(r) == first(after(self@.kids(), SyntaxKind::IN_KW), Sel::Expr),
            opt_wf(r),
    {
        child_after::<Expr>(&self.0, SyntaxKind::IN_KW)
    }
}

/// A `spawn(Actor, args…)` expression.
#[derive(Debug)]
pub struct SpawnExpr(SyntaxNode);

impl View for SpawnExpr {
    type V = Tree;

    closed spec fn view(&self) -> Tree {
        self.0@
    }
}

impl Projection for SpawnExpr {
    open spec fn sel() -> Sel {
        Sel::Node(SyntaxKind::SPAWN_EXPR)
    }

    fn selector() -> (r: Sel) {
        Sel::Node(SyntaxKind::SPAWN_EXPR)
    }

    open spec fn wf(&self) -> bool {
        self@ is Node && self@.kind() == SyntaxKind::SPAWN_EXPR
    }

    fn project(e: &SyntaxElement) -> (r: Option<Self>) {
        match e {
            SyntaxElement::Node(n) => {
                proof {
                    lemma_kids(n);
                }
                if n.kind == SyntaxKind::SPAWN_EXPR {
                    Some(SpawnExpr(n.clone()))
                } else {
                    None
                }
            },
            SyntaxElement::Token(_) => None,
        }
    }
}

impl AstNode for SpawnExpr {
    open spec fn kind_ok(kind: SyntaxKind) -> bool {
        kind == SyntaxKind::SPAWN_EXPR
    }

    fn can_cast(kind: SyntaxKind) -> (r: bool) {
        kind == SyntaxKind::SPAWN_EXPR
    }

    fn cast(syntax: SyntaxNode) -> (r: Option<Self>) {
        if syntax.kind == SyntaxKind::SPAWN_EXPR {
            Some(SpawnExpr(syntax))
        } else {
            None
        }
    }

    open spec fn range(&self) -> (u32, u32) {
        self@.range()
    }

    fn syntax(&self) -> (r: &SyntaxNode) {
        &self.0
    }
}

impl SpawnExpr {
    /// The spawned actor's name.
    pub fn actor_name(&self) -> (r: Option<&str>)
        ensures
            opt_str(r) == first_text(self@.kids(), Sel::Token(SyntaxKind::IDENT)),
    {
        token_text(&self.0, Sel::Token(SyntaxKind::IDENT))
    }

    /// The init arguments (everything after the actor name), in order.
    pub fn args(&self) -> (r: Vec<Expr>)
        ensures
            views(r@) == pick(after(self@.kids(), SyntaxKind::COMMA), Sel::Expr),
            all_wf(r@),
    {
        children_after::<Expr>(&self.0, SyntaxKind::COMMA)
    }
}

/// A `send(pid, msg)` expression: fire-and-forget message delivery.
#[derive(Debug)]
pub struct SendExpr(SyntaxNode);

impl View for SendExpr {
    type V = Tree;

    closed spec fn view(&self) -> Tree {
        self.0@
    }
}

impl Projection for SendExpr {
    open spec fn sel() -> Sel {
        Sel::Node(SyntaxKind::SEND_EXPR)
    }

    fn selector() -> (r: Sel) {
        Sel::Node(SyntaxKind::SEND_EXPR)
    }

    open spec fn wf(&self) -> bool {
        self@ is Node && self@.kind() == SyntaxKind::SEND_EXPR
    }

    fn project(e: &SyntaxElement) -> (r: Option<Self>) {
        match e {
            SyntaxElement::Node(n) => {
                proof {
                    lemma_kids(n);
                }
                if n.kind == SyntaxKind::SEND_EXPR {
                    Some(SendExpr(n.clone()))
                } else {
                    None
                }
            },
            SyntaxElement::Token(_) => None,
        }
    }
}

impl AstNode for SendExpr {
    open spec fn kind_ok(kind: SyntaxKind) -> bool {
        kind == SyntaxKind::SEND_EXPR
    }

    fn can_cast(kind: SyntaxKind) -> (r: bool) {
        kind == SyntaxKind::SEND_EXPR
    }

    fn cast(syntax: SyntaxNode) -> (r: Option<Self>) {
        if syntax.kind == SyntaxKind::SEND_EXPR {
            Some(SendExpr(syntax))
        } else {
            None
        }
    }

    open spec fn range(&self) -> (u32, u32) {
        self@.range()
    }

    fn syntax(&self) -> (r: &SyntaxNode) {
        &self.0
    }
}

impl SendExpr {
    /// The destination expression (a `Pid<Msg>`).
    pub fn pid(&self) -> (r: Option<Expr>)
        ensures
            opt_view(r) == nth_view(pick(self@.kids(), Sel::Expr), 0),
            opt_wf(r),
    {
        nth_of(children::<Expr>(&self.0), 0)
    }

    /// The message expression.
    pub fn message(&self) -> (r: Option<Expr>)
        ensures
            opt_view(r) == nth_view(pick(self@.kids(), Sel::Expr), 1),
            opt_wf(r),
    {
        nth_of(children::<Expr>(&self.0), 1)
    }
}

/// A `request(pid, ctor)` expression: a send awaiting a reply.
#[derive(Debug)]
pub struct RequestExpr(SyntaxNode);

impl View for RequestExpr {
    type V = Tree;

    closed spec fn view(&self) -> Tree {
        self.0@
    }
}

impl Projection for RequestExpr {
    open spec fn sel() -> Sel {
        Sel::Node(SyntaxKind::REQUEST_EXPR)
    }

    fn selector() -> (r: Sel) {
        Sel::Node(SyntaxKind::REQUEST_EXPR)
    }

    open spec fn wf(&self) -> bool {
        self@ is Node && self@.kind() == SyntaxKind::REQUEST_EXPR
    }

    fn project(e: &SyntaxElement) -> (r: Option<Self>) {
        match e {
            SyntaxElement::Node(n) => {
                proof {
                    lemma_kids(n);
                }
                if n.kind == SyntaxKind::REQUEST_EXPR {
                    Some(RequestExpr(n.clone()))
                } else {
                    None
                }
            },
            SyntaxElement::Token(_) => None,
        }
    }
}

impl AstNode for RequestExpr {
    open spec fn kind_ok(kind: SyntaxKind) -> bool {
        kind == SyntaxKind::REQUEST_EXPR
    }

    fn can_cast(kind: SyntaxKind) -> (r: bool) {
        kind == SyntaxKind::REQUEST_EXPR
    }

    fn cast(syntax: SyntaxNode) -> (r: Option<Self>) {
        if syntax.kind == SyntaxKind::REQUEST_EXPR {
            Some(RequestExpr(syntax))
        } else {
            None
        }
    }

    open spec fn range(&self) -> (u32, u32) {
        self@.range()
    }

    fn syntax(&self) -> (r: &SyntaxNode) {
        &self.0
    }
}

impl RequestExpr {
    /// The destination expression (a `Pid<Msg>`).
    pub fn pid(&self) -> (r: Option<Expr>)
        ensures
            opt_view(r) == nth_view(pick(self@.kids(), Sel::Expr), 0),
            opt_wf(r),
    {
        nth_of(children::<Expr>(&self.0), 0)
    }

    /// The message-building expression, typically a message constructor.
    pub fn message_fn(&self) -> (r: Option<Expr>)
        ensures
            opt_view(r) == nth_view(pick(self@.kids(), Sel::Expr), 1),
            opt_wf(r),
    {
        nth_of(children::<Expr>(&self.0), 1)
    }
}

/// A `reply(reply_to, value)` expression.
#[derive(Debug)]
pub struct ReplyExpr(SyntaxNode);

impl View for ReplyExpr {
    type V = Tree;

    closed spec fn view(&self) -> Tree {
        self.0@
    }
}

impl Projection for ReplyExpr {
    open spec fn sel() -> Sel {
        Sel::Node(SyntaxKind::REPLY_EXPR)
    }

    fn selector() -> (r: Sel) {
        Sel::Node(SyntaxKind::REPLY_EXPR)
    }

    open spec fn wf(&self) -> bool {
        self@ is Node && self@.kind() == SyntaxKind::REPLY_EXPR
    }

    fn project(e: &SyntaxElement) -> (r: Option<Self>) {
        match e {
            SyntaxElement::Node(n) => {
                proof {
                    lemma_kids(n);
                }
                if n.kind == SyntaxKind::REPLY_EXPR {
                    Some(ReplyExpr(n.clone()))
                } else {
                    None
                }
            },
            SyntaxElement::Token(_) => None,
        }
    }
}

impl AstNode for ReplyExpr {
    open spec fn kind_ok(kind: SyntaxKind) -> bool {
        kind == SyntaxKind::REPLY_EXPR
    }

    fn can_cast(kind: SyntaxKind) -> (r: bool) {
        kind == SyntaxKind::REPLY_EXPR
    }

    fn cast(syntax: SyntaxNode) -> (r: Option<Self>) {
        if syntax.kind == SyntaxKind::REPLY_EXPR {
            Some(ReplyExpr(syntax))
        } else {
            None
        }
    }

    open spec fn range(&self) -> (u32, u32) {
        self@.range()
    }

    fn syntax(&self) -> (r: &SyntaxNode) {
        &self.0
    }
}

impl ReplyExpr {
    /// The reply channel expression (a `ReplyTo<T>`).
    pub fn reply_to(&self) -> (r: Option<Expr>)
        ensures
            opt_view(r) == nth_view(pick(self@.kids(), Sel::Expr), 0),
            opt_wf(r),
    {
        nth_of(children::<Expr>(&self.0), 0)
    }

    /// The replied value expression.
    pub fn value(&self) -> (r: Option<Expr>)
        ensures
            opt_view(r) == nth_view(pick(self@.kids(), Sel::Expr), 1),
            opt_wf(r),
    {
        nth_of(children::<Expr>(&self.0), 1)
    }
}

/// A `crash!(message)` (or `panic!(message)`) expression.
#[derive(Debug)]
pub struct CrashExpr(SyntaxNode);

impl View for CrashExpr {
    type V = Tree;

    closed spec fn view(&self) -> Tree {
        self.0@
    }
}

impl Projection for CrashExpr {
    open spec fn sel() -> Sel {
        Sel::Node(SyntaxKind::CRASH_EXPR)
    }

    fn selector() -> (r: Sel) {
        Sel::Node(SyntaxKind::CRASH_EXPR)
    }

    open spec fn wf(&self) -> bool {
        self@ is Node && self@.kind() == SyntaxKind::CRASH_EXPR
    }

    fn project(e: &SyntaxElement) -> (r: Option<Self>) {
        match e {
            SyntaxElement::Node(n) => {
                proof {
                    lemma_kids(n);
                }
                if n.kind == SyntaxKind::CRASH_EXPR {
                    Some(CrashExpr(n.clone()))
                } else {
                    None
                }
            },
            SyntaxElement::Token(_) => None,
        }
    }
}

impl AstNode for CrashExpr {
    open spec fn kind_ok(kind: SyntaxKind) -> bool {
        kind == SyntaxKind::CRASH_EXPR
    }

    fn can_cast(kind: SyntaxKind) -> (r: bool) {
        kind == SyntaxKind::CRASH_EXPR
    }

    fn cast(syntax: SyntaxNode) -> (r: Option<Self>) {
        if syntax.kind == SyntaxKind::CRASH_EXPR {
            Some(CrashExpr(syntax))
        } else {
            None
        }
    }

    open spec fn range(&self) -> (u32, u32) {
        self@.range()
    }

    fn syntax(&self) -> (r: &SyntaxNode) {
        &self.0
    }
}

impl CrashExpr {
    /// The crash message expression (a `String`).
    pub fn message(&self) -> (r: Option<Expr>)
        ensures
            opt_view(r) == first(self@.kids(), Sel::Expr),
            opt_wf(r),
    {
        child::<Expr>(&self.0)
    }

    /// Whether the primitive was spelled `panic!` rather than `crash!`.
    pub fn is_panic(&self) -> (r: bool)
        ensures
            r == first(self@.kids(), Sel::Token(SyntaxKind::PANIC_KW)) is Some,
    {
        has_child(&self.0, Sel::Token(SyntaxKind::PANIC_KW))
    }
}

/// A binary operator expression (`a + b`).
#[derive(Debug)]
pub struct BinOpExpr(SyntaxNode);

impl View for BinOpExpr {
    type V = Tree;

    closed spec fn view(&self) -> Tree {
        self.0@
    }
}

impl Projection for BinOpExpr {
    open spec fn sel() -> Sel {
        Sel::Node(SyntaxKind::BIN_EXPR)
    }

    fn selector() -> (r: Sel) {
        Sel::Node(SyntaxKind::BIN_EXPR)
    }

    open spec fn wf(&self) -> bool {
        self@ is Node && self@.kind() == SyntaxKind::BIN_EXPR
    }

    fn project(e: &SyntaxElement) -> (r: Option<Self>) {
        match e {
            SyntaxElement::Node(n) => {
                proof {
                    lemma_kids(n);
                }
                if n.kind == SyntaxKind::BIN_EXPR {
                    Some(BinOpExpr(n.clone()))
                } else {
                    None
                }
            },
            SyntaxElement::Token(_) => None,
        }
    }
}

impl AstNode for BinOpExpr {
    open spec fn kind_ok(kind: SyntaxKind) -> bool {
        kind == SyntaxKind::BIN_EXPR
    }

    fn can_cast(kind: SyntaxKind) -> (r: bool) {
        kind == SyntaxKind::BIN_EXPR
    }

    fn cast(syntax: SyntaxNode) -> (r: Option<Self>) {
        if syntax.kind == SyntaxKind::BIN_EXPR {
            Some(BinOpExpr(syntax))
        } else {
            None
        }
    }

    open spec fn range(&self) -> (u32, u32) {
        self@.range()
    }

    fn syntax(&self) -> (r: &SyntaxNode) {
        &self.0
    }
}

impl BinOpExpr {
    /// The left operand.
    pub fn lhs(&self) -> (r: Option<Expr>)
        ensures
            opt_view(r) == nth_view(pick(self@.kids(), Sel::Expr), 0),
            opt_wf(r),
    {
        nth_of(children::<Expr>(&self.0), 0)
    }

    /// The right operand.
    pub fn rhs(&self) -> (r: Option<Expr>)
        ensures
            opt_view(r) == nth_view(pick(self@.kids(), Sel::Expr), 1),
            opt_wf(r),
    {
        nth_of(children::<Expr>(&self.0), 1)
    }

    /// The operator's source text (e.g. `+`).
    pub fn op(&self) -> (r: Option<&str>)
        ensures
            opt_str(r) == first_text(self@.kids(), Sel::Binop),
    {
        token_text(&self.0, Sel::Binop)
    }
}

/// A function application of a single argument (`f x`).
#[derive(Debug)]
pub struct AppExpr(SyntaxNode);

impl View for AppExpr {
    type V = Tree;

    closed spec fn view(&self) -> Tree {
        self.0@
    }
}

impl Projection for AppExpr {
    open spec fn sel() -> Sel {
        Sel::Node(SyntaxKind::APP_EXPR)
    }

    fn selector() -> (r: Sel) {
        Sel::Node(SyntaxKind::APP_EXPR)
    }

    open spec fn wf(&self) -> bool {
        self@ is Node && self@.kind() == SyntaxKind::APP_EXPR
    }

    fn project(e: &SyntaxElement) -> (r: Option<Self>) {
        match e {
            SyntaxElement::Node(n) => {
                proof {
                    lemma_kids(n);
                }
                if n.kind == SyntaxKind::APP_EXPR {
                    Some(AppExpr(n.clone()))
                } else {
                    None
                }
            },
            SyntaxElement::Token(_) => None,
        }
    }
}

impl AstNode for AppExpr {
    open spec fn kind_ok(kind: SyntaxKind) -> bool {
        kind == SyntaxKind::APP_EXPR
    }

    fn can_cast(kind: SyntaxKind) -> (r: bool) {
        kind == SyntaxKind::APP_EXPR
    }

    fn cast(syntax: SyntaxNode) -> (r: Option<Self>) {
        if syntax.kind == SyntaxKind::APP_EXPR {
            Some(AppExpr(syntax))
        } else {
            None
        }
    }

    open spec fn range(&self) -> (u32, u32) {
        self@.range()
    }

    fn syntax(&self) -> (r: &SyntaxNode) {
        &self.0
    }
}

impl AppExpr {
    /// The applied function.
    pub fn function(&self) -> (r: Option<Expr>)
        ensures
            opt_view(r) == nth_view(pick(self@.kids(), Sel::Expr), 0),
            opt_wf(r),
    {
        nth_of(children::<Expr>(&self.0), 0)
    }

    /// The argument.
    pub fn argument(&self) -> (r: Option<Expr>)
        ensures
            opt_view(r) == nth_view(pick(self@.kids(), Sel::Expr), 1),
            opt_wf(r),
    {
        nth_of(children::<Expr>(&self.0), 1)
    }
}

/// A field access (`expr.field`).
#[derive(Debug)]
pub struct FieldExpr(SyntaxNode);

impl View for FieldExpr {
    type V = Tree;

    closed spec fn view(&self) -> Tree {
        self.0@
    }
}

impl Projection for FieldExpr {
    open spec fn sel() -> Sel {
        Sel::Node(SyntaxKind::FIELD_EXPR)
    }

    fn selector() -> (r: Sel) {
        Sel::Node(SyntaxKind::FIELD_EXPR)
    }

    open spec fn wf(&self) -> bool {
        self@ is Node && self@.kind() == SyntaxKind::FIELD_EXPR
    }

    fn project(e: &SyntaxElement) -> (r: Option<Self>) {
        match e {
            SyntaxElement::Node(n) => {
                proof {
                    lemma_kids(n);
                }
                if n.kind == SyntaxKind::FIELD_EXPR {
                    Some(FieldExpr(n.clone()))
                } else {
                    None
                }
            },
            SyntaxElement::Token(_) => None,
        }
    }
}

impl AstNode for FieldExpr {
    open spec fn kind_ok(kind: SyntaxKind) -> bool {
        kind == SyntaxKind::FIELD_EXPR
    }

    fn can_cast(kind: SyntaxKind) -> (r: bool) {
        kind == SyntaxKind::FIELD_EXPR
    }

    fn cast(syntax: SyntaxNode) -> (r: Option<Self>) {
        if syntax.kind == SyntaxKind::FIELD_EXPR {
            Some(FieldExpr(syntax))
        } else {
            None
        }
    }

    open spec fn range(&self) -> (u32, u32) {
        self@.range()
    }

    fn syntax(&self) -> (r: &SyntaxNode) {
        &self.0
    }
}

impl FieldExpr {
    /// The receiver expression.
    pub fn receiver(&self) -> (r: Option<Expr>)
        ensures
            opt_view(r) == first(self@.kids(), Sel::Expr),
            opt_wf(r),
    {
        child::<Expr>(&self.0)
    }

    /// The accessed field name (after `.`).
    pub fn field(&self) -> (r: Option<&str>)
        ensures
            opt_str(r) == first_text(after(self@.kids(), SyntaxKind::DOT), Sel::Token(SyntaxKind::IDENT)),
    {
        token_text_after(&self.0, SyntaxKind::DOT, Sel::Token(SyntaxKind::IDENT))
    }
}

/// A record literal (`{ x: 1, y: 2 }`).
#[derive(Debug)]
pub struct RecordLit(SyntaxNode);

impl View for RecordLit {
    type V = Tree;

    closed spec fn view(&self) -> Tree {
        self.0@
    }
}

impl Projection for RecordLit {
    open spec fn sel() -> Sel {
        Sel::Node(SyntaxKind::RECORD_LIT)
    }

    fn selector() -> (r: Sel) {
        Sel::Node(SyntaxKind::RECORD_LIT)
    }

    open spec fn wf(&self) -> bool {
        self@ is Node && self@.kind() == SyntaxKind::RECORD_LIT
    }

    fn project(e: &SyntaxElement) -> (r: Option<Self>) {
        match e {
            SyntaxElement::Node(n) => {
                proof {
                    lemma_kids(n);
                }
                if n.kind == SyntaxKind::RECORD_LIT {
                    Some(RecordLit(n.clone()))
                } else {
                    None
                }
            },
            SyntaxElement::Token(_) => None,
        }
    }
}

impl AstNode for RecordLit {
    open spec fn kind_ok(kind: SyntaxKind) -> bool {
        kind == SyntaxKind::RECORD_LIT
    }

    fn can_cast(kind: SyntaxKind) -> (r: bool) {
        kind == SyntaxKind::RECORD_LIT
    }

    fn cast(syntax: SyntaxNode) -> (r: Option<Self>) {
        if syntax.kind == SyntaxKind::RECORD_LIT {
            Some(RecordLit(syntax))
        } else {
            None
        }
    }

    open spec fn range(&self) -> (u32, u32) {
        self@.range()
    }

    fn syntax(&self) -> (r: &SyntaxNode) {
        &self.0
    }
}

impl RecordLit {
    /// The record fields, in order.
    pub fn fields(&self) -> (r: Vec<RecordField>)
        ensures
            views(r@) == pick(self@.kids(), Sel::Node(SyntaxKind::RECORD_FIELD)),
            all_wf(r@),
    {
        children::<RecordField>(&self.0)
    }
}

/// A tuple literal (`(a, b)`), including unit (`()`).
#[derive(Debug)]
pub struct TupleLit(SyntaxNode);

impl View for TupleLit {
    type V = Tree;

    closed spec fn view(&self) -> Tree {
        self.0@
    }
}

impl Projection for TupleLit {
    open spec fn sel() -> Sel {
        Sel::Node(SyntaxKind::TUPLE_LIT)
    }

    fn selector() -> (r: Sel) {
        Sel::Node(SyntaxKind::TUPLE_LIT)
    }

    open spec fn wf(&self) -> bool {
        self@ is Node && self@.kind() == SyntaxKind::TUPLE_LIT
    }

    fn project(e: &SyntaxElement) -> (r: Option<Self>) {
        match e {
            SyntaxElement::Node(n) => {
                proof {
                    lemma_kids(n);
                }
                if n.kind == SyntaxKind::TUPLE_LIT {
                    Some(TupleLit(n.clone()))
                } else {
                    None
                }
            },
            SyntaxElement::Token(_) => None,
        }
    }
}

impl AstNode for TupleLit {
    open spec fn kind_ok(kind: SyntaxKind) -> bool {
        kind == SyntaxKind::TUPLE_LIT
    }

    fn can_cast(kind: SyntaxKind) -> (r: bool) {
        kind == SyntaxKind::TUPLE_LIT
    }

    fn cast(syntax: SyntaxNode) -> (r: Option<Self>) {
        if syntax.kind == SyntaxKind::TUPLE_LIT {
            Some(TupleLit(syntax))
        } else {
            None
        }
    }

    open spec fn range(&self) -> (u32, u32) {
        self@.range()
    }

    fn syntax(&self) -> (r: &SyntaxNode) {
        &self.0
    }
}

impl TupleLit {
    /// The tuple elements, in order.
    pub fn elements(&self) -> (r: Vec<Expr>)
        ensures
            views(r@) == pick(self@.kids(), Sel::Expr),
            all_wf(r@),
    {
        children::<Expr>(&self.0)
    }
}

/// A list literal (`[a, b, c]`).
#[derive(Debug)]
pub struct ListLit(SyntaxNode);

impl View for ListLit {
    type V = Tree;

    closed spec fn view(&self) -> Tree {
        self.0@
    }
}

impl Projection for ListLit {
    open spec fn sel() -> Sel {
        Sel::Node(SyntaxKind::LIST_LIT)
    }

    fn selector() -> (r: Sel) {
        Sel::Node(SyntaxKind::LIST_LIT)
    }

    open spec fn wf(&self) -> bool {
        self@ is Node && self@.kind() == SyntaxKind::LIST_LIT
    }

    fn project(e: &SyntaxElement) -> (r: Option<Self>) {
        match e {
            SyntaxElement::Node(n) => {
                proof {
                    lemma_kids(n);
                }
                if n.kind == SyntaxKind::LIST_LIT {
                    Some(ListLit(n.clone()))
                } else {
                    None
                }
            },
            SyntaxElement::Token(_) => None,
        }
    }
}

impl AstNode for ListLit {
    open spec fn kind_ok(kind: SyntaxKind) -> bool {
        kind == SyntaxKind::LIST_LIT
    }

    fn can_cast(kind: SyntaxKind) -> (r: bool) {
        kind == SyntaxKind::LIST_LIT
    }

    fn cast(syntax: SyntaxNode) -> (r: Option<Self>) {
        if syntax.kind == SyntaxKind::LIST_LIT {
            Some(ListLit(syntax))
        } else {
            None
        }
    }

    open spec fn range(&self) -> (u32, u32) {
        self@.range()
    }

    fn syntax(&self) -> (r: &SyntaxNode) {
        &self.0
    }
}

impl ListLit {
    /// The list elements, in order.
    pub fn elements(&self) -> (r: Vec<Expr>)
        ensures
            views(r@) == pick(self@.kids(), Sel::Expr),
            all_wf(r@),
    {
        children::<Expr>(&self.0)
    }
}

/// A parenthesised expression (`(e)`).
#[derive(Debug)]
pub struct ParenExpr(SyntaxNode);

impl View for ParenExpr {
    type V = Tree;

    closed spec fn view(&self) -> Tree {
        self.0@
    }
}

impl Projection for ParenExpr {
    open spec fn sel() -> Sel {
        Sel::Node(SyntaxKind::PAREN_EXPR)
    }

    fn selector() -> (r: Sel) {
        Sel::Node(SyntaxKind::PAREN_EXPR)
    }

    open spec fn wf(&self) -> bool {
        self@ is Node && self@.kind() == SyntaxKind::PAREN_EXPR
    }

    fn project(e: &SyntaxElement) -> (r: Option<Self>) {
        match e {
            SyntaxElement::Node(n) => {
                proof {
                    lemma_kids(n);
                }
                if n.kind == SyntaxKind::PAREN_EXPR {
                    Some(ParenExpr(n.clone()))
                } else {
                    None
                }
            },
            SyntaxElement::Token(_) => None,
        }
    }
}

impl AstNode for ParenExpr {
    open spec fn kind_ok(kind: SyntaxKind) -> bool {
        kind == SyntaxKind::PAREN_EXPR
    }

    fn can_cast(kind: SyntaxKind) -> (r: bool) {
        kind == SyntaxKind::PAREN_EXPR
    }

    fn cast(syntax: SyntaxNode) -> (r: Option<Self>) {
        if syntax.kind == SyntaxKind::PAREN_EXPR {
            Some(ParenExpr(syntax))
        } else {
            None
        }
    }

    open spec fn range(&self) -> (u32, u32) {
        self@.range()
    }

    fn syntax(&self) -> (r: &SyntaxNode) {
        &self.0
    }
}

impl ParenExpr {
    /// The wrapped expression.
    pub fn inner(&self) -> (r: Option<Expr>)
        ensures
            opt_view(r) == first(self@.kids(), Sel::Expr),
            opt_wf(r),
    {
        child::<Expr>(&self.0)
    }
}

/// An applied type (`List<Int>`).
#[derive(Debug)]
pub struct AppType(SyntaxNode);

impl View for AppType {
    type V = Tree;

    closed spec fn view(&self) -> Tree {
        self.0@
    }
}

impl Projection for AppType {
    open spec fn sel() -> Sel {
        Sel::Node(SyntaxKind::APP_TYPE)
    }

    fn selector() -> (r: Sel) {
        Sel::Node(SyntaxKind::APP_TYPE)
    }

    open spec fn wf(&self) -> bool {
        self@ is Node && self@.kind() == SyntaxKind::APP_TYPE
    }

    fn project(e: &SyntaxElement) -> (r: Option<Self>) {
        match e {
            SyntaxElement::Node(n) => {
                proof {
                    lemma_kids(n);
                }
                if n.kind == SyntaxKind::APP_TYPE {
                    Some(AppType(n.clone()))
                } else {
                    None
                }
            },
            SyntaxElement::Token(_) => None,
        }
    }
}

impl AstNode for AppType {
    open spec fn kind_ok(kind: SyntaxKind) -> bool {
        kind == SyntaxKind::APP_TYPE
    }

    fn can_cast(kind: SyntaxKind) -> (r: bool) {
        kind == SyntaxKind::APP_TYPE
    }

    fn cast(syntax: SyntaxNode) -> (r: Option<Self>) {
        if syntax.kind == SyntaxKind::APP_TYPE {
            Some(AppType(syntax))
        } else {
            None
        }
    }

    open spec fn range(&self) -> (u32, u32) {
        self@.range()
    }

    fn syntax(&self) -> (r: &SyntaxNode) {
        &self.0
    }
}

impl AppType {
    /// The applied constructor name.
    pub fn name(&self) -> (r: Option<&str>)
        ensures
            opt_str(r) == first_text(self@.kids(), Sel::Token(SyntaxKind::IDENT)),
    {
        token_text(&self.0, Sel::Token(SyntaxKind::IDENT))
    }

    /// The type arguments (`<..>`), in order.
    pub fn args(&self) -> (r: Vec<TypeExpr>)
        ensures
            views(r@) == pick(flat(self@.kids(), SyntaxKind::TYPE_ARGS), Sel::Type),
            all_wf(r@),
    {
        children_in::<TypeExpr>(&self.0, SyntaxKind::TYPE_ARGS)
    }
}

/// A function type (`A → B`), optionally with an effect row.
#[derive(Debug)]
pub struct FnType(SyntaxNode);

impl View for FnType {
    type V = Tree;

    closed spec fn view(&self) -> Tree {
        self.0@
    }
}

impl Projection for FnType {
    open spec fn sel() -> Sel {
        Sel::Node(SyntaxKind::FN_TYPE)
    }

    fn selector() -> (r: Sel) {
        Sel::Node(SyntaxKind::FN_TYPE)
    }

    open spec fn wf(&self) -> bool {
        self@ is Node && self@.kind() == SyntaxKind::FN_TYPE
    }

    fn project(e: &SyntaxElement) -> (r: Option<Self>) {
        match e {
            SyntaxElement::Node(n) => {
                proof {
                    lemma_kids(n);
                }
                if n.kind == SyntaxKind::FN_TYPE {
                    Some(FnType(n.clone()))
                } else {
                    None
                }
            },
            SyntaxElement::Token(_) => None,
        }
    }
}

impl AstNode for FnType {
    open spec fn kind_ok(kind: SyntaxKind) -> bool {
        kind == SyntaxKind::FN_TYPE
    }

    fn can_cast(kind: SyntaxKind) -> (r: bool) {
        kind == SyntaxKind::FN_TYPE
    }

    fn cast(syntax: SyntaxNode) -> (r: Option<Self>) {
        if syntax.kind == SyntaxKind::FN_TYPE {
            Some(FnType(syntax))
        } else {
            None
        }
    }

    open spec fn range(&self) -> (u32, u32) {
        self@.range()
    }

    fn syntax(&self) -> (r: &SyntaxNode) {
        &self.0
    }
}

impl FnType {
    /// The effect-row annotation on the arrow (`A → B ! { … }`), if present.
    pub fn effect_ann(&self) -> (r: Option<EffectAnn>)
        ensures
            opt_view(r) == first(self@.kids(), Sel::Node(SyntaxKind::EFFECT_ANN)),
            opt_wf(r),
    {
        child::<EffectAnn>(&self.0)
    }
}

/// A tuple type (`(A, B)`), including unit (`()`).
#[derive(Debug)]
pub struct TupleType(SyntaxNode);

impl View for TupleType {
    type V = Tree;

    closed spec fn view(&self) -> Tree {
        self.0@
    }
}

impl Projection for TupleType {
    open spec fn sel() -> Sel {
        Sel::Node(SyntaxKind::TUPLE_TYPE)
    }

    fn selector() -> (r: Sel) {
        Sel::Node(SyntaxKind::TUPLE_TYPE)
    }

    open spec fn wf(&self) -> bool {
        self@ is Node && self@.kind() == SyntaxKind::TUPLE_TYPE
    }

    fn project(e: &SyntaxElement) -> (r: Option<Self>) {
        match e {
            SyntaxElement::Node(n) => {
                proof {
                    lemma_kids(n);
                }
                if n.kind == SyntaxKind::TUPLE_TYPE {
                    Some(TupleType(n.clone()))
                } else {
                    None
                }
            },
            SyntaxElement::Token(_) => None,
        }
    }
}

impl AstNode for TupleType {
    open spec fn kind_ok(kind: SyntaxKind) -> bool {
        kind == SyntaxKind::TUPLE_TYPE
    }

    fn can_cast(kind: SyntaxKind) -> (r: bool) {
        kind == SyntaxKind::TUPLE_TYPE
    }

    fn cast(syntax: SyntaxNode) -> (r: Option<Self>) {
        if syntax.kind == SyntaxKind::TUPLE_TYPE {
            Some(TupleType(syntax))
        } else {
            None
        }
    }

    open spec fn range(&self) -> (u32, u32) {
        self@.range()
    }

    fn syntax(&self) -> (r: &SyntaxNode) {
        &self.0
    }
}

impl TupleType {
    /// The element types, in order.
    pub fn elements(&self) -> (r: Vec<TypeExpr>)
        ensures
            views(r@) == pick(self@.kids(), Sel::Type),
            all_wf(r@),
    {
        children::<TypeExpr>(&self.0)
    }
}

/// A record type (`{ name: Type, … }`).
#[derive(Debug)]
pub struct RecordType(SyntaxNode);

impl View for RecordType {
    type V = Tree;

    closed spec fn view(&self) -> Tree {
        self.0@
    }
}

impl Projection for RecordType {
    open spec fn sel() -> Sel {
        Sel::Node(SyntaxKind::RECORD_TYPE)
    }

    fn selector() -> (r: Sel) {
        Sel::Node(SyntaxKind::RECORD_TYPE)
    }

    open spec fn wf(&self) -> bool {
        self@ is Node && self@.kind() == SyntaxKind::RECORD_TYPE
    }

    fn project(e: &SyntaxElement) -> (r: Option<Self>) {
        match e {
            SyntaxElement::Node(n) => {
                proof {
                    lemma_kids(n);
                }
                if n.kind == SyntaxKind::RECORD_TYPE {
                    Some(RecordType(n.clone()))
                } else {
                    None
                }
            },
            SyntaxElement::Token(_) => None,
        }
    }
}

impl AstNode for RecordType {
    open spec fn kind_ok(kind: SyntaxKind) -> bool {
        kind == SyntaxKind::RECORD_TYPE
    }

    fn can_cast(kind: SyntaxKind) -> (r: bool) {
        kind == SyntaxKind::RECORD_TYPE
    }

    fn cast(syntax: SyntaxNode) -> (r: Option<Self>) {
        if syntax.kind == SyntaxKind::RECORD_TYPE {
            Some(RecordType(syntax))
        } else {
            None
        }
    }

    open spec fn range(&self) -> (u32, u32) {
        self@.range()
    }

    fn syntax(&self) -> (r: &SyntaxNode) {
        &self.0
    }
}

impl RecordType {
    /// The record's fields, in order.
    pub fn fields(&self) -> (r: Vec<RecordTypeField>)
        ensures
            views(r@) == pick(self@.kids(), Sel::Node(SyntaxKind::RECORD_TYPE_FIELD)),
            all_wf(r@),
    {
        children::<RecordTypeField>(&self.0)
    }
}

/// A record-type field (`name: Type`).
#[derive(Debug)]
pub struct RecordTypeField(SyntaxNode);

impl View for RecordTypeField {
    type V = Tree;

    closed spec fn view(&self) -> Tree {
        self.0@
    }
}

impl Projection for RecordTypeField {
    open spec fn sel() -> Sel {
        Sel::Node(SyntaxKind::RECORD_TYPE_FIELD)
    }

    fn selector() -> (r: Sel) {
        Sel::Node(SyntaxKind::RECORD_TYPE_FIELD)
    }

    open spec fn wf(&self) -> bool {
        self@ is Node && self@.kind() == SyntaxKind::RECORD_TYPE_FIELD
    }

    fn project(e: &SyntaxElement) -> (r: Option<Self>) {
        match e {
            SyntaxElement::Node(n) => {
                proof {
                    lemma_kids(n);
                }
                if n.kind == SyntaxKind::RECORD_TYPE_FIELD {
                    Some(RecordTypeField(n.clone()))
                } else {
                    None
                }
            },
            SyntaxElement::Token(_) => None,
        }
    }
}

impl AstNode for RecordTypeField {
    open spec fn kind_ok(kind: SyntaxKind) -> bool {
        kind == SyntaxKind::RECORD_TYPE_FIELD
    }

    fn can_cast(kind: SyntaxKind) -> (r: bool) {
        kind == SyntaxKind::RECORD_TYPE_FIELD
    }

    fn cast(syntax: SyntaxNode) -> (r: Option<Self>) {
        if syntax.kind == SyntaxKind::RECORD_TYPE_FIELD {
            Some(RecordTypeField(syntax))
        } else {
            None
        }
    }

    open spec fn range(&self) -> (u32, u32) {
        self@.range()
    }

    fn syntax(&self) -> (r: &SyntaxNode) {
        &self.0
    }
}

impl RecordTypeField {
    /// The field name: the first non-trivia token before `:`. May be a keyword spelling (e.g. `tool`).
    pub fn name(&self) -> (r: Option<&str>)
        ensures
            opt_str(r) == first_text(upto(self@.kids(), SyntaxKind::COLON), Sel::NonTrivia),
    {
        token_text_before(&self.0, SyntaxKind::COLON, Sel::NonTrivia)
    }

    /// The field type (after `:`).
    pub fn ty(&self) -> (r: Option<TypeExpr>)
        ensures
            opt_view(r) == first(after(self@.kids(), SyntaxKind::COLON), Sel::Type),
            opt_wf(r),
    {
        child_after::<TypeExpr>(&self.0, SyntaxKind::COLON)
    }
}

/// A parenthesised type (`(T)`).
#[derive(Debug)]
pub struct ParenType(SyntaxNode);

impl View for ParenType {
    type V = Tree;

    closed spec fn view(&self) -> Tree {
        self.0@
    }
}

impl Projection for ParenType {
    open spec fn sel() -> Sel {
        Sel::Node(SyntaxKind::PAREN_TYPE)
    }

    fn selector() -> (r: Sel) {
        Sel::Node(SyntaxKind::PAREN_TYPE)
    }

    open spec fn wf(&self) -> bool {
        self@ is Node && self@.kind() == SyntaxKind::PAREN_TYPE
    }

    fn project(e: &SyntaxElement) -> (r: Option<Self>) {
        match e {
            SyntaxElement::Node(n) => {
                proof {
                    lemma_kids(n);
                }
                if n.kind == SyntaxKind::PAREN_TYPE {
                    Some(ParenType(n.clone()))
                } else {
                    None
                }
            },
            SyntaxElement::Token(_) => None,
        }
    }
}

impl AstNode for ParenType {
    open spec fn kind_ok(kind: SyntaxKind) -> bool {
        kind == SyntaxKind::PAREN_TYPE
    }

    fn can_cast(kind: SyntaxKind) -> (r: bool) {
        kind == SyntaxKind::PAREN_TYPE
    }

    fn cast(syntax: SyntaxNode) -> (r: Option<Self>) {
        if syntax.kind == SyntaxKind::PAREN_TYPE {
            Some(ParenType(syntax))
        } else {
            None
        }
    }

    open spec fn range(&self) -> (u32, u32) {
        self@.range()
    }

    fn syntax(&self) -> (r: &SyntaxNode) {
        &self.0
    }
}

impl ParenType {
    /// The wrapped type.
    pub fn inner(&self) -> (r: Option<TypeExpr>)
        ensures
            opt_view(r) == first(self@.kids(), Sel::Type),
            opt_wf(r),
    {
        child::<TypeExpr>(&self.0)
    }
}

/// An effect-row annotation (`! { E1, E2 }`).
#[derive(Debug)]
pub struct EffectAnn(SyntaxNode);

impl View for EffectAnn {
    type V = Tree;

    closed spec fn view(&self) -> Tree {
        self.0@
    }
}

impl Projection for EffectAnn {
    open spec fn sel() -> Sel {
        Sel::Node(SyntaxKind::EFFECT_ANN)
    }

    fn selector() -> (r: Sel) {
        Sel::Node(SyntaxKind::EFFECT_ANN)
    }

    open spec fn wf(&self) -> bool {
        self@ is Node && self@.kind() == SyntaxKind::EFFECT_ANN
    }

    fn project(e: &SyntaxElement) -> (r: Option<Self>) {
        match e {
            SyntaxElement::Node(n) => {
                proof {
                    lemma_kids(n);
                }
                if n.kind == SyntaxKind::EFFECT_ANN {
                    Some(EffectAnn(n.clone()))
                } else {
                    None
                }
            },
            SyntaxElement::Token(_) => None,
        }
    }
}

impl AstNode for EffectAnn {
    open spec fn kind_ok(kind: SyntaxKind) -> bool {
        kind == SyntaxKind::EFFECT_ANN
    }

    fn can_cast(kind: SyntaxKind) -> (r: bool) {
        kind == SyntaxKind::EFFECT_ANN
    }

    fn cast(syntax: SyntaxNode) -> (r: Option<Self>) {
        if syntax.kind == SyntaxKind::EFFECT_ANN {
            Some(EffectAnn(syntax))
        } else {
            None
        }
    }

    open spec fn range(&self) -> (u32, u32) {
        self@.range()
    }

    fn syntax(&self) -> (r: &SyntaxNode) {
        &self.0
    }
}

impl EffectAnn {
    /// The annotated effects, in order.
    pub fn effects(&self) -> (r: Vec<TypeExpr>)
        ensures
            views(r@) == pick(self@.kids(), Sel::Type),
            all_wf(r@),
    {
        children::<TypeExpr>(&self.0)
    }
}

/// A constructor pattern (`Foo(a, b)` or nullary `Foo`).
#[derive(Debug)]
pub struct ConstructorPat(SyntaxNode);

impl View for ConstructorPat {
    type V = Tree;

    closed spec fn view(&self) -> Tree {
        self.0@
    }
}

impl Projection for ConstructorPat {
    open spec fn sel() -> Sel {
        Sel::Node(SyntaxKind::CONSTRUCTOR_PAT)
    }

    fn selector() -> (r: Sel) {
        Sel::Node(SyntaxKind::CONSTRUCTOR_PAT)
    }

    open spec fn wf(&self) -> bool {
        self@ is Node && self@.kind() == SyntaxKind::CONSTRUCTOR_PAT
    }

    fn project(e: &SyntaxElement) -> (r: Option<Self>) {
        match e {
            SyntaxElement::Node(n) => {
                proof {
                    lemma_kids(n);
                }
                if n.kind == SyntaxKind::CONSTRUCTOR_PAT {
                    Some(ConstructorPat(n.clone()))
                } else {
                    None
                }
            },
            SyntaxElement::Token(_) => None,
        }
    }
}

impl AstNode for ConstructorPat {
    open spec fn kind_ok(kind: SyntaxKind) -> bool {
        kind == SyntaxKind::CONSTRUCTOR_PAT
    }

    fn can_cast(kind: SyntaxKind) -> (r: bool) {
        kind == SyntaxKind::CONSTRUCTOR_PAT
    }

    fn cast(syntax: SyntaxNode) -> (r: Option<Self>) {
        if syntax.kind == SyntaxKind::CONSTRUCTOR_PAT {
            Some(ConstructorPat(syntax))
        } else {
            None
        }
    }

    open spec fn range(&self) -> (u32, u32) {
        self@.range()
    }

    fn syntax(&self) -> (r: &SyntaxNode) {
        &self.0
    }
}

impl ConstructorPat {
    /// The constructor name.
    pub fn name(&self) -> (r: Option<&str>)
        ensures
            opt_str(r) == first_text(self@.kids(), Sel::Token(SyntaxKind::IDENT)),
    {
        token_text(&self.0, Sel::Token(SyntaxKind::IDENT))
    }

    /// The sub-pattern for each constructor field, in order.
    pub fn fields(&self) -> (r: Vec<Pattern>)
        ensures
            views(r@) == pick(self@.kids(), Sel::Pattern),
            all_wf(r@),
    {
        children::<Pattern>(&self.0)
    }
}

/// A tuple pattern (`(a, b)`), including the empty pattern (`()`).
#[derive(Debug)]
pub struct TuplePat(SyntaxNode);

impl View for TuplePat {
    type V = Tree;

    closed spec fn view(&self) -> Tree {
        self.0@
    }
}

impl Projection for TuplePat {
    open spec fn sel() -> Sel {
        Sel::Node(SyntaxKind::TUPLE_PAT)
    }

    fn selector() -> (r: Sel) {
        Sel::Node(SyntaxKind::TUPLE_PAT)
    }

    open spec fn wf(&self) -> bool {
        self@ is Node && self@.kind() == SyntaxKind::TUPLE_PAT
    }

    fn project(e: &SyntaxElement) -> (r: Option<Self>) {
        match e {
            SyntaxElement::Node(n) => {
                proof {
                    lemma_kids(n);
                }
                if n.kind == SyntaxKind::TUPLE_PAT {
                    Some(TuplePat(n.clone()))
                } else {
                    None
                }
            },
            SyntaxElement::Token(_) => None,
        }
    }
}

impl AstNode for TuplePat {
    open spec fn kind_ok(kind: SyntaxKind) -> bool {
        kind == SyntaxKind::TUPLE_PAT
    }

    fn can_cast(kind: SyntaxKind) -> (r: bool) {
        kind == SyntaxKind::TUPLE_PAT
    }

    fn cast(syntax: SyntaxNode) -> (r: Option<Self>) {
        if syntax.kind == SyntaxKind::TUPLE_PAT {
            Some(TuplePat(syntax))
        } else {
            None
        }
    }

    open spec fn range(&self) -> (u32, u32) {
        self@.range()
    }

    fn syntax(&self) -> (r: &SyntaxNode) {
        &self.0
    }
}

impl TuplePat {
    /// The element patterns, in order.
    pub fn elements(&self) -> (r: Vec<Pattern>)
        ensures
            views(r@) == pick(self@.kids(), Sel::Pattern),
            all_wf(r@),
    {
        children::<Pattern>(&self.0)
    }
}

/// A literal pattern (`1`, `"hi"`).
#[derive(Debug)]
pub struct LiteralPat(SyntaxNode);

impl View for LiteralPat {
    type V = Tree;

    closed spec fn view(&self) -> Tree {
        self.0@
    }
}

impl Projection for LiteralPat {
    open spec fn sel() -> Sel {
        Sel::Node(SyntaxKind::LITERAL_PAT)
    }

    fn selector() -> (r: Sel) {
        Sel::Node(SyntaxKind::LITERAL_PAT)
    }

    open spec fn wf(&self) -> bool {
        self@ is Node && self@.kind() == SyntaxKind::LITERAL_PAT
    }

    fn project(e: &SyntaxElement) -> (r: Option<Self>) {
        match e {
            SyntaxElement::Node(n) => {
                proof {
                    lemma_kids(n);
                }
                if n.kind == SyntaxKind::LITERAL_PAT {
                    Some(LiteralPat(n.clone()))
                } else {
                    None
                }
            },
            SyntaxElement::Token(_) => None,
        }
    }
}

impl AstNode for LiteralPat {
    open spec fn kind_ok(kind: SyntaxKind) -> bool {
        kind == SyntaxKind::LITERAL_PAT
    }

    fn can_cast(kind: SyntaxKind) -> (r: bool) {
        kind == SyntaxKind::LITERAL_PAT
    }

    fn cast(syntax: SyntaxNode) -> (r: Option<Self>) {
        if syntax.kind == SyntaxKind::LITERAL_PAT {
            Some(LiteralPat(syntax))
        } else {
            None
        }
    }

    open spec fn range(&self) -> (u32, u32) {
        self@.range()
    }

    fn syntax(&self) -> (r: &SyntaxNode) {
        &self.0
    }
}

impl LiteralPat {
    /// The matched literal (integer, float, or string).
    pub fn literal(&self) -> (r: Option<Literal>)
        ensures
            opt_view(r) == first(self@.kids(), Sel::Literal),
            opt_wf(r),
    {
        child::<Literal>(&self.0)
    }
}

/// A wildcard pattern (`_`).
#[derive(Debug)]
pub struct WildcardPat(SyntaxNode);

impl View for WildcardPat {
    type V = Tree;

    closed spec fn view(&self) -> Tree {
        self.0@
    }
}

impl Projection for WildcardPat {
    open spec fn sel() -> Sel {
        Sel::Node(SyntaxKind::WILDCARD_PAT)
    }

    fn selector() -> (r: Sel) {
        Sel::Node(SyntaxKind::WILDCARD_PAT)
    }

    open spec fn wf(&self) -> bool {
        self@ is Node && self@.kind() == SyntaxKind::WILDCARD_PAT
    }

    fn project(e: &SyntaxElement) -> (r: Option<Self>) {
        match e {
            SyntaxElement::Node(n) => {
                proof {
                    lemma_kids(n);
                }
                if n.kind == SyntaxKind::WILDCARD_PAT {
                    Some(WildcardPat(n.clone()))
                } else {
                    None
                }
            },
            SyntaxElement::Token(_) => None,
        }
    }
}

impl AstNode for WildcardPat {
    open spec fn kind_ok(kind: SyntaxKind) -> bool {
        kind == SyntaxKind::WILDCARD_PAT
    }

    fn can_cast(kind: SyntaxKind) -> (r: bool) {
        kind == SyntaxKind::WILDCARD_PAT
    }

    fn cast(syntax: SyntaxNode) -> (r: Option<Self>) {
        if syntax.kind == SyntaxKind::WILDCARD_PAT {
            Some(WildcardPat(syntax))
        } else {
            None
        }
    }

    open spec fn range(&self) -> (u32, u32) {
        self@.range()
    }

    fn syntax(&self) -> (r: &SyntaxNode) {
        &self.0
    }
}

/// A variable binding pattern (`x`).
#[derive(Debug)]
pub struct BindPat(SyntaxNode);

impl View for BindPat {
    type V = Tree;

    closed spec fn view(&self) -> Tree {
        self.0@
    }
}

impl Projection for BindPat {
    open spec fn sel() -> Sel {
        Sel::Node(SyntaxKind::BIND_PAT)
    }

    fn selector() -> (r: Sel) {
        Sel::Node(SyntaxKind::BIND_PAT)
    }

    open spec fn wf(&self) -> bool {
        self@ is Node && self@.kind() == SyntaxKind::BIND_PAT
    }

    fn project(e: &SyntaxElement) -> (r: Option<Self>) {
        match e {
            SyntaxElement::Node(n) => {
                proof {
                    lemma_kids(n);
                }
                if n.kind == SyntaxKind::BIND_PAT {
                    Some(BindPat(n.clone()))
                } else {
                    None
                }
            },
            SyntaxElement::Token(_) => None,
        }
    }
}

impl AstNode for BindPat {
    open spec fn kind_ok(kind: SyntaxKind) -> bool {
        kind == SyntaxKind::BIND_PAT
    }

    fn can_cast(kind: SyntaxKind) -> (r: bool) {
        kind == SyntaxKind::BIND_PAT
    }

    fn cast(syntax: SyntaxNode) -> (r: Option<Self>) {
        if syntax.kind == SyntaxKind::BIND_PAT {
            Some(BindPat(syntax))
        } else {
            None
        }
    }

    open spec fn range(&self) -> (u32, u32) {
        self@.range()
    }

    fn syntax(&self) -> (r: &SyntaxNode) {
        &self.0
    }
}

impl BindPat {
    /// The bound name.
    pub fn name(&self) -> (r: Option<&str>)
        ensures
            opt_str(r) == first_text(self@.kids(), Sel::Token(SyntaxKind::IDENT)),
    {
        token_text(&self.0, Sel::Token(SyntaxKind::IDENT))
    }
}

/// A function parameter (`name: Type`).
#[derive(Debug)]
pub struct Param(SyntaxNode);

impl View for Param {
    type V = Tree;

    closed spec fn view(&self) -> Tree {
        self.0@
    }
}

impl Projection for Param {
    open spec fn sel() -> Sel {
        Sel::Node(SyntaxKind::PARAM)
    }

    fn selector() -> (r: Sel) {
        Sel::Node(SyntaxKind::PARAM)
    }

    open spec fn wf(&self) -> bool {
        self@ is Node && self@.kind() == SyntaxKind::PARAM
    }

    fn project(e: &SyntaxElement) -> (r: Option<Self>) {
        match e {
            SyntaxElement::Node(n) => {
                proof {
                    lemma_kids(n);
                }
                if n.kind == SyntaxKind::PARAM {
                    Some(Param(n.clone()))
                } else {
                    None
                }
            },
            SyntaxElement::Token(_) => None,
        }
    }
}

impl AstNode for Param {
    open spec fn kind_ok(kind: SyntaxKind) -> bool {
        kind == SyntaxKind::PARAM
    }

    fn can_cast(kind: SyntaxKind) -> (r: bool) {
        kind == SyntaxKind::PARAM
    }

    fn cast(syntax: SyntaxNode) -> (r: Option<Self>) {
        if syntax.kind == SyntaxKind::PARAM {
            Some(Param(syntax))
        } else {
            None
        }
    }

    open spec fn range(&self) -> (u32, u32) {
        self@.range()
    }

    fn syntax(&self) -> (r: &SyntaxNode) {
        &self.0
    }
}

impl Param {
    /// The parameter name.
    pub fn name(&self) -> (r: Option<&str>)
        ensures
            opt_str(r) == first_text(self@.kids(), Sel::Token(SyntaxKind::IDENT)),
    {
        token_text(&self.0, Sel::Token(SyntaxKind::IDENT))
    }

    /// The declared type (after `:`).
    pub fn ty(&self) -> (r: Option<TypeExpr>)
        ensures
            opt_view(r) == first(after(self@.kids(), SyntaxKind::COLON), Sel::Type),
            opt_wf(r),
    {
        child_after::<TypeExpr>(&self.0, SyntaxKind::COLON)
    }
}

/// An ADT constructor (`Name(Field, ..)`).
#[derive(Debug)]
pub struct Constructor(SyntaxNode);

impl View for Constructor {
    type V = Tree;

    closed spec fn view(&self) -> Tree {
        self.0@
    }
}

impl Projection for Constructor {
    open spec fn sel() -> Sel {
        Sel::Node(SyntaxKind::CONSTRUCTOR)
    }

    fn selector() -> (r: Sel) {
        Sel::Node(SyntaxKind::CONSTRUCTOR)
    }

    open spec fn wf(&self) -> bool {
        self@ is Node && self@.kind() == SyntaxKind::CONSTRUCTOR
    }

    fn project(e: &SyntaxElement) -> (r: Option<Self>) {
        match e {
            SyntaxElement::Node(n) => {
                proof {
                    lemma_kids(n);
                }
                if n.kind == SyntaxKind::CONSTRUCTOR {
                    Some(Constructor(n.clone()))
                } else {
                    None
                }
            },
            SyntaxElement::Token(_) => None,
        }
    }
}

impl AstNode for Constructor {
    open spec fn kind_ok(kind: SyntaxKind) -> bool {
        kind == SyntaxKind::CONSTRUCTOR
    }

    fn can_cast(kind: SyntaxKind) -> (r: bool) {
        kind == SyntaxKind::CONSTRUCTOR
    }

    fn cast(syntax: SyntaxNode) -> (r: Option<Self>) {
        if syntax.kind == SyntaxKind::CONSTRUCTOR {
            Some(Constructor(syntax))
        } else {
            None
        }
    }

    open spec fn range(&self) -> (u32, u32) {
        self@.range()
    }

    fn syntax(&self) -> (r: &SyntaxNode) {
        &self.0
    }
}

impl Constructor {
    /// The constructor name.
    pub fn name(&self) -> (r: Option<&str>)
        ensures
            opt_str(r) == first_text(self@.kids(), Sel::Token(SyntaxKind::IDENT)),
    {
        token_text(&self.0, Sel::Token(SyntaxKind::IDENT))
    }

    /// The field types, in order.
    pub fn fields(&self) -> (r: Vec<TypeExpr>)
        ensures
            views(r@) == pick(flat(self@.kids(), SyntaxKind::FIELD_LIST), Sel::Type),
            all_wf(r@),
    {
        children_in::<TypeExpr>(&self.0, SyntaxKind::FIELD_LIST)
    }
}

/// A match arm (`pattern → body`).
#[derive(Debug)]
pub struct MatchArm(SyntaxNode);

impl View for MatchArm {
    type V = Tree;

    closed spec fn view(&self) -> Tree {
        self.0@
    }
}

impl Projection for MatchArm {
    open spec fn sel() -> Sel {
        Sel::Node(SyntaxKind::MATCH_ARM)
    }

    fn selector() -> (r: Sel) {
        Sel::Node(SyntaxKind::MATCH_ARM)
    }

    open spec fn wf(&self) -> bool {
        self@ is Node && self@.kind() == SyntaxKind::MATCH_ARM
    }

    fn project(e: &SyntaxElement) -> (r: Option<Self>) {
        match e {
            SyntaxElement::Node(n) => {
                proof {
                    lemma_kids(n);
                }
                if n.kind == SyntaxKind::MATCH_ARM {
                    Some(MatchArm(n.clone()))
                } else {
                    None
                }
            },
            SyntaxElement::Token(_) => None,
        }
    }
}

impl AstNode for MatchArm {
    open spec fn kind_ok(kind: SyntaxKind) -> bool {
        kind == SyntaxKind::MATCH_ARM
    }

    fn can_cast(kind: SyntaxKind) -> (r: bool) {
        kind == SyntaxKind::MATCH_ARM
    }

    fn cast(syntax: SyntaxNode) -> (r: Option<Self>) {
        if syntax.kind == SyntaxKind::MATCH_ARM {
            Some(MatchArm(syntax))
        } else {
            None
        }
    }

    open spec fn range(&self) -> (u32, u32) {
        self@.range()
    }

    fn syntax(&self) -> (r: &SyntaxNode) {
        &self.0
    }
}

impl MatchArm {
    /// The arm's pattern.
    pub fn pattern(&self) -> (r: Option<Pattern>)
        ensures
            opt_view(r) == first(self@.kids(), Sel::Pattern),
            opt_wf(r),
    {
        child::<Pattern>(&self.0)
    }

    /// The arm body (after `→`).
    pub fn body(&self) -> (r: Option<Expr>)
        ensures
            opt_view(r) == first(after(self@.kids(), SyntaxKind::ARROW), Sel::Expr),
            opt_wf(r),
    {
        child_after::<Expr>(&self.0, SyntaxKind::ARROW)
    }
}

/// A handle arm (`Effect → handler`).
#[derive(Debug)]
pub struct HandleArm(SyntaxNode);

impl View for HandleArm {
    type V = Tree;

    closed spec fn view(&self) -> Tree {
        self.0@
    }
}

impl Projection for HandleArm {
    open spec fn sel() -> Sel {
        Sel::Node(SyntaxKind::HANDLE_ARM)
    }

    fn selector() -> (r: Sel) {
        Sel::Node(SyntaxKind::HANDLE_ARM)
    }

    open spec fn wf(&self) -> bool {
        self@ is Node && self@.kind() == SyntaxKind::HANDLE_ARM
    }

    fn project(e: &SyntaxElement) -> (r: Option<Self>) {
        match e {
            SyntaxElement::Node(n) => {
                proof {
                    lemma_kids(n);
                }
                if n.kind == SyntaxKind::HANDLE_ARM {
                    Some(HandleArm(n.clone()))
                } else {
                    None
                }
            },
            SyntaxElement::Token(_) => None,
        }
    }
}

impl AstNode for HandleArm {
    open spec fn kind_ok(kind: SyntaxKind) -> bool {
        kind == SyntaxKind::HANDLE_ARM
    }

    fn can_cast(kind: SyntaxKind) -> (r: bool) {
        kind == SyntaxKind::HANDLE_ARM
    }

    fn cast(syntax: SyntaxNode) -> (r: Option<Self>) {
        if syntax.kind == SyntaxKind::HANDLE_ARM {
            Some(HandleArm(syntax))
        } else {
            None
        }
    }

    open spec fn range(&self) -> (u32, u32) {
        self@.range()
    }

    fn syntax(&self) -> (r: &SyntaxNode) {
        &self.0
    }
}

impl HandleArm {
    /// The handled effect head (before `→`), e.g. `Log` or `Tool<ReadRepo>`.
    pub fn effect(&self) -> (r: Option<TypeExpr>)
        ensures
            opt_view(r) == first(self@.kids(), Sel::Type),
            opt_wf(r),
    {
        child::<TypeExpr>(&self.0)
    }

    /// The handler implementation (after `→`).
    pub fn handler(&self) -> (r: Option<Expr>)
        ensures
            opt_view(r) == first(after(self@.kids(), SyntaxKind::ARROW), Sel::Expr),
            opt_wf(r),
    {
        child_after::<Expr>(&self.0, SyntaxKind::ARROW)
    }
}

/// A record field (`name: value`).
#[derive(Debug)]
pub struct RecordField(SyntaxNode);

impl View for RecordField {
    type V = Tree;

    closed spec fn view(&self) -> Tree {
        self.0@
    }
}

impl Projection for RecordField {
    open spec fn sel() -> Sel {
        Sel::Node(SyntaxKind::RECORD_FIELD)
    }

    fn selector() -> (r: Sel) {
        Sel::Node(SyntaxKind::RECORD_FIELD)
    }

    open spec fn wf(&self) -> bool {
        self@ is Node && self@.kind() == SyntaxKind::RECORD_FIELD
    }

    fn project(e: &SyntaxElement) -> (r: Option<Self>) {
        match e {
            SyntaxElement::Node(n) => {
                proof {
                    lemma_kids(n);
                }
                if n.kind == SyntaxKind::RECORD_FIELD {
                    Some(RecordField(n.clone()))
                } else {
                    None
                }
            },
            SyntaxElement::Token(_) => None,
        }
    }
}

impl AstNode for RecordField {
    open spec fn kind_ok(kind: SyntaxKind) -> bool {
        kind == SyntaxKind::RECORD_FIELD
    }

    fn can_cast(kind: SyntaxKind) -> (r: bool) {
        kind == SyntaxKind::RECORD_FIELD
    }

    fn cast(syntax: SyntaxNode) -> (r: Option<Self>) {
        if syntax.kind == SyntaxKind::RECORD_FIELD {
            Some(RecordField(syntax))
        } else {
            None
        }
    }

    open spec fn range(&self) -> (u32, u32) {
        self@.range()
    }

    fn syntax(&self) -> (r: &SyntaxNode) {
        &self.0
    }
}

impl RecordField {
    /// The field name: the first non-trivia token before `:`. May be a keyword spelling (e.g. `actor`).
    pub fn name(&self) -> (r: Option<&str>)
        ensures
            opt_str(r) == first_text(upto(self@.kids(), SyntaxKind::COLON), Sel::NonTrivia),
    {
        token_text_before(&self.0, SyntaxKind::COLON, Sel::NonTrivia)
    }

    /// The field value (after `:`).
    pub fn value(&self) -> (r: Option<Expr>)
        ensures
            opt_view(r) == first(after(self@.kids(), SyntaxKind::COLON), Sel::Expr),
            opt_wf(r),
    {
        child_after::<Expr>(&self.0, SyntaxKind::COLON)
    }
}

/// A dotted path (`Foo.Bar.Baz`).
#[derive(Debug)]
pub struct Path(SyntaxNode);

impl View for Path {
    type V = Tree;

    closed spec fn view(&self) -> Tree {
        self.0@
    }
}

impl Projection for Path {
    open spec fn sel() -> Sel {
        Sel::Node(SyntaxKind::PATH)
    }

    fn selector() -> (r: Sel) {
        Sel::Node(SyntaxKind::PATH)
    }

    open spec fn wf(&self) -> bool {
        self@ is Node && self@.kind() == SyntaxKind::PATH
    }

    fn project(e: &SyntaxElement) -> (r: Option<Self>) {
        match e {
            SyntaxElement::Node(n) => {
                proof {
                    lemma_kids(n);
                }
                if n.kind == SyntaxKind::PATH {
                    Some(Path(n.clone()))
                } else {
                    None
                }
            },
            SyntaxElement::Token(_) => None,
        }
    }
}

impl AstNode for Path {
    open spec fn kind_ok(kind: SyntaxKind) -> bool {
        kind == SyntaxKind::PATH
    }

    fn can_cast(kind: SyntaxKind) -> (r: bool) {
        kind == SyntaxKind::PATH
    }

    fn cast(syntax: SyntaxNode) -> (r: Option<Self>) {
        if syntax.kind == SyntaxKind::PATH {
            Some(Path(syntax))
        } else {
            None
        }
    }

    open spec fn range(&self) -> (u32, u32) {
        self@.range()
    }

    fn syntax(&self) -> (r: &SyntaxNode) {
        &self.0
    }
}

impl Path {
    /// The path segments, in order.
    pub fn segments(&self) -> (r: Vec<&str>)
        ensures
            str_views(r@) == texts(pick(self@.kids(), Sel::Token(SyntaxKind::IDENT))),
    {
        token_texts(&self.0, Sel::Token(SyntaxKind::IDENT))
    }
}

/// Any top-level declaration.
#[derive(Debug)]
pub enum Decl {
    /// A `ModuleDecl`.
    Module(ModuleDecl),
    /// A `UseDecl`.
    Use(UseDecl),
    /// A `FnDecl`.
    Fn(FnDecl),
    /// A `TypeDecl`.
    Type(TypeDecl),
    /// A `EffectDecl`.
    Effect(EffectDecl),
    /// A `ToolDecl`.
    Tool(ToolDecl),
    /// A `ExternDecl`.
    Extern(ExternDecl),
    /// A `ActorDecl`.
    Actor(ActorDecl),
    /// A `SupervisorDecl`.
    Supervisor(SupervisorDecl),
}

impl View for Decl {
    type V = Tree;

    open spec fn view(&self) -> Tree {
        match self {
            Decl::Module(x) => x@,
            Decl::Use(x) => x@,
            Decl::Fn(x) => x@,
            Decl::Type(x) => x@,
            Decl::Effect(x) => x@,
            Decl::Tool(x) => x@,
            Decl::Extern(x) => x@,
            Decl::Actor(x) => x@,
            Decl::Supervisor(x) => x@,
        }
    }
}

impl Projection for Decl {
    open spec fn sel() -> Sel {
        Sel::Decl
    }

    fn selector() -> (r: Sel) {
        Sel::Decl
    }

    open spec fn wf(&self) -> bool {
        match self {
            Decl::Module(x) => x.wf(),
            Decl::Use(x) => x.wf(),
            Decl::Fn(x) => x.wf(),
            Decl::Type(x) => x.wf(),
            Decl::Effect(x) => x.wf(),
            Decl::Tool(x) => x.wf(),
            Decl::Extern(x) => x.wf(),
            Decl::Actor(x) => x.wf(),
            Decl::Supervisor(x) => x.wf(),
        }
    }

    fn project(e: &SyntaxElement) -> (r: Option<Self>) {
        match e {
            SyntaxElement::Node(n) => {
                proof {
                    lemma_kids(n);
                }
                match n.kind {
                    SyntaxKind::MODULE_DECL => Some(Decl::Module(ModuleDecl(n.clone()))),
                    SyntaxKind::USE_DECL => Some(Decl::Use(UseDecl(n.clone()))),
                    SyntaxKind::FN_DECL => Some(Decl::Fn(FnDecl(n.clone()))),
                    SyntaxKind::TYPE_DECL => Some(Decl::Type(TypeDecl(n.clone()))),
                    SyntaxKind::EFFECT_DECL => Some(Decl::Effect(EffectDecl(n.clone()))),
                    SyntaxKind::TOOL_DECL => Some(Decl::Tool(ToolDecl(n.clone()))),
                    SyntaxKind::EXTERN_DECL => Some(Decl::Extern(ExternDecl(n.clone()))),
                    SyntaxKind::ACTOR_DECL => Some(Decl::Actor(ActorDecl(n.clone()))),
                    SyntaxKind::SUPERVISOR_DECL => Some(Decl::Supervisor(SupervisorDecl(n.clone()))),
                    _ => None,
                }
            },
            SyntaxElement::Token(_) => None,
        }
    }
}

impl AstNode for Decl {
    open spec fn kind_ok(kind: SyntaxKind) -> bool {
        is_decl_kind(kind)
    }

    fn can_cast(kind: SyntaxKind) -> (r: bool) {
        match kind {
            SyntaxKind::MODULE_DECL | SyntaxKind::USE_DECL | SyntaxKind::FN_DECL | SyntaxKind::TYPE_DECL | SyntaxKind::EFFECT_DECL | SyntaxKind::TOOL_DECL | SyntaxKind::EXTERN_DECL | SyntaxKind::ACTOR_DECL | SyntaxKind::SUPERVISOR_DECL => true,
            _ => false,
        }
    }

    fn cast(syntax: SyntaxNode) -> (r: Option<Self>) {
        match syntax.kind {
            SyntaxKind::MODULE_DECL => Some(Decl::Module(ModuleDecl(syntax))),
            SyntaxKind::USE_DECL => Some(Decl::Use(UseDecl(syntax))),
            SyntaxKind::FN_DECL => Some(Decl::Fn(FnDecl(syntax))),
            SyntaxKind::TYPE_DECL => Some(Decl::Type(TypeDecl(syntax))),
            SyntaxKind::EFFECT_DECL => Some(Decl::Effect(EffectDecl(syntax))),
            SyntaxKind::TOOL_DECL => Some(Decl::Tool(ToolDecl(syntax))),
            SyntaxKind::EXTERN_DECL => Some(Decl::Extern(ExternDecl(syntax))),
            SyntaxKind::ACTOR_DECL => Some(Decl::Actor(ActorDecl(syntax))),
            SyntaxKind::SUPERVISOR_DECL => Some(Decl::Supervisor(SupervisorDecl(syntax))),
            _ => None,
        }
    }

    open spec fn range(&self) -> (u32, u32) {
        self@.range()
    }

    fn syntax(&self) -> (r: &SyntaxNode) {
        match self {
            Decl::Module(x) => &x.0,
            Decl::Use(x) => &x.0,
            Decl::Fn(x) => &x.0,
            Decl::Type(x) => &x.0,
            Decl::Effect(x) => &x.0,
            Decl::Tool(x) => &x.0,
            Decl::Extern(x) => &x.0,
            Decl::Actor(x) => &x.0,
            Decl::Supervisor(x) => &x.0,
        }
    }
}

/// Any pattern.
#[derive(Debug)]
pub enum Pattern {
    /// A `ConstructorPat`.
    Constructor(ConstructorPat),
    /// A `TuplePat`.
    Tuple(TuplePat),
    /// A `LiteralPat`.
    Literal(LiteralPat),
    /// A `WildcardPat`.
    Wildcard(WildcardPat),
    /// A `BindPat`.
    Bind(BindPat),
}

impl View for Pattern {
    type V = Tree;

    open spec fn view(&self) -> Tree {
        match self {
            Pattern::Constructor(x) => x@,
            Pattern::Tuple(x) => x@,
            Pattern::Literal(x) => x@,
            Pattern::Wildcard(x) => x@,
            Pattern::Bind(x) => x@,
        }
    }
}

impl Projection for Pattern {
    open spec fn sel() -> Sel {
        Sel::Pattern
    }

    fn selector() -> (r: Sel) {
        Sel::Pattern
    }

    open spec fn wf(&self) -> bool {
        match self {
            Pattern::Constructor(x) => x.wf(),
            Pattern::Tuple(x) => x.wf(),
            Pattern::Literal(x) => x.wf(),
            Pattern::Wildcard(x) => x.wf(),
            Pattern::Bind(x) => x.wf(),
        }
    }

    fn project(e: &SyntaxElement) -> (r: Option<Self>) {
        match e {
            SyntaxElement::Node(n) => {
                proof {
                    lemma_kids(n);
                }
                match n.kind {
                    SyntaxKind::CONSTRUCTOR_PAT => Some(Pattern::Constructor(ConstructorPat(n.clone()))),
                    SyntaxKind::TUPLE_PAT => Some(Pattern::Tuple(TuplePat(n.clone()))),
                    SyntaxKind::LITERAL_PAT => Some(Pattern::Literal(LiteralPat(n.clone()))),
                    SyntaxKind::WILDCARD_PAT => Some(Pattern::Wildcard(WildcardPat(n.clone()))),
                    SyntaxKind::BIND_PAT => Some(Pattern::Bind(BindPat(n.clone()))),
                    _ => None,
                }
            },
            SyntaxElement::Token(_) => None,
        }
    }
}

impl AstNode for Pattern {
    open spec fn kind_ok(kind: SyntaxKind) -> bool {
        is_pattern_kind(kind)
    }

    fn can_cast(kind: SyntaxKind) -> (r: bool) {
        match kind {
            SyntaxKind::CONSTRUCTOR_PAT | SyntaxKind::TUPLE_PAT | SyntaxKind::LITERAL_PAT | SyntaxKind::WILDCARD_PAT | SyntaxKind::BIND_PAT => true,
            _ => false,
        }
    }

    fn cast(syntax: SyntaxNode) -> (r: Option<Self>) {
        match syntax.kind {
            SyntaxKind::CONSTRUCTOR_PAT => Some(Pattern::Constructor(ConstructorPat(syntax))),
            SyntaxKind::TUPLE_PAT => Some(Pattern::Tuple(TuplePat(syntax))),
            SyntaxKind::LITERAL_PAT => Some(Pattern::Literal(LiteralPat(syntax))),
            SyntaxKind::WILDCARD_PAT => Some(Pattern::Wildcard(WildcardPat(syntax))),
            SyntaxKind::BIND_PAT => Some(Pattern::Bind(BindPat(syntax))),
            _ => None,
        }
    }

    open spec fn range(&self) -> (u32, u32) {
        self@.range()
    }

    fn syntax(&self) -> (r: &SyntaxNode) {
        match self {
            Pattern::Constructor(x) => &x.0,
            Pattern::Tuple(x) => &x.0,
            Pattern::Literal(x) => &x.0,
            Pattern::Wildcard(x) => &x.0,
            Pattern::Bind(x) => &x.0,
        }
    }
}

/// Any expression. Atomic operands (literals and bare names) are tokens, so they appear as the `Literal` and `Name` variants.
#[derive(Debug)]
pub enum Expr {
    /// A `LetExpr`.
    Let(LetExpr),
    /// A `LambdaExpr`.
    Lambda(LambdaExpr),
    /// A `IfExpr`.
    If(IfExpr),
    /// A `MatchExpr`.
    Match(MatchExpr),
    /// A `HandleBlock`.
    Handle(HandleBlock),
    /// A `SpawnExpr`.
    Spawn(SpawnExpr),
    /// A `SendExpr`.
    Send(SendExpr),
    /// A `RequestExpr`.
    Request(RequestExpr),
    /// A `ReplyExpr`.
    Reply(ReplyExpr),
    /// A `CrashExpr`.
    Crash(CrashExpr),
    /// A `BinOpExpr`.
    BinOp(BinOpExpr),
    /// A `AppExpr`.
    App(AppExpr),
    /// A `FieldExpr`.
    Field(FieldExpr),
    /// A `RecordLit`.
    Record(RecordLit),
    /// A `TupleLit`.
    Tuple(TupleLit),
    /// A `ListLit`.
    List(ListLit),
    /// A `ParenExpr`.
    Paren(ParenExpr),
    /// An integer, float, or string literal.
    Literal(Literal),
    /// A bare name used as a value.
    Name(NameRef),
}

impl View for Expr {
    type V = Tree;

    open spec fn view(&self) -> Tree {
        match self {
            Expr::Let(x) => x@,
            Expr::Lambda(x) => x@,
            Expr::If(x) => x@,
            Expr::Match(x) => x@,
            Expr::Handle(x) => x@,
            Expr::Spawn(x) => x@,
            Expr::Send(x) => x@,
            Expr::Request(x) => x@,
            Expr::Reply(x) => x@,
            Expr::Crash(x) => x@,
            Expr::BinOp(x) => x@,
            Expr::App(x) => x@,
            Expr::Field(x) => x@,
            Expr::Record(x) => x@,
            Expr::Tuple(x) => x@,
            Expr::List(x) => x@,
            Expr::Paren(x) => x@,
            Expr::Literal(x) => x@,
            Expr::Name(x) => x@,
        }
    }
}

impl Projection for Expr {
    open spec fn sel() -> Sel {
        Sel::Expr
    }

    fn selector() -> (r: Sel) {
        Sel::Expr
    }

    open spec fn wf(&self) -> bool {
        match self {
            Expr::Let(x) => x.wf(),
            Expr::Lambda(x) => x.wf(),
            Expr::If(x) => x.wf(),
            Expr::Match(x) => x.wf(),
            Expr::Handle(x) => x.wf(),
            Expr::Spawn(x) => x.wf(),
            Expr::Send(x) => x.wf(),
            Expr::Request(x) => x.wf(),
            Expr::Reply(x) => x.wf(),
            Expr::Crash(x) => x.wf(),
            Expr::BinOp(x) => x.wf(),
            Expr::App(x) => x.wf(),
            Expr::Field(x) => x.wf(),
            Expr::Record(x) => x.wf(),
            Expr::Tuple(x) => x.wf(),
            Expr::List(x) => x.wf(),
            Expr::Paren(x) => x.wf(),
            Expr::Literal(x) => x.wf(),
            Expr::Name(x) => x.wf(),
        }
    }

    fn project(e: &SyntaxElement) -> (r: Option<Self>) {
        match e {
            SyntaxElement::Node(n) => {
                proof {
                    lemma_kids(n);
                }
                match n.kind {
                    SyntaxKind::LET_EXPR => Some(Expr::Let(LetExpr(n.clone()))),
                    SyntaxKind::LAMBDA_EXPR => Some(Expr::Lambda(LambdaExpr(n.clone()))),
                    SyntaxKind::IF_EXPR => Some(Expr::If(IfExpr(n.clone()))),
                    SyntaxKind::MATCH_EXPR => Some(Expr::Match(MatchExpr(n.clone()))),
                    SyntaxKind::HANDLE_EXPR => Some(Expr::Handle(HandleBlock(n.clone()))),
                    SyntaxKind::SPAWN_EXPR => Some(Expr::Spawn(SpawnExpr(n.clone()))),
                    SyntaxKind::SEND_EXPR => Some(Expr::Send(SendExpr(n.clone()))),
                    SyntaxKind::REQUEST_EXPR => Some(Expr::Request(RequestExpr(n.clone()))),
                    SyntaxKind::REPLY_EXPR => Some(Expr::Reply(ReplyExpr(n.clone()))),
                    SyntaxKind::CRASH_EXPR => Some(Expr::Crash(CrashExpr(n.clone()))),
                    SyntaxKind::BIN_EXPR => Some(Expr::BinOp(BinOpExpr(n.clone()))),
                    SyntaxKind::APP_EXPR => Some(Expr::App(AppExpr(n.clone()))),
                    SyntaxKind::FIELD_EXPR => Some(Expr::Field(FieldExpr(n.clone()))),
                    SyntaxKind::RECORD_LIT => Some(Expr::Record(RecordLit(n.clone()))),
                    SyntaxKind::TUPLE_LIT => Some(Expr::Tuple(TupleLit(n.clone()))),
                    SyntaxKind::LIST_LIT => Some(Expr::List(ListLit(n.clone()))),
                    SyntaxKind::PAREN_EXPR => Some(Expr::Paren(ParenExpr(n.clone()))),
                    _ => None,
                }
            },
            SyntaxElement::Token(t) => match t.kind {
                SyntaxKind::INT | SyntaxKind::FLOAT | SyntaxKind::STRING => Some(
                    Expr::Literal(Literal(t.clone())),
                ),
                SyntaxKind::IDENT => Some(Expr::Name(NameRef(t.clone()))),
                _ => None,
            },
        }
    }
}

/// Any type expression. A bare name is a token rather than a node.
#[derive(Debug)]
pub enum TypeExpr {
    /// A `AppType`.
    App(AppType),
    /// A `FnType`.
    Fn(FnType),
    /// A `TupleType`.
    Tuple(TupleType),
    /// A `RecordType`.
    Record(RecordType),
    /// A `ParenType`.
    Paren(ParenType),
    /// A named type or type variable.
    Name(NameType),
}

impl View for TypeExpr {
    type V = Tree;

    open spec fn view(&self) -> Tree {
        match self {
            TypeExpr::App(x) => x@,
            TypeExpr::Fn(x) => x@,
            TypeExpr::Tuple(x) => x@,
            TypeExpr::Record(x) => x@,
            TypeExpr::Paren(x) => x@,
            TypeExpr::Name(x) => x@,
        }
    }
}

impl Projection for TypeExpr {
    open spec fn sel() -> Sel {
        Sel::Type
    }

    fn selector() -> (r: Sel) {
        Sel::Type
    }

    open spec fn wf(&self) -> bool {
        match self {
            TypeExpr::App(x) => x.wf(),
            TypeExpr::Fn(x) => x.wf(),
            TypeExpr::Tuple(x) => x.wf(),
            TypeExpr::Record(x) => x.wf(),
            TypeExpr::Paren(x) => x.wf(),
            TypeExpr::Name(x) => x.wf(),
        }
    }

    fn project(e: &SyntaxElement) -> (r: Option<Self>) {
        match e {
            SyntaxElement::Node(n) => {
                proof {
                    lemma_kids(n);
                }
                match n.kind {
                    SyntaxKind::APP_TYPE => Some(TypeExpr::App(AppType(n.clone()))),
                    SyntaxKind::FN_TYPE => Some(TypeExpr::Fn(FnType(n.clone()))),
                    SyntaxKind::TUPLE_TYPE => Some(TypeExpr::Tuple(TupleType(n.clone()))),
                    SyntaxKind::RECORD_TYPE => Some(TypeExpr::Record(RecordType(n.clone()))),
                    SyntaxKind::PAREN_TYPE => Some(TypeExpr::Paren(ParenType(n.clone()))),
                    _ => None,
                }
            },
            SyntaxElement::Token(t) => match t.kind {
                SyntaxKind::IDENT => Some(TypeExpr::Name(NameType(t.clone()))),
                _ => None,
            },
        }
    }
}

impl Expr {
    /// The byte range of the underlying node or token.
    pub open spec fn range(&self) -> (u32, u32) {
        match self {
            Expr::Let(x) => x.range(),
            Expr::Lambda(x) => x.range(),
            Expr::If(x) => x.range(),
            Expr::Match(x) => x.range(),
            Expr::Handle(x) => x.range(),
            Expr::Spawn(x) => x.range(),
            Expr::Send(x) => x.range(),
            Expr::Request(x) => x.range(),
            Expr::Reply(x) => x.range(),
            Expr::Crash(x) => x.range(),
            Expr::BinOp(x) => x.range(),
            Expr::App(x) => x.range(),
            Expr::Field(x) => x.range(),
            Expr::Record(x) => x.range(),
            Expr::Tuple(x) => x.range(),
            Expr::List(x) => x.range(),
            Expr::Paren(x) => x.range(),
            Expr::Literal(x) => x.range(),
            Expr::Name(x) => x.range(),
        }
    }

    /// The underlying node, or `None` for an atomic operand, which is a token.
    pub fn syntax(&self) -> (r: Option<&SyntaxNode>)
        ensures
            r matches Some(n) ==> n@ == self@ && (n.start, n.end) == self.range(),
            r is None <==> (self is Literal || self is Name),
    {
        match self {
            Expr::Let(x) => Some(&x.0),
            Expr::Lambda(x) => Some(&x.0),
            Expr::If(x) => Some(&x.0),
            Expr::Match(x) => Some(&x.0),
            Expr::Handle(x) => Some(&x.0),
            Expr::Spawn(x) => Some(&x.0),
            Expr::Send(x) => Some(&x.0),
            Expr::Request(x) => Some(&x.0),
            Expr::Reply(x) => Some(&x.0),
            Expr::Crash(x) => Some(&x.0),
            Expr::BinOp(x) => Some(&x.0),
            Expr::App(x) => Some(&x.0),
            Expr::Field(x) => Some(&x.0),
            Expr::Record(x) => Some(&x.0),
            Expr::Tuple(x) => Some(&x.0),
            Expr::List(x) => Some(&x.0),
            Expr::Paren(x) => Some(&x.0),
            Expr::Literal(_) => None,
            Expr::Name(_) => None,
        }
    }
}

impl TypeExpr {
    /// The byte range of the underlying node or token.
    pub open spec fn range(&self) -> (u32, u32) {
        match self {
            TypeExpr::App(x) => x.range(),
            TypeExpr::Fn(x) => x.range(),
            TypeExpr::Tuple(x) => x.range(),
            TypeExpr::Record(x) => x.range(),
            TypeExpr::Paren(x) => x.range(),
            TypeExpr::Name(x) => x.range(),
        }
    }

    /// The underlying node, or `None` for an atomic operand, which is a token.
    pub fn syntax(&self) -> (r: Option<&SyntaxNode>)
        ensures
            r matches Some(n) ==> n@ == self@ && (n.start, n.end) == self.range(),
            r is None <==> (self is Name),
    {
        match self {
            TypeExpr::App(x) => Some(&x.0),
            TypeExpr::Fn(x) => Some(&x.0),
            TypeExpr::Tuple(x) => Some(&x.0),
            TypeExpr::Record(x) => Some(&x.0),
            TypeExpr::Paren(x) => Some(&x.0),
            TypeExpr::Name(_) => None,
        }
    }
}

} // verus!
