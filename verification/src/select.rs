//! Selecting children of a syntax node: which children a projection picks,
//! and where in the child list a keyword or punctuation token stands.
//!
//! Every selection is stated over the mathematical tree view: [`pick`] keeps
//! the selected children in order, [`first`] is the first of them, [`after`]
//! and [`upto`] split a child list at the first element of a kind, and
//! [`flat`] concatenates the children of every child node of a kind.
use vstd::prelude::*;

use crate::syntax::{lemma_elems_tree, SyntaxElement, SyntaxKind, SyntaxNode, Tree};

verus! {

/// What a projection selects among a node's children.
#[derive(Clone, Copy, Debug, PartialEq, Eq, Structural)]
pub enum Sel {
    /// A child node of the given kind.
    Node(SyntaxKind),
    /// A child token of the given kind.
    Token(SyntaxKind),
    /// A declaration node.
    Decl,
    /// An expression: an expression node, or a literal or name token.
    Expr,
    /// A type expression: a type node, or a name token.
    Type,
    /// A pattern node.
    Pattern,
    /// A token that is not whitespace or a comment.
    NonTrivia,
    /// A binary-operator token.
    Binop,
    /// An integer, float, or string literal token.
    Literal,
}

/// Whether `k` is the kind of a top-level declaration.
pub open spec fn is_decl_kind(k: SyntaxKind) -> bool {
    ||| k == SyntaxKind::MODULE_DECL
    ||| k == SyntaxKind::USE_DECL
    ||| k == SyntaxKind::FN_DECL
    ||| k == SyntaxKind::TYPE_DECL
    ||| k == SyntaxKind::EFFECT_DECL
    ||| k == SyntaxKind::TOOL_DECL
    ||| k == SyntaxKind::EXTERN_DECL
    ||| k == SyntaxKind::ACTOR_DECL
    ||| k == SyntaxKind::SUPERVISOR_DECL
}

/// Whether `k` is the kind of an expression node.
pub open spec fn is_expr_node_kind(k: SyntaxKind) -> bool {
    ||| k == SyntaxKind::LET_EXPR
    ||| k == SyntaxKind::LAMBDA_EXPR
    ||| k == SyntaxKind::IF_EXPR
    ||| k == SyntaxKind::MATCH_EXPR
    ||| k == SyntaxKind::HANDLE_EXPR
    ||| k == SyntaxKind::SPAWN_EXPR
    ||| k == SyntaxKind::SEND_EXPR
    ||| k == SyntaxKind::REQUEST_EXPR
    ||| k == SyntaxKind::REPLY_EXPR
    ||| k == SyntaxKind::CRASH_EXPR
    ||| k == SyntaxKind::BIN_EXPR
    ||| k == SyntaxKind::APP_EXPR
    ||| k == SyntaxKind::FIELD_EXPR
    ||| k == SyntaxKind::RECORD_LIT
    ||| k == SyntaxKind::TUPLE_LIT
    ||| k == SyntaxKind::LIST_LIT
    ||| k == SyntaxKind::PAREN_EXPR
}

/// Whether `k` is the kind of a literal token.
pub open spec fn is_literal_kind(k: SyntaxKind) -> bool {
    k == SyntaxKind::INT || k == SyntaxKind::FLOAT || k == SyntaxKind::STRING
}

/// Whether `k` is the kind of a type-expression node.
pub open spec fn is_type_node_kind(k: SyntaxKind) -> bool {
    ||| k == SyntaxKind::APP_TYPE
    ||| k == SyntaxKind::FN_TYPE
    ||| k == SyntaxKind::TUPLE_TYPE
    ||| k == SyntaxKind::RECORD_TYPE
    ||| k == SyntaxKind::PAREN_TYPE
}

/// Whether `k` is the kind of a pattern node.
pub open spec fn is_pattern_kind(k: SyntaxKind) -> bool {
    ||| k == SyntaxKind::CONSTRUCTOR_PAT
    ||| k == SyntaxKind::TUPLE_PAT
    ||| k == SyntaxKind::LITERAL_PAT
    ||| k == SyntaxKind::WILDCARD_PAT
    ||| k == SyntaxKind::BIND_PAT
}

/// Whether `k` is the kind of a binary-operator token.
pub open spec fn is_binop_kind(k: SyntaxKind) -> bool {
    ||| k == SyntaxKind::PLUS
    ||| k == SyntaxKind::MINUS
    ||| k == SyntaxKind::STAR
    ||| k == SyntaxKind::SLASH
    ||| k == SyntaxKind::LT
    ||| k == SyntaxKind::LE
    ||| k == SyntaxKind::GT
    ||| k == SyntaxKind::GE
    ||| k == SyntaxKind::EQ_EQ
    ||| k == SyntaxKind::BANG_EQ
    ||| k == SyntaxKind::ANDAND
    ||| k == SyntaxKind::OROR
}

/// Whether `k` is the kind of a trivia token: whitespace or a comment.
pub open spec fn is_trivia_kind(k: SyntaxKind) -> bool {
    k == SyntaxKind::WHITESPACE || k == SyntaxKind::LINE_COMMENT || k == SyntaxKind::BLOCK_COMMENT
}

/// Whether the selector `p` picks the child `t`.
pub open spec fn selects(p: Sel, t: Tree) -> bool {
    match p {
        Sel::Node(k) => t is Node && t.kind() == k,
        Sel::Token(k) => t is Token && t.kind() == k,
        Sel::Decl => t is Node && is_decl_kind(t.kind()),
        Sel::Expr => (t is Node && is_expr_node_kind(t.kind())) || (t is Token && (is_literal_kind(
            t.kind(),
        ) || t.kind() == SyntaxKind::IDENT)),
        Sel::Type => (t is Node && is_type_node_kind(t.kind())) || (t is Token && t.kind()
            == SyntaxKind::IDENT),
        Sel::Pattern => t is Node && is_pattern_kind(t.kind()),
        Sel::NonTrivia => t is Token && !is_trivia_kind(t.kind()),
        Sel::Binop => t is Token && is_binop_kind(t.kind()),
        Sel::Literal => t is Token && is_literal_kind(t.kind()),
    }
}

/// The children `p` selects, in order.
pub open spec fn pick(s: Seq<Tree>, p: Sel) -> Seq<Tree>
    decreases s.len(),
{
    if s.len() == 0 {
        Seq::empty()
    } else {
        let rest = pick(s.drop_last(), p);
        if selects(p, s.last()) {
            rest.push(s.last())
        } else {
            rest
        }
    }
}

/// The first child `p` selects.
pub open spec fn first(s: Seq<Tree>, p: Sel) -> Option<Tree>
    decreases s.len(),
{
    if s.len() == 0 {
        None
    } else if selects(p, s[0]) {
        Some(s[0])
    } else {
        first(s.drop_first(), p)
    }
}

/// The children after the first child of kind `k` (node or token); empty
/// when no child has that kind.
pub open spec fn after(s: Seq<Tree>, k: SyntaxKind) -> Seq<Tree>
    decreases s.len(),
{
    if s.len() == 0 {
        Seq::empty()
    } else if s[0].kind() == k {
        s.drop_first()
    } else {
        after(s.drop_first(), k)
    }
}

/// The children before the first child of kind `k`; all of them when no
/// child has that kind.
pub open spec fn upto(s: Seq<Tree>, k: SyntaxKind) -> Seq<Tree>
    decreases s.len(),
{
    if s.len() == 0 {
        Seq::empty()
    } else if s[0].kind() == k {
        Seq::empty()
    } else {
        seq![s[0]] + upto(s.drop_first(), k)
    }
}

/// The children of every child node of kind `k`, concatenated in order.
pub open spec fn flat(s: Seq<Tree>, k: SyntaxKind) -> Seq<Tree>
    decreases s.len(),
{
    if s.len() == 0 {
        Seq::empty()
    } else {
        let rest = flat(s.drop_last(), k);
        if s.last() is Node && s.last().kind() == k {
            rest + s.last().kids()
        } else {
            rest
        }
    }
}

/// The text of a token; empty for a node.
pub open spec fn text_of(t: Tree) -> Seq<char> {
    match t {
        Tree::Token(_, text, _) => text,
        Tree::Node(_, _, _) => Seq::empty(),
    }
}

/// The texts of a sequence of tokens.
pub open spec fn texts(s: Seq<Tree>) -> Seq<Seq<char>> {
    Seq::new(s.len(), |i: int| text_of(s[i]))
}

/// The text of the first child `p` selects, if any.
pub open spec fn first_text(s: Seq<Tree>, p: Sel) -> Option<Seq<char>> {
    match first(s, p) {
        Some(t) => Some(text_of(t)),
        None => None,
    }
}

/// The views of a node's children.
pub open spec fn kids_of(n: &SyntaxNode) -> Seq<Tree> {
    n@.kids()
}

/// The view of a node's children is elementwise.
pub proof fn lemma_kids(n: &SyntaxNode)
    ensures
        n@ is Node,
        n@.kind() == n.kind,
        kids_of(n).len() == n.children@.len(),
        forall|i: int| 0 <= i < n.children@.len() ==> #[trigger] kids_of(n)[i] == n.children@[i]@,
{
    lemma_elems_tree(n.children@);
}

/// Whether `p` selects the element `e`.
pub fn select(p: Sel, e: &SyntaxElement) -> (r: bool)
    ensures
        r == selects(p, e@),
{
    match e {
        SyntaxElement::Node(n) => {
            proof {
                lemma_kids(n);
            }
            let k = n.kind;
            match p {
                Sel::Node(want) => k == want,
                Sel::Decl => is_decl(k),
                Sel::Expr => is_expr_node(k),
                Sel::Type => is_type_node(k),
                Sel::Pattern => is_pattern(k),
                _ => false,
            }
        },
        SyntaxElement::Token(t) => {
            let k = t.kind;
            match p {
                Sel::Token(want) => k == want,
                Sel::Expr => is_literal(k) || k == SyntaxKind::IDENT,
                Sel::Type => k == SyntaxKind::IDENT,
                Sel::NonTrivia => !is_trivia(k),
                Sel::Binop => is_binop(k),
                Sel::Literal => is_literal(k),
                _ => false,
            }
        },
    }
}

/// The kind of an element.
pub fn element_kind(e: &SyntaxElement) -> (r: SyntaxKind)
    ensures
        r == e@.kind(),
{
    match e {
        SyntaxElement::Node(n) => {
            proof {
                lemma_kids(n);
            }
            n.kind
        },
        SyntaxElement::Token(t) => t.kind,
    }
}

/// Whether `k` is a declaration kind.
pub fn is_decl(k: SyntaxKind) -> (r: bool)
    ensures
        r == is_decl_kind(k),
{
    match k {
        SyntaxKind::MODULE_DECL | SyntaxKind::USE_DECL | SyntaxKind::FN_DECL
        | SyntaxKind::TYPE_DECL | SyntaxKind::EFFECT_DECL | SyntaxKind::TOOL_DECL
        | SyntaxKind::EXTERN_DECL | SyntaxKind::ACTOR_DECL | SyntaxKind::SUPERVISOR_DECL => true,
        _ => false,
    }
}

/// Whether `k` is an expression-node kind.
pub fn is_expr_node(k: SyntaxKind) -> (r: bool)
    ensures
        r == is_expr_node_kind(k),
{
    match k {
        SyntaxKind::LET_EXPR | SyntaxKind::LAMBDA_EXPR | SyntaxKind::IF_EXPR
        | SyntaxKind::MATCH_EXPR | SyntaxKind::HANDLE_EXPR | SyntaxKind::SPAWN_EXPR
        | SyntaxKind::SEND_EXPR | SyntaxKind::REQUEST_EXPR | SyntaxKind::REPLY_EXPR
        | SyntaxKind::CRASH_EXPR | SyntaxKind::BIN_EXPR | SyntaxKind::APP_EXPR
        | SyntaxKind::FIELD_EXPR | SyntaxKind::RECORD_LIT | SyntaxKind::TUPLE_LIT
        | SyntaxKind::LIST_LIT | SyntaxKind::PAREN_EXPR => true,
        _ => false,
    }
}

/// Whether `k` is a literal-token kind.
pub fn is_literal(k: SyntaxKind) -> (r: bool)
    ensures
        r == is_literal_kind(k),
{
    match k {
        SyntaxKind::INT | SyntaxKind::FLOAT | SyntaxKind::STRING => true,
        _ => false,
    }
}

/// Whether `k` is a type-node kind.
pub fn is_type_node(k: SyntaxKind) -> (r: bool)
    ensures
        r == is_type_node_kind(k),
{
    match k {
        SyntaxKind::APP_TYPE | SyntaxKind::FN_TYPE | SyntaxKind::TUPLE_TYPE
        | SyntaxKind::RECORD_TYPE | SyntaxKind::PAREN_TYPE => true,
        _ => false,
    }
}

/// Whether `k` is a pattern kind.
pub fn is_pattern(k: SyntaxKind) -> (r: bool)
    ensures
        r == is_pattern_kind(k),
{
    match k {
        SyntaxKind::CONSTRUCTOR_PAT | SyntaxKind::TUPLE_PAT | SyntaxKind::LITERAL_PAT
        | SyntaxKind::WILDCARD_PAT | SyntaxKind::BIND_PAT => true,
        _ => false,
    }
}

/// Whether `k` is a binary-operator token kind.
pub fn is_binop(k: SyntaxKind) -> (r: bool)
    ensures
        r == is_binop_kind(k),
{
    match k {
        SyntaxKind::PLUS | SyntaxKind::MINUS | SyntaxKind::STAR | SyntaxKind::SLASH
        | SyntaxKind::LT | SyntaxKind::LE | SyntaxKind::GT | SyntaxKind::GE | SyntaxKind::EQ_EQ
        | SyntaxKind::BANG_EQ | SyntaxKind::ANDAND | SyntaxKind::OROR => true,
        _ => false,
    }
}

/// Whether `k` is trivia: whitespace or a comment.
pub fn is_trivia(k: SyntaxKind) -> (r: bool)
    ensures
        r == is_trivia_kind(k),
{
    match k {
        SyntaxKind::WHITESPACE | SyntaxKind::LINE_COMMENT | SyntaxKind::BLOCK_COMMENT => true,
        _ => false,
    }
}

/// Taking one more element of a sequence extends `pick` by that element
/// when it is selected.
pub proof fn lemma_pick_step(s: Seq<Tree>, i: int, p: Sel)
    requires
        0 <= i < s.len(),
    ensures
        pick(s.take(i + 1), p) == if selects(p, s[i]) {
            pick(s.take(i), p).push(s[i])
        } else {
            pick(s.take(i), p)
        },
{
    assert(s.take(i + 1).drop_last() =~= s.take(i));
}

/// `first` skips over unselected leading elements.
pub proof fn lemma_first_step(s: Seq<Tree>, i: int, p: Sel)
    requires
        0 <= i < s.len(),
        !selects(p, s[i]),
    ensures
        first(s.skip(i), p) == first(s.skip(i + 1), p),
{
    assert(s.skip(i).drop_first() =~= s.skip(i + 1));
}

/// The index of the first child at or after `from` that `p` selects, if any.
pub fn find_sel(children: &Vec<SyntaxElement>, from: usize, p: Sel) -> (r: Option<usize>)
    requires
        from <= children@.len(),
    ensures
        first(crate::syntax::elems_tree(children@).skip(from as int), p) == match r {
            Some(i) => Some(children@[i as int]@),
            None => None,
        },
        r matches Some(i) ==> from <= i < children@.len() && selects(p, children@[i as int]@),
{
    let ghost s = crate::syntax::elems_tree(children@);
    proof {
        lemma_elems_tree(children@);
    }
    let mut i = from;
    while i < children.len()
        invariant
            from <= i <= children@.len(),
            s == crate::syntax::elems_tree(children@),
            s.len() == children@.len(),
            forall|j: int| 0 <= j < s.len() ==> #[trigger] s[j] == children@[j]@,
            first(s.skip(from as int), p) == first(s.skip(i as int), p),
        decreases children@.len() - i,
    {
        if select(p, &children[i]) {
            assert(s.skip(i as int)[0] == s[i as int]);
            assert(s.skip(i as int).len() > 0);
            assert(selects(p, s.skip(i as int)[0]));
            assert(first(s.skip(i as int), p) == Some(s[i as int]));
            return Some(i);
        }
        proof {
            lemma_first_step(s, i as int, p);
        }
        i = i + 1;
    }
    assert(s.skip(i as int).len() == 0);
    None
}

/// The index of the first child at or after `from` whose kind is `k`, or
/// the child count when there is none.
pub fn find_kind(children: &Vec<SyntaxElement>, from: usize, k: SyntaxKind) -> (r: usize)
    requires
        from <= children@.len(),
    ensures
        from <= r <= children@.len(),
        after(crate::syntax::elems_tree(children@).skip(from as int), k) == if r < children@.len() {
            crate::syntax::elems_tree(children@).skip(r + 1)
        } else {
            Seq::empty()
        },
        upto(crate::syntax::elems_tree(children@).skip(from as int), k)
            == crate::syntax::elems_tree(children@).subrange(from as int, r as int),
{
    let ghost s = crate::syntax::elems_tree(children@);
    proof {
        lemma_elems_tree(children@);
    }
    let mut i = from;
    while i < children.len()
        invariant
            from <= i <= children@.len(),
            s == crate::syntax::elems_tree(children@),
            s.len() == children@.len(),
            forall|j: int| 0 <= j < s.len() ==> #[trigger] s[j] == children@[j]@,
            after(s.skip(from as int), k) == after(s.skip(i as int), k),
            upto(s.skip(from as int), k) == s.subrange(from as int, i as int) + upto(
                s.skip(i as int),
                k,
            ),
        decreases children@.len() - i,
    {
        if element_kind(&children[i]) == k {
            assert(s.skip(i as int)[0] == s[i as int]);
            assert(s.skip(i as int).len() > 0);
            assert(after(s.skip(i as int), k) == s.skip(i as int).drop_first());
            assert(upto(s.skip(i as int), k) == Seq::<Tree>::empty());
            assert(s.skip(i as int).drop_first() =~= s.skip(i + 1));
            assert(s.subrange(from as int, i as int) + Seq::<Tree>::empty() =~= s.subrange(
                from as int,
                i as int,
            ));
            return i;
        }
        assert(s.skip(i as int)[0] == s[i as int]);
        assert(s.skip(i as int).drop_first() =~= s.skip(i + 1));
        assert(s.subrange(from as int, i as int) + (seq![s[i as int]] + upto(
            s.skip(i + 1),
            k,
        )) =~= s.subrange(from as int, i + 1) + upto(s.skip(i + 1), k));
        i = i + 1;
    }
    assert(s.skip(i as int).len() == 0);
    assert(s.subrange(from as int, i as int) + Seq::<Tree>::empty() =~= s.subrange(
        from as int,
        i as int,
    ));
    i
}

} // verus!
