//! The concrete syntax tree: kinds, tokens, and nodes.
//!
//! A node owns its children in source order; a child is either a nested
//! node or a token carrying its source text. Trivia (whitespace and
//! comments) are ordinary tokens of their own kinds.
use vstd::prelude::*;

verus! {

/// The kind of a syntax node or token.
#[allow(non_camel_case_types)]
#[derive(Clone, Copy, Debug, PartialEq, Eq, Structural, PartialOrd, Ord, Hash)]
pub enum SyntaxKind {
    // ── nodes ──
    SOURCE_FILE,
    MODULE_DECL,
    USE_DECL,
    USE_GROUP,
    FN_DECL,
    TYPE_DECL,
    EFFECT_DECL,
    TOOL_DECL,
    EXTERN_DECL,
    ACTOR_DECL,
    ACTOR_FIELD,
    ACTOR_HANDLER,
    FN_SIG,
    SUPERVISOR_DECL,
    SUPERVISOR_FIELD,
    LET_EXPR,
    LAMBDA_EXPR,
    IF_EXPR,
    MATCH_EXPR,
    HANDLE_EXPR,
    SPAWN_EXPR,
    SEND_EXPR,
    REQUEST_EXPR,
    REPLY_EXPR,
    CRASH_EXPR,
    BIN_EXPR,
    APP_EXPR,
    FIELD_EXPR,
    RECORD_LIT,
    TUPLE_LIT,
    LIST_LIT,
    PAREN_EXPR,
    APP_TYPE,
    FN_TYPE,
    TUPLE_TYPE,
    RECORD_TYPE,
    RECORD_TYPE_FIELD,
    PAREN_TYPE,
    EFFECT_ANN,
    CONSTRUCTOR_PAT,
    TUPLE_PAT,
    LITERAL_PAT,
    WILDCARD_PAT,
    BIND_PAT,
    PARAM,
    PARAM_LIST,
    CONSTRUCTOR,
    FIELD_LIST,
    MATCH_ARM,
    HANDLE_ARM,
    RECORD_FIELD,
    PATH,
    VISIBILITY,
    TYPE_PARAMS,
    TYPE_ARGS,
    RETURN_TYPE,
    TYPE_ANN,
    ERROR,
    // ── tokens ──
    IDENT,
    INT,
    FLOAT,
    STRING,
    MODULE_KW,
    USE_KW,
    FN_KW,
    PUB_KW,
    OPAQUE_KW,
    TYPE_KW,
    EFFECT_KW,
    TOOL_KW,
    EXTERN_KW,
    ACTOR_KW,
    SUPERVISOR_KW,
    LET_KW,
    IN_KW,
    IF_KW,
    THEN_KW,
    ELSE_KW,
    MATCH_KW,
    HANDLE_KW,
    SPAWN_KW,
    SEND_KW,
    REQUEST_KW,
    REPLY_KW,
    CRASH_KW,
    PANIC_KW,
    LAMBDA,
    EQ,
    COLON,
    ARROW,
    COMMA,
    DOT,
    PIPE,
    BANG,
    UNDERSCORE,
    L_PAREN,
    R_PAREN,
    L_BRACE,
    R_BRACE,
    L_BRACKET,
    R_BRACKET,
    L_ANGLE,
    R_ANGLE,
    PLUS,
    MINUS,
    STAR,
    SLASH,
    LT,
    LE,
    GT,
    GE,
    EQ_EQ,
    BANG_EQ,
    ANDAND,
    OROR,
    WHITESPACE,
    LINE_COMMENT,
    BLOCK_COMMENT,
}

/// A leaf of the tree: a kind, the exact source text it covers, and the
/// byte range of that text in the source file.
#[derive(Debug)]
pub struct SyntaxToken {
    /// The token kind.
    pub kind: SyntaxKind,
    /// The source text.
    pub text: String,
    /// Byte offset of the first byte (inclusive).
    pub start: u32,
    /// Byte offset past the last byte (exclusive).
    pub end: u32,
}

/// An interior node: a kind and its children in source order.
#[derive(Debug)]
pub struct SyntaxNode {
    /// The node kind.
    pub kind: SyntaxKind,
    /// Child nodes and tokens, in source order.
    pub children: Vec<SyntaxElement>,
    /// Byte offset of the first byte (inclusive).
    pub start: u32,
    /// Byte offset past the last byte (exclusive).
    pub end: u32,
}

/// A child of a node: a nested node or a token.
#[derive(Debug)]
pub enum SyntaxElement {
    /// A nested node.
    Node(SyntaxNode),
    /// A token.
    Token(SyntaxToken),
}

/// The mathematical view of a tree: a node is its kind, its children's
/// views and its byte range; a token is its kind, its text and its byte
/// range.
pub enum Tree {
    /// A node with its children, in source order, and its byte range.
    Node(SyntaxKind, Seq<Tree>, (u32, u32)),
    /// A token with its text and its byte range.
    Token(SyntaxKind, Seq<char>, (u32, u32)),
}

/// The view of a node.
pub open spec fn node_tree(n: &SyntaxNode) -> Tree
    decreases n, 1nat,
{
    Tree::Node(n.kind, elems_tree(n.children@), (n.start, n.end))
}

/// The views of a sequence of elements.
pub open spec fn elems_tree(s: Seq<SyntaxElement>) -> Seq<Tree>
    decreases s, 0nat,
{
    if s.len() == 0 {
        Seq::empty()
    } else {
        elems_tree(s.drop_last()).push(elem_tree(&s.last()))
    }
}

/// The view of an element.
pub open spec fn elem_tree(e: &SyntaxElement) -> Tree
    decreases e, 0nat,
{
    match e {
        SyntaxElement::Node(n) => node_tree(n),
        SyntaxElement::Token(t) => Tree::Token(t.kind, t.text@, (t.start, t.end)),
    }
}

/// The views of a sequence of elements are taken elementwise.
pub proof fn lemma_elems_tree(s: Seq<SyntaxElement>)
    ensures
        elems_tree(s).len() == s.len(),
        forall|i: int| 0 <= i < s.len() ==> #[trigger] elems_tree(s)[i] == elem_tree(&s[i]),
    decreases s.len(),
{
    if s.len() > 0 {
        lemma_elems_tree(s.drop_last());
        assert forall|i: int| 0 <= i < s.len() implies #[trigger] elems_tree(s)[i] == elem_tree(
            &s[i],
        ) by {
            if i < s.len() - 1 {
                assert(s.drop_last()[i] == s[i]);
            }
        }
    }
}

impl View for SyntaxToken {
    type V = Tree;

    open spec fn view(&self) -> Tree {
        Tree::Token(self.kind, self.text@, (self.start, self.end))
    }
}

impl View for SyntaxNode {
    type V = Tree;

    open spec fn view(&self) -> Tree {
        node_tree(self)
    }
}

impl View for SyntaxElement {
    type V = Tree;

    open spec fn view(&self) -> Tree {
        elem_tree(self)
    }
}

impl Tree {
    /// The kind of a node or token.
    pub open spec fn kind(self) -> SyntaxKind {
        match self {
            Tree::Node(k, _, _) => k,
            Tree::Token(k, _, _) => k,
        }
    }

    /// The byte range a node or token covers.
    pub open spec fn range(self) -> (u32, u32) {
        match self {
            Tree::Node(_, _, r) => r,
            Tree::Token(_, _, r) => r,
        }
    }

    /// The children of a node; empty for a token.
    pub open spec fn kids(self) -> Seq<Tree> {
        match self {
            Tree::Node(_, c, _) => c,
            Tree::Token(_, _, _) => Seq::empty(),
        }
    }
}

impl Clone for SyntaxToken {
    fn clone(&self) -> (r: Self)
        ensures
            r@ == self@,
            r.start == self.start,
            r.end == self.end,
    {
        SyntaxToken { kind: self.kind, text: self.text.clone(), start: self.start, end: self.end }
    }
}

impl Clone for SyntaxNode {
    fn clone(&self) -> (r: Self)
        ensures
            r@ == self@,
            r.start == self.start,
            r.end == self.end,
        decreases self,
    {
        let mut children: Vec<SyntaxElement> = Vec::new();
        let mut i: usize = 0;
        while i < self.children.len()
            invariant
                i <= self.children@.len(),
                children@.len() == i,
                forall|j: int| 0 <= j < i ==> #[trigger] children@[j]@ == self.children@[j]@,
            decreases self.children@.len() - i,
        {
            let c = clone_element(&self.children[i]);
            children.push(c);
            i = i + 1;
        }
        let r = SyntaxNode { kind: self.kind, children, start: self.start, end: self.end };
        assert(r@ == self@) by {
            lemma_elems_tree(r.children@);
            lemma_elems_tree(self.children@);
            assert(r@.kids() == elems_tree(r.children@));
            assert(self@.kids() == elems_tree(self.children@));
            assert(r.children@.len() == self.children@.len());
            assert forall|j: int| 0 <= j < r.children@.len() implies elems_tree(r.children@)[j]
                == elems_tree(self.children@)[j] by {
                assert(r.children@[j]@ == self.children@[j]@);
            }
            assert(r@.kids() =~= self@.kids());
        }
        r
    }
}

fn clone_element(e: &SyntaxElement) -> (r: SyntaxElement)
    ensures
        r@ == e@,
    decreases e,
{
    match e {
        SyntaxElement::Node(n) => SyntaxElement::Node(n.clone()),
        SyntaxElement::Token(t) => SyntaxElement::Token(t.clone()),
    }
}

impl Clone for SyntaxElement {
    fn clone(&self) -> (r: Self)
        ensures
            r@ == self@,
    {
        clone_element(self)
    }
}

} // verus!
