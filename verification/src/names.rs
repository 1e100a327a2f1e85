//! Module names, CST node keys and spans, and the naming rules of the
//! checker.
use vstd::prelude::*;

use std::cmp::Ordering;
use vstd::std_specs::cmp::{PartialEqSpecImpl, PartialOrdSpecImpl};
use vstd::string::StringSliceAdditionalSpecFns;

use crate::ast::{Expr, TypeExpr};
use crate::diag::Span;
use crate::select::{find_sel, first, lemma_kids, Sel};
use crate::syntax::{elems_tree, SyntaxElement, SyntaxKind, SyntaxNode, SyntaxToken};
use crate::wire::grammar::str_lt;
use crate::wire::schema::{chars_eq, chars_lt};
use crate::wire::text::{chars_of, push_char};

verus! {

// ── module names ────────────────────────────────────────────────

/// The text after the last `.` of `s`, or all of `s` when it has none.
pub open spec fn last_segment_of(s: Seq<char>) -> Seq<char>
    decreases s.len(),
{
    if s.len() == 0 {
        s
    } else if s.last() == '.' {
        Seq::empty()
    } else {
        last_segment_of(s.drop_last()).push(s.last())
    }
}

/// A dotted module name (`Actors.Base`).
#[derive(Debug, Clone, Eq, Ord, Hash)]
pub struct ModuleName(String);

impl PartialEq for ModuleName {
    /// Module names are equal when their dotted texts are.
    fn eq(&self, other: &Self) -> (r: bool) {
        let a = chars_of(self.0.as_str());
        let b = chars_of(other.0.as_str());
        chars_eq(a.as_slice(), b.as_slice())
    }
}

impl PartialEqSpecImpl for ModuleName {
    open spec fn obeys_eq_spec() -> bool {
        true
    }

    open spec fn eq_spec(&self, other: &Self) -> bool {
        self@ == other@
    }
}

impl PartialOrd for ModuleName {
    /// Module names order as their dotted texts, character by character.
    fn partial_cmp(&self, other: &Self) -> (r: Option<Ordering>) {
        let a = chars_of(self.0.as_str());
        let b = chars_of(other.0.as_str());
        if chars_eq(a.as_slice(), b.as_slice()) {
            Some(Ordering::Equal)
        } else if chars_lt(a.as_slice(), b.as_slice()) {
            Some(Ordering::Less)
        } else {
            Some(Ordering::Greater)
        }
    }
}

impl PartialOrdSpecImpl for ModuleName {
    open spec fn obeys_partial_cmp_spec() -> bool {
        true
    }

    open spec fn partial_cmp_spec(&self, other: &Self) -> Option<Ordering> {
        Some(
            if self@ == other@ {
                Ordering::Equal
            } else if str_lt(self@, other@) {
                Ordering::Less
            } else {
                Ordering::Greater
            },
        )
    }
}

impl View for ModuleName {
    type V = Seq<char>;

    closed spec fn view(&self) -> Seq<char> {
        self.0@
    }
}

/// The segment after the last `.` starts right after it.
proof fn lemma_last_segment(s: Seq<char>, j: int)
    requires
        0 <= j <= s.len(),
        j > 0 ==> s[j - 1] == '.',
        forall|k: int| j <= k < s.len() ==> #[trigger] s[k] != '.',
    ensures
        last_segment_of(s) == s.subrange(j, s.len() as int),
    decreases s.len(),
{
    if s.len() > j {
        lemma_last_segment(s.drop_last(), j);
        assert(s.subrange(j, s.len() as int) =~= s.drop_last().subrange(j, s.len() - 1).push(s.last()));
    } else if j > 0 {
        assert(s.subrange(j, s.len() as int) =~= Seq::<char>::empty());
    }
}

impl ModuleName {
    /// Wraps a string as a module name.
    pub fn new(value: String) -> (r: Self)
        ensures
            r@ == value@,
    {
        ModuleName(value)
    }

    /// Borrows the underlying dotted name.
    pub fn as_str(&self) -> (r: &str)
        ensures
            r@ == self@,
    {
        self.0.as_str()
    }

    /// The trailing segment, which is the default qualifier a whole-module
    /// `use` binds (`use Actors.Base` binds `Base.member`).
    pub fn last_segment(&self) -> (r: &str)
        ensures
            r@ == last_segment_of(self@),
    {
        let s = self.0.as_str();
        let cs = chars_of(s);
        let mut j = cs.len();
        while j > 0 && cs[j - 1] != '.'
            invariant
                j <= cs@.len(),
                forall|k: int| j <= k < cs@.len() ==> #[trigger] cs@[k] != '.',
            decreases j,
        {
            j = j - 1;
        }
        proof {
            lemma_last_segment(cs@, j as int);
        }
        s.substring_char(j, cs.len())
    }
}

// ── node keys ───────────────────────────────────────────────────

/// A CST node's identity within one source file: its kind and byte range.
///
/// The kind disambiguates the rare case of a node whose single child
/// covers its full extent.
#[derive(Debug, Clone, Copy, PartialEq, Eq, PartialOrd, Ord, Hash)]
pub struct NodeKey {
    /// The node or token kind.
    kind: SyntaxKind,
    /// Byte offset of the first byte (inclusive).
    start: u32,
    /// Byte offset past the last byte (exclusive).
    end: u32,
}

impl View for NodeKey {
    type V = (SyntaxKind, u32, u32);

    closed spec fn view(&self) -> (SyntaxKind, u32, u32) {
        (self.kind, self.start, self.end)
    }
}

impl NodeKey {
    /// The key of the node or token of kind `kind` spanning the bytes
    /// `start..end`.
    pub fn new(kind: SyntaxKind, start: u32, end: u32) -> (r: Self)
        ensures
            r@ == (kind, start, end),
    {
        NodeKey { kind, start, end }
    }

    /// The key of a CST node.
    pub fn of_node(node: &SyntaxNode) -> (r: Self)
        ensures
            r@ == (node.kind, node.start, node.end),
    {
        NodeKey { kind: node.kind, start: node.start, end: node.end }
    }

    /// The key of a CST token.
    pub fn of_token(token: &SyntaxToken) -> (r: Self)
        ensures
            r@ == (token.kind, token.start, token.end),
    {
        NodeKey { kind: token.kind, start: token.start, end: token.end }
    }

    /// The key of an expression, whichever of node or token backs it.
    pub fn of_expr(expr: &Expr) -> (r: Self)
        ensures
            r@ == (expr@.kind(), expr.range().0, expr.range().1),
    {
        match expr {
            Expr::Literal(lit) => Self::of_token(lit.syntax()),
            Expr::Name(name) => Self::of_token(name.syntax()),
            other => Self::of_node(other.syntax().unwrap()),
        }
    }
}

// ── spans of syntax ─────────────────────────────────────────────

/// The span of the byte range `range` in source file `source_id`.
pub open spec fn span_at(range: (u32, u32), source_id: u32) -> Span {
    Span { start: range.0, end: range.1, source_id }
}

/// The span of a CST node.
pub fn node_span(node: &SyntaxNode, source_id: u32) -> (r: Span)
    ensures
        r == span_at((node.start, node.end), source_id),
{
    Span { start: node.start, end: node.end, source_id }
}

/// The span of a CST token.
pub fn token_span(token: &SyntaxToken, source_id: u32) -> (r: Span)
    ensures
        r == span_at((token.start, token.end), source_id),
{
    Span { start: token.start, end: token.end, source_id }
}

/// The span of an expression, whichever of node or token backs it.
pub fn expr_span(expr: &Expr, source_id: u32) -> (r: Span)
    ensures
        r == span_at(expr.range(), source_id),
{
    match expr {
        Expr::Literal(lit) => token_span(lit.syntax(), source_id),
        Expr::Name(name) => token_span(name.syntax(), source_id),
        other => node_span(other.syntax().unwrap(), source_id),
    }
}

/// The span of a type expression, whichever of node or token backs it.
pub fn type_expr_span(ty: &TypeExpr, source_id: u32) -> (r: Span)
    ensures
        r == span_at(ty.range(), source_id),
{
    match ty {
        TypeExpr::Name(name) => token_span(name.syntax(), source_id),
        other => node_span(other.syntax().unwrap(), source_id),
    }
}

/// The span of the first `IDENT` token directly under `node` (a
/// declaration's or binder's name), or of the whole node when it has
/// none.
pub fn name_token_span(node: &SyntaxNode, source_id: u32) -> (r: Span)
    ensures
        r == span_at(
            match first(node@.kids(), Sel::Token(SyntaxKind::IDENT)) {
                Some(t) => t.range(),
                None => node@.range(),
            },
            source_id,
        ),
{
    proof {
        lemma_kids(node);
        assert(elems_tree(node.children@).skip(0) =~= node@.kids());
    }
    match find_sel(&node.children, 0, Sel::Token(SyntaxKind::IDENT)) {
        Some(i) => match &node.children[i] {
            SyntaxElement::Token(t) => token_span(t, source_id),
            SyntaxElement::Node(n) => {
                assert(false);
                node_span(n, source_id)
            },
        },
        None => node_span(node, source_id),
    }
}

// ── naming rules ────────────────────────────────────────────────

/// Whether byte `b` is an ASCII uppercase letter.
pub open spec fn is_upper(b: u8) -> bool {
    0x41 <= b <= 0x5A
}

/// Whether byte `b` is an ASCII lowercase letter.
pub open spec fn is_lower(b: u8) -> bool {
    0x61 <= b <= 0x7A
}

/// Byte `b` lowercased when it is an ASCII uppercase letter.
pub open spec fn lower_byte(b: u8) -> u8 {
    if is_upper(b) {
        (b + 32) as u8
    } else {
        b
    }
}

/// Whether a `_` goes before byte `i` of a tool name: an uppercase letter
/// that follows a non-uppercase byte, or that ends an acronym run (it
/// follows an uppercase letter and a lowercase letter follows it).
pub open spec fn breaks_before(b: Seq<u8>, i: int) -> bool {
    &&& is_upper(b[i])
    &&& i > 0
    &&& (!is_upper(b[i - 1]) || (i + 1 < b.len() && is_lower(b[i + 1])))
}

/// The generated function name of a tool from the bytes `b[..n]` of its
/// name: each byte lowercased and taken as a character, with a `_` before
/// each word break.
pub open spec fn snake_prefix(b: Seq<u8>, n: int) -> Seq<char>
    decreases n,
{
    if n <= 0 {
        Seq::empty()
    } else {
        let head = snake_prefix(b, n - 1);
        let head = if breaks_before(b, n - 1) {
            head.push('_')
        } else {
            head
        };
        head.push(lower_byte(b[n - 1]) as char)
    }
}

/// The generated function name of a tool: the `PascalCase` tool name in
/// `snake_case`, with acronym runs kept whole (`ReadRepo` gives
/// `read_repo`, `LLMCall` gives `llm_call`).
pub fn tool_fn_name(name: &str) -> (r: String)
    ensures
        r@ == snake_prefix(name.spec_bytes(), name.spec_bytes().len() as int),
{
    let bytes = name.as_bytes();
    let mut out = String::new();
    let mut i: usize = 0;
    while i < bytes.len()
        invariant
            bytes@ == name.spec_bytes(),
            i <= bytes@.len(),
            out@ == snake_prefix(bytes@, i as int),
        decreases bytes@.len() - i,
    {
        let b = bytes[i];
        if 0x41 <= b && b <= 0x5A {
            let after_lower = i > 0 && !(0x41 <= bytes[i - 1] && bytes[i - 1] <= 0x5A);
            let acronym_end = i > 0 && (0x41 <= bytes[i - 1] && bytes[i - 1] <= 0x5A) && i + 1
                < bytes.len() && (0x61 <= bytes[i + 1] && bytes[i + 1] <= 0x7A);
            if after_lower || acronym_end {
                push_char(&mut out, '_');
            }
        }
        let lower: u8 = if 0x41 <= b && b <= 0x5A {
            b + 32
        } else {
            b
        };
        push_char(&mut out, lower as char);
        i = i + 1;
    }
    out
}

/// Whether `c` has the Unicode `Lowercase` property.
pub uninterp spec fn lowercase(c: char) -> bool;

/// Whether `c` has the Unicode `Uppercase` property.
pub uninterp spec fn uppercase(c: char) -> bool;

/// `char::is_lowercase`: whether `c` has the Unicode `Lowercase` derived
/// property; the ASCII letters `a`..`z` have it and `A`..`Z` do not.
#[verifier::external_body]
pub(crate) fn is_lowercase(c: char) -> (r: bool)
    ensures
        r == lowercase(c),
        'a' <= c <= 'z' ==> r,
        'A' <= c <= 'Z' ==> !r,
{
    c.is_lowercase()
}

/// `char::is_uppercase`: whether `c` has the Unicode `Uppercase` derived
/// property; the ASCII letters `A`..`Z` have it and `a`..`z` do not.
#[verifier::external_body]
pub(crate) fn is_uppercase(c: char) -> (r: bool)
    ensures
        r == uppercase(c),
        'A' <= c <= 'Z' ==> r,
        'a' <= c <= 'z' ==> !r,
{
    c.is_uppercase()
}

/// Whether a surface type name is a type variable (lowercase) rather than
/// a constructor (`PascalCase`).
pub fn is_var_name(name: &str) -> (r: bool)
    ensures
        r == (name@.len() > 0 && lowercase(name@[0])),
{
    let cs = chars_of(name);
    cs.len() > 0 && is_lowercase(cs[0])
}

} // verus!
