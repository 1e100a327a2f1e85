//! Declaration namespaces: the checker's record of where each name was
//! first defined, and the duplicate-definition diagnostics it reports.
//!
//! Types and values are separate namespaces, so a type and a value may
//! share a name (`type Email = Email(String)`); a tool occupies both, its
//! marker type and its generated function.
use vstd::prelude::*;

use vstd::utf8::encode_utf8;

use crate::ast::{opt_str, views, ActorDecl, AstNode, Decl, Projection, SourceFile, TypeExpr};
use crate::checker::{actor_field, field_named, note_duplicate};
use crate::diag::{diag_v, diags_v, CheckCode, CheckDiagnostic, DiagV, Severity, Span};
use crate::names::{name_token_span, snake_prefix, span_at, token_span, tool_fn_name};
use crate::registry::keyed;
use crate::select::{after, find_sel, first, first_text, lemma_kids, pick, text_of, upto, Sel};
use crate::syntax::{elems_tree, SyntaxElement, SyntaxKind, SyntaxNode, Tree};

verus! {

// ── the fold over definitions ───────────────────────────────────

/// A namespace.
#[derive(Debug, Clone, Copy, PartialEq, Eq, Structural)]
pub enum Space {
    /// Functions, externs, and constructors.
    Value,
    /// Types and tool marker types.
    Type,
}

/// The view of the namespaces: the diagnostics so far, and where each
/// name of each namespace was first defined.
pub struct NamesV {
    /// Duplicate-definition diagnostics, in report order.
    pub diags: Seq<DiagV>,
    /// First definitions in the value namespace.
    pub values: Map<Seq<char>, Span>,
    /// First definitions in the type namespace.
    pub types: Map<Seq<char>, Span>,
}

/// The message for a second definition of `name` in `space`.
pub open spec fn dup_message(space: Space, name: Seq<char>) -> Seq<char> {
    match space {
        Space::Value => "duplicate definition of `"@ + name + "`"@,
        Space::Type => "duplicate type `"@ + name + "`"@,
    }
}

/// The code for a second definition in `space`.
pub open spec fn dup_code(space: Space) -> CheckCode {
    match space {
        Space::Value => CheckCode::C0017,
        Space::Type => CheckCode::C0018,
    }
}

/// The first definitions of `space`.
pub open spec fn firsts(st: NamesV, space: Space) -> Map<Seq<char>, Span> {
    match space {
        Space::Value => st.values,
        Space::Type => st.types,
    }
}

/// Defining `name` in `space` at `span`: recorded when new, reported
/// against the first definition otherwise.
pub open spec fn define(st: NamesV, space: Space, name: Seq<char>, span: Span) -> NamesV {
    if firsts(st, space).contains_key(name) {
        NamesV {
            diags: st.diags.push(
                DiagV {
                    code: dup_code(space),
                    severity: Severity::Error,
                    span,
                    message: dup_message(space, name),
                    related: seq![(firsts(st, space)[name], "first defined here"@)],
                },
            ),
            ..st
        }
    } else {
        match space {
            Space::Value => NamesV { values: st.values.insert(name, span), ..st },
            Space::Type => NamesV { types: st.types.insert(name, span), ..st },
        }
    }
}

/// Defining each of `defs` in order.
pub open spec fn define_all(st: NamesV, defs: Seq<(Space, Seq<char>, Span)>) -> NamesV
    decreases defs.len(),
{
    if defs.len() == 0 {
        st
    } else {
        let d = defs.last();
        define(define_all(st, defs.drop_last()), d.0, d.1, d.2)
    }
}

/// Defining one more is defining it after the others.
pub proof fn lemma_define_all_push(st: NamesV, defs: Seq<(Space, Seq<char>, Span)>, d: (Space, Seq<char>, Span))
    ensures
        define_all(st, defs.push(d)) == define(define_all(st, defs), d.0, d.1, d.2),
        define_all(st, Seq::empty()) == st,
{
    assert(defs.push(d).drop_last() =~= defs);
}

/// Defining `a` then `b` is defining `a + b`.
pub proof fn lemma_define_all_add(st: NamesV, a: Seq<(Space, Seq<char>, Span)>, b: Seq<(Space, Seq<char>, Span)>)
    ensures
        define_all(define_all(st, a), b) == define_all(st, a + b),
    decreases b.len(),
{
    if b.len() == 0 {
        assert(a + b =~= a);
    } else {
        lemma_define_all_add(st, a, b.drop_last());
        assert((a + b).drop_last() =~= a + b.drop_last());
    }
}

// ── what each declaration defines ───────────────────────────────

/// The span of a declaration's name: its first `IDENT` token, or the
/// whole declaration when it has none.
pub open spec fn name_span(t: Tree, id: u32) -> Span {
    span_at(
        match first(t.kids(), Sel::Token(SyntaxKind::IDENT)) {
            Some(x) => x.range(),
            None => t.range(),
        },
        id,
    )
}

/// The function a tool named `name` generates.
pub open spec fn tool_fn(name: Seq<char>) -> Seq<char> {
    snake_prefix(encode_utf8(name), encode_utf8(name).len() as int)
}

/// The definitions of `space` made by the named trees `ts`, in order.
pub open spec fn named_defs(ts: Seq<Tree>, space: Space, id: u32) -> Seq<(Space, Seq<char>, Span)>
    decreases ts.len(),
{
    if ts.len() == 0 {
        Seq::empty()
    } else {
        let rest = named_defs(ts.drop_last(), space, id);
        let t = ts.last();
        match first_text(t.kids(), Sel::Token(SyntaxKind::IDENT)) {
            Some(n) => rest.push((space, n, name_span(t, id))),
            None => rest,
        }
    }
}

/// The definitions one declaration makes: a function or extern its value
/// name; a type its type name and its constructors' value names; a tool
/// its marker type and its generated function.
pub open spec fn decl_defs(d: Tree, id: u32) -> Seq<(Space, Seq<char>, Span)> {
    let k = d.kind();
    if k == SyntaxKind::FN_DECL || k == SyntaxKind::EXTERN_DECL {
        named_defs(seq![d], Space::Value, id)
    } else if k == SyntaxKind::TYPE_DECL {
        named_defs(seq![d], Space::Type, id) + named_defs(
            pick(d.kids(), Sel::Node(SyntaxKind::CONSTRUCTOR)),
            Space::Value,
            id,
        )
    } else if k == SyntaxKind::TOOL_DECL {
        match first_text(d.kids(), Sel::Token(SyntaxKind::IDENT)) {
            Some(n) => seq![(Space::Type, n, name_span(d, id)), (Space::Value, tool_fn(n), name_span(d, id))],
            None => Seq::empty(),
        }
    } else {
        Seq::empty()
    }
}

/// An extern defines its name in the value namespace, as a function does:
/// a file declaring a function and then an extern of the same name, where
/// that name was not yet defined, gets exactly one C0017 duplicate
/// definition, at the extern, related to the function.
pub proof fn law_fn_and_extern_collide(st: NamesV, f: Tree, e: Tree, n: Seq<char>, id: u32)
    requires
        f.kind() == SyntaxKind::FN_DECL,
        e.kind() == SyntaxKind::EXTERN_DECL,
        first_text(f.kids(), Sel::Token(SyntaxKind::IDENT)) == Some(n),
        first_text(e.kids(), Sel::Token(SyntaxKind::IDENT)) == Some(n),
        !st.values.contains_key(n),
    ensures
        define_all(st, file_defs(seq![f, e], id)).diags == st.diags.push(
            DiagV {
                code: CheckCode::C0017,
                severity: Severity::Error,
                span: name_span(e, id),
                message: "duplicate definition of `"@ + n + "`"@,
                related: seq![(name_span(f, id), "first defined here"@)],
            },
        ),
        define_all(st, file_defs(seq![f, e], id)).values == st.values.insert(n, name_span(f, id)),
{
    let ds = seq![f, e];
    assert(ds.drop_last() =~= seq![f]);
    assert(seq![f].drop_last() =~= Seq::<Tree>::empty());
    assert(seq![f].last() == f);
    assert(seq![f].drop_last().len() == 0);
    let df = seq![(Space::Value, n, name_span(f, id))];
    let de = seq![(Space::Value, n, name_span(e, id))];
    assert(named_defs(seq![f], Space::Value, id) =~= df) by {
        assert(named_defs(Seq::<Tree>::empty(), Space::Value, id) == Seq::<(Space, Seq<char>, Span)>::empty());
    }
    assert(named_defs(seq![e], Space::Value, id) =~= de) by {
        assert(seq![e].drop_last() =~= Seq::<Tree>::empty());
        assert(named_defs(Seq::<Tree>::empty(), Space::Value, id) == Seq::<(Space, Seq<char>, Span)>::empty());
    }
    assert(file_defs(Seq::<Tree>::empty(), id) == Seq::<(Space, Seq<char>, Span)>::empty());
    assert(file_defs(seq![f], id) =~= df);
    assert(file_defs(ds, id) =~= df + de);
    lemma_define_all_push(st, Seq::empty(), df[0]);
    assert(Seq::<(Space, Seq<char>, Span)>::empty().push(df[0]) =~= df);
    lemma_define_all_push(st, df, de[0]);
    assert(df.push(de[0]) =~= df + de);
}

/// The definitions the declarations `ds` make, in source order.
pub open spec fn file_defs(ds: Seq<Tree>, id: u32) -> Seq<(Space, Seq<char>, Span)>
    decreases ds.len(),
{
    if ds.len() == 0 {
        Seq::empty()
    } else {
        file_defs(ds.drop_last(), id) + decl_defs(ds.last(), id)
    }
}

/// The definitions an actor's `message` field makes: a bare message type
/// name in the type namespace, and its constructors in the value one.
pub open spec fn actor_defs(actor: Tree, id: u32) -> Seq<(Space, Seq<char>, Span)> {
    let fields = pick(actor.kids(), Sel::Node(SyntaxKind::ACTOR_FIELD));
    match field_named(fields, "message"@, 0) {
        None => Seq::empty(),
        Some(k) => {
            let f = fields[k];
            let ty_defs = match first(upto(after(f.kids(), SyntaxKind::COLON), SyntaxKind::EQ), Sel::Type) {
                Some(t) => if t is Token {
                    seq![(Space::Type, text_of(t), span_at(t.range(), id))]
                } else {
                    Seq::empty()
                },
                None => Seq::empty(),
            };
            ty_defs + named_defs(pick(f.kids(), Sel::Node(SyntaxKind::CONSTRUCTOR)), Space::Value, id)
        },
    }
}

// ── the record ──────────────────────────────────────────────────

/// Where each name was first defined, per namespace, and the duplicate
/// definitions reported so far.
#[derive(Debug)]
pub struct DeclNames {
    /// Duplicate-definition diagnostics, in report order.
    pub diags: Vec<CheckDiagnostic>,
    /// First definitions in the value namespace.
    value_spans: Vec<(String, Span)>,
    /// First definitions in the type namespace.
    type_spans: Vec<(String, Span)>,
}

impl View for DeclNames {
    type V = NamesV;

    closed spec fn view(&self) -> NamesV {
        NamesV { diags: diags_v(self.diags@), values: keyed(self.value_spans@), types: keyed(self.type_spans@) }
    }
}

impl DeclNames {
    /// No definitions yet.
    pub fn new() -> (r: Self)
        ensures
            r@ == (NamesV { diags: Seq::empty(), values: Map::empty(), types: Map::empty() }),
    {
        let r = DeclNames { diags: Vec::new(), value_spans: Vec::new(), type_spans: Vec::new() };
        proof {
            assert(diags_v(r.diags@) =~= Seq::<DiagV>::empty());
        }
        r
    }

    /// Records a definition of `name` in `space` at `span`, reporting a
    /// duplicate against the first occurrence.
    pub fn define(&mut self, space: Space, name: &str, span: Span)
        ensures
            final(self)@ == define(old(self)@, space, name@, span),
    {
        let mut message = String::new();
        match space {
            Space::Value => {
                message.append("duplicate definition of `");
                message.append(name);
                message.append("`");
            },
            Space::Type => {
                message.append("duplicate type `");
                message.append(name);
                message.append("`");
            },
        }
        proof {
            assert(message@ =~= dup_message(space, name@));
        }
        let ghost d0 = self.diags@;
        let code = match space {
            Space::Value => CheckCode::C0017,
            Space::Type => CheckCode::C0018,
        };
        match space {
            Space::Value => note_duplicate(&mut self.diags, &mut self.value_spans, code, name, span, message),
            Space::Type => note_duplicate(&mut self.diags, &mut self.type_spans, code, name, span, message),
        }
        proof {
            if firsts(old(self)@, space).contains_key(name@) {
                let d = self.diags@.last();
                assert(diag_v(d).related =~= seq![(firsts(old(self)@, space)[name@], "first defined here"@)]);
                assert(diags_v(self.diags@) =~= diags_v(d0).push(diag_v(d)));
            } else {
                assert(diags_v(self.diags@) =~= diags_v(d0));
            }
            assert(self@ == define(old(self)@, space, name@, span));
        }
    }

    /// Records a value-namespace definition at `span`, reporting a duplicate
    /// (C0017) against the first occurrence.
    pub fn note_value_name(&mut self, name: &str, span: Span)
        ensures
            final(self)@ == define(old(self)@, Space::Value, name@, span),
    {
        self.define(Space::Value, name, span)
    }

    /// Records a type-namespace definition at `span`, reporting a duplicate
    /// (C0018) against the first occurrence.
    pub fn note_type_name(&mut self, name: &str, span: Span)
        ensures
            final(self)@ == define(old(self)@, Space::Type, name@, span),
    {
        self.define(Space::Type, name, span)
    }

    /// Defines in `space` the name of each of `nodes` that has one, at its
    /// name's span.
    fn define_named<N: AstNode>(&mut self, nodes: &Vec<N>, space: Space, id: u32)
        ensures
            final(self)@ == define_all(old(self)@, named_defs(views(nodes@), space, id)),
    {
        let mut i: usize = 0;
        proof {
            assert(views(nodes@).take(0) =~= Seq::<Tree>::empty());
        }
        while i < nodes.len()
            invariant
                i <= nodes@.len(),
                self@ == define_all(old(self)@, named_defs(views(nodes@).take(i as int), space, id)),
            decreases nodes@.len() - i,
        {
            let ghost before = self@;
            let ghost t = nodes@[i as int]@;
            proof {
                assert(views(nodes@).take(i + 1).drop_last() =~= views(nodes@).take(i as int));
                assert(views(nodes@).take(i + 1).last() == t);
            }
            let ghost x = named_defs(views(nodes@).take(i as int), space, id);
            let node = nodes[i].syntax();
            if let Some(name) = first_ident(node) {
                let span = name_token_span(node, id);
                self.define(space, name, span);
                proof {
                    lemma_define_all_push(old(self)@, x, (space, name@, span));
                }
            }
            i = i + 1;
        }
        proof {
            assert(views(nodes@).take(i as int) =~= views(nodes@));
        }
    }

    /// Walks declarations in source order, recording each name in its
    /// namespace and reporting collisions.
    pub fn detect_duplicates(&mut self, file: &SourceFile, source_id: u32)
        ensures
            final(self)@ == define_all(old(self)@, file_defs(pick(file@.kids(), Sel::Decl), source_id)),
    {
        let decls = file.declarations();
        let ghost ds = pick(file@.kids(), Sel::Decl);
        let mut i: usize = 0;
        proof {
            assert(ds.take(0) =~= Seq::<Tree>::empty());
        }
        while i < decls.len()
            invariant
                i <= decls@.len(),
                views(decls@) == ds,
                crate::ast::all_wf(decls@),
                self@ == define_all(old(self)@, file_defs(ds.take(i as int), source_id)),
            decreases decls@.len() - i,
        {
            let ghost before = self@;
            let ghost d = ds[i as int];
            proof {
                assert(ds.take(i + 1).drop_last() =~= ds.take(i as int));
                assert(ds.take(i + 1).last() == d);
                assert(decls@[i as int]@ == d);
                assert(decls@[i as int].wf());
                lemma_define_all_add(old(self)@, file_defs(ds.take(i as int), source_id), decl_defs(d, source_id));
            }
            match &decls[i] {
                Decl::Fn(f) => {
                    let one = vec_of(f.syntax());
                    self.define_nodes(&one, Space::Value, source_id);
                },
                Decl::Extern(f) => {
                    let one = vec_of(f.syntax());
                    self.define_nodes(&one, Space::Value, source_id);
                },
                Decl::Type(t) => {
                    let one = vec_of(t.syntax());
                    let ghost mid = self@;
                    self.define_nodes(&one, Space::Type, source_id);
                    let ctors = t.constructors();
                    self.define_named(&ctors, Space::Value, source_id);
                    proof {
                        lemma_define_all_add(
                            mid,
                            named_defs(seq![d], Space::Type, source_id),
                            named_defs(pick(d.kids(), Sel::Node(SyntaxKind::CONSTRUCTOR)), Space::Value, source_id),
                        );
                    }
                },
                Decl::Tool(t) => {
                    let node = t.syntax();
                    if let Some(name) = first_ident(node) {
                        let span = name_token_span(node, source_id);
                        self.define(Space::Type, name, span);
                        let f = tool_fn_name(name);
                        self.define(Space::Value, f.as_str(), span);
                        proof {
                            let e = Seq::<(Space, Seq<char>, Span)>::empty();
                            let a = (Space::Type, name@, span);
                            let b = (Space::Value, tool_fn(name@), span);
                            assert(f@ == tool_fn(name@));
                            assert(decl_defs(d, source_id) =~= e.push(a).push(b));
                            lemma_define_all_push(before, e, a);
                            lemma_define_all_push(before, e.push(a), b);
                        }
                    } else {
                        proof {
                            assert(decl_defs(d, source_id) =~= Seq::<(Space, Seq<char>, Span)>::empty());
                        }
                    }
                },
                _ => {
                    proof {
                        assert(decl_defs(d, source_id) =~= Seq::<(Space, Seq<char>, Span)>::empty());
                    }
                },
            }
            i = i + 1;
        }
        proof {
            assert(ds.take(i as int) =~= ds);
        }
    }

    /// Defines in `space` the name of each of the nodes `nodes` that has
    /// one.
    fn define_nodes(&mut self, nodes: &Vec<&SyntaxNode>, space: Space, id: u32)
        ensures
            final(self)@ == define_all(old(self)@, named_defs(node_views(nodes@), space, id)),
    {
        let mut i: usize = 0;
        proof {
            assert(node_views(nodes@).take(0) =~= Seq::<Tree>::empty());
        }
        while i < nodes.len()
            invariant
                i <= nodes@.len(),
                self@ == define_all(old(self)@, named_defs(node_views(nodes@).take(i as int), space, id)),
            decreases nodes@.len() - i,
        {
            proof {
                assert(node_views(nodes@).take(i + 1).drop_last() =~= node_views(nodes@).take(i as int));
                assert(node_views(nodes@).take(i + 1).last() == nodes@[i as int]@);
            }
            let ghost x = named_defs(node_views(nodes@).take(i as int), space, id);
            let node = nodes[i];
            if let Some(name) = first_ident(node) {
                let span = name_token_span(node, id);
                self.define(space, name, span);
                proof {
                    lemma_define_all_push(old(self)@, x, (space, name@, span));
                }
            }
            i = i + 1;
        }
        proof {
            assert(node_views(nodes@).take(i as int) =~= node_views(nodes@));
        }
    }

    /// Records an actor's message type and message constructors, reporting
    /// collisions with the file's other definitions.
    pub fn detect_actor_message_duplicates(&mut self, decl: &ActorDecl, source_id: u32)
        ensures
            final(self)@ == define_all(old(self)@, actor_defs(decl@, source_id)),
    {
        proof {
            reveal_strlit("message");
        }
        let field = match actor_field(decl, "message") {
            Some(f) => f,
            None => return,
        };
        let ghost fields = pick(decl@.kids(), Sel::Node(SyntaxKind::ACTOR_FIELD));
        let ghost k = field_named(fields, "message"@, 0).unwrap();
        let ghost mid = self@;
        let ghost ty_defs: Seq<(Space, Seq<char>, Span)> = Seq::empty();
        match field.ty() {
            Some(TypeExpr::Name(name)) => {
                let text = name.text();
                let span = token_span(name.syntax(), source_id);
                self.note_type_name(text, span);
                proof {
                    let e = Seq::<(Space, Seq<char>, Span)>::empty();
                    ty_defs = e.push((Space::Type, text@, span));
                    lemma_define_all_push(mid, e, (Space::Type, text@, span));
                }
            },
            _ => {},
        }
        let ghost after_ty = self@;
        proof {
            lemma_define_all_push(mid, Seq::empty(), (Space::Type, Seq::empty(), Span { start: 0, end: 0, source_id: 0 }));
            assert(after_ty == define_all(mid, ty_defs));
        }
        let ctors = field.constructors();
        self.define_named(&ctors, Space::Value, source_id);
        proof {
            lemma_define_all_add(
                mid,
                ty_defs,
                named_defs(pick(fields[k].kids(), Sel::Node(SyntaxKind::CONSTRUCTOR)), Space::Value, source_id),
            );
            assert(actor_defs(decl@, source_id) == ty_defs + named_defs(
                pick(fields[k].kids(), Sel::Node(SyntaxKind::CONSTRUCTOR)),
                Space::Value,
                source_id,
            ));
        }
    }
}

/// The views of a list of nodes.
pub open spec fn node_views(s: Seq<&SyntaxNode>) -> Seq<Tree> {
    Seq::new(s.len(), |i: int| s[i]@)
}

/// The one-element list of `n`.
fn vec_of(n: &SyntaxNode) -> (r: Vec<&SyntaxNode>)
    ensures
        node_views(r@) == seq![n@],
{
    let mut r: Vec<&SyntaxNode> = Vec::new();
    r.push(n);
    proof {
        assert(node_views(r@) =~= seq![n@]);
    }
    r
}

/// The text of the first `IDENT` token directly under `node`.
fn first_ident(node: &SyntaxNode) -> (r: Option<&str>)
    ensures
        opt_str(r) == first_text(node@.kids(), Sel::Token(SyntaxKind::IDENT)),
{
    proof {
        lemma_kids(node);
        assert(elems_tree(node.children@).skip(0) =~= node@.kids());
    }
    match find_sel(&node.children, 0, Sel::Token(SyntaxKind::IDENT)) {
        Some(i) => match &node.children[i] {
            SyntaxElement::Token(t) => Some(t.text.as_str()),
            SyntaxElement::Node(_) => {
                assert(false);
                None
            },
        },
        None => None,
    }
}

} // verus!
