use hird_check::ast::{ActorDecl, AstNode, SourceFile};
use hird_check::diag::{CheckCode, Severity, Span};
use hird_check::namespaces::DeclNames;
use hird_check::syntax::{SyntaxElement, SyntaxKind, SyntaxNode, SyntaxToken};

fn tok(kind: SyntaxKind, text: &str) -> SyntaxElement {
    SyntaxElement::Token(SyntaxToken { kind, text: String::from(text), start: 0, end: 0 })
}

fn nd(kind: SyntaxKind, children: Vec<SyntaxElement>) -> SyntaxElement {
    SyntaxElement::Node(SyntaxNode { kind, children, start: 0, end: 0 })
}

fn ws() -> SyntaxElement {
    tok(SyntaxKind::WHITESPACE, " ")
}

/// Lays the tree out from `at`, giving each element its byte range.
fn place(e: &mut SyntaxElement, at: u32) -> u32 {
    match e {
        SyntaxElement::Token(t) => {
            t.start = at;
            t.end = at + t.text.len() as u32;
            t.end
        }
        SyntaxElement::Node(n) => {
            let mut end = at;
            for c in n.children.iter_mut() {
                end = place(c, end);
            }
            n.start = at;
            n.end = end;
            end
        }
    }
}

fn node(mut e: SyntaxElement) -> SyntaxNode {
    place(&mut e, 0);
    match e {
        SyntaxElement::Node(n) => n,
        SyntaxElement::Token(_) => panic!("not a node"),
    }
}

fn fn_decl(name: &str) -> SyntaxElement {
    nd(SyntaxKind::FN_DECL, vec![tok(SyntaxKind::FN_KW, "fn"), ws(), tok(SyntaxKind::IDENT, name)])
}

fn type_decl(name: &str, ctors: &[&str]) -> SyntaxElement {
    let mut kids = vec![tok(SyntaxKind::TYPE_KW, "type"), ws(), tok(SyntaxKind::IDENT, name), ws(), tok(SyntaxKind::EQ, "=")];
    for c in ctors {
        kids.push(ws());
        kids.push(nd(SyntaxKind::CONSTRUCTOR, vec![tok(SyntaxKind::IDENT, c)]));
    }
    nd(SyntaxKind::TYPE_DECL, kids)
}

fn tool_decl(name: &str) -> SyntaxElement {
    nd(SyntaxKind::TOOL_DECL, vec![tok(SyntaxKind::TOOL_KW, "tool"), ws(), tok(SyntaxKind::IDENT, name)])
}

fn file(items: Vec<SyntaxElement>) -> SourceFile {
    let mut kids = Vec::new();
    for (i, it) in items.into_iter().enumerate() {
        if i > 0 {
            kids.push(tok(SyntaxKind::WHITESPACE, "\n"));
        }
        kids.push(it);
    }
    SourceFile::cast(node(nd(SyntaxKind::SOURCE_FILE, kids))).unwrap()
}

#[test]
fn a_second_definition_points_at_the_first() {
    // fn go\nfn go
    let f = file(vec![fn_decl("go"), fn_decl("go")]);
    let mut names = DeclNames::new();
    names.detect_duplicates(&f, 7);
    assert_eq!(names.diags.len(), 1);
    let d = &names.diags[0];
    assert_eq!(d.code, CheckCode::C0017);
    assert_eq!(d.severity, Severity::Error);
    assert_eq!(d.span, Span { start: 9, end: 11, source_id: 7 });
    assert_eq!(d.message, "duplicate definition of `go`");
    assert_eq!(d.related.len(), 1);
    assert_eq!(d.related[0].span, Span { start: 3, end: 5, source_id: 7 });
    assert_eq!(d.related[0].message, "first defined here");
}

#[test]
fn types_and_values_are_separate_namespaces() {
    let f = file(vec![type_decl("Email", &["Email"]), fn_decl("send")]);
    let mut names = DeclNames::new();
    names.detect_duplicates(&f, 0);
    assert!(names.diags.is_empty());
    let g = file(vec![type_decl("Color", &["Red", "Red"]), type_decl("Color", &[])]);
    let mut names = DeclNames::new();
    names.detect_duplicates(&g, 0);
    assert_eq!(names.diags.len(), 2);
    assert_eq!(names.diags[0].code, CheckCode::C0017);
    assert_eq!(names.diags[0].message, "duplicate definition of `Red`");
    assert_eq!(names.diags[1].code, CheckCode::C0018);
    assert_eq!(names.diags[1].message, "duplicate type `Color`");
}

#[test]
fn a_tool_defines_its_type_and_its_function() {
    let f = file(vec![tool_decl("ReadRepo"), fn_decl("read_repo"), type_decl("ReadRepo", &[])]);
    let mut names = DeclNames::new();
    names.detect_duplicates(&f, 0);
    assert_eq!(names.diags.len(), 2);
    assert_eq!(names.diags[0].message, "duplicate definition of `read_repo`");
    assert_eq!(names.diags[1].message, "duplicate type `ReadRepo`");
}

#[test]
fn actor_messages_join_the_file_namespaces() {
    // actor Counter { message: Msg = Inc | Get }
    let field = nd(
        SyntaxKind::ACTOR_FIELD,
        vec![
            tok(SyntaxKind::IDENT, "message"),
            tok(SyntaxKind::COLON, ":"),
            ws(),
            tok(SyntaxKind::IDENT, "Msg"),
            ws(),
            tok(SyntaxKind::EQ, "="),
            ws(),
            nd(SyntaxKind::CONSTRUCTOR, vec![tok(SyntaxKind::IDENT, "Inc")]),
            nd(SyntaxKind::CONSTRUCTOR, vec![tok(SyntaxKind::IDENT, "Get")]),
        ],
    );
    let actor = ActorDecl::cast(node(nd(
        SyntaxKind::ACTOR_DECL,
        vec![tok(SyntaxKind::ACTOR_KW, "actor"), ws(), tok(SyntaxKind::IDENT, "Counter"), ws(), field],
    )))
    .unwrap();
    let mut names = DeclNames::new();
    names.note_type_name("Msg", Span { start: 100, end: 103, source_id: 0 });
    names.note_value_name("Get", Span { start: 200, end: 203, source_id: 0 });
    names.detect_actor_message_duplicates(&actor, 0);
    assert_eq!(names.diags.len(), 2);
    assert_eq!(names.diags[0].message, "duplicate type `Msg`");
    assert_eq!(names.diags[0].span, Span { start: 23, end: 26, source_id: 0 });
    assert_eq!(names.diags[0].related[0].span, Span { start: 100, end: 103, source_id: 0 });
    assert_eq!(names.diags[1].message, "duplicate definition of `Get`");
}
