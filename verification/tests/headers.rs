use hird_check::ast::{AstNode, EffectDecl, ExternDecl, ToolDecl, TypeDecl};
use hird_check::diag::{CheckCode, CheckDiagnostic, Span};
use hird_check::headers::{check_extern_signature, check_tool_type_params, register_adt_header, register_effect, register_tool_marker};
use hird_check::registry::Registry;
use hird_check::syntax::{SyntaxElement, SyntaxKind, SyntaxNode, SyntaxToken};

fn tok(kind: SyntaxKind, text: &str) -> SyntaxElement {
    SyntaxElement::Token(SyntaxToken { kind, text: String::from(text), start: 0, end: 0 })
}

fn nd(kind: SyntaxKind, children: Vec<SyntaxElement>) -> SyntaxElement {
    SyntaxElement::Node(SyntaxNode { kind, children, start: 0, end: 0 })
}

fn ws() -> SyntaxElement {
    tok(SyntaxKind::WHITESPACE, " ")
}

fn ident(text: &str) -> SyntaxElement {
    tok(SyntaxKind::IDENT, text)
}

fn place(e: &mut SyntaxElement, at: u32) -> u32 {
    match e {
        SyntaxElement::Token(t) => {
            t.start = at;
            t.end = at + t.text.len() as u32;
            t.end
        }
        SyntaxElement::Node(n) => {
            let mut end = at;
            for c in n.children.iter_mut() {
                end = place(c, end);
            }
            n.start = at;
            n.end = end;
            end
        }
    }
}

fn laid(mut e: SyntaxElement) -> SyntaxNode {
    place(&mut e, 0);
    match e {
        SyntaxElement::Node(n) => n,
        SyntaxElement::Token(_) => unreachable!(),
    }
}

fn type_params(ps: &[&str]) -> SyntaxElement {
    let mut kids = vec![tok(SyntaxKind::L_ANGLE, "<")];
    for (i, p) in ps.iter().enumerate() {
        if i > 0 {
            kids.push(tok(SyntaxKind::COMMA, ","));
        }
        kids.push(ident(p));
    }
    kids.push(tok(SyntaxKind::R_ANGLE, ">"));
    nd(SyntaxKind::TYPE_PARAMS, kids)
}

/// `[pub [opaque]] type Name<ps> = C1 | C2`
fn type_decl(vis: &[&str], name: &str, ps: &[&str], ctors: &[&str]) -> TypeDecl {
    let mut kids = Vec::new();
    for v in vis {
        match *v {
            "pub" => kids.push(nd(SyntaxKind::VISIBILITY, vec![tok(SyntaxKind::PUB_KW, "pub")])),
            _ => kids.push(tok(SyntaxKind::OPAQUE_KW, "opaque")),
        }
        kids.push(ws());
    }
    kids.push(tok(SyntaxKind::TYPE_KW, "type"));
    kids.push(ws());
    kids.push(ident(name));
    kids.push(type_params(ps));
    kids.push(ws());
    kids.push(tok(SyntaxKind::EQ, "="));
    for c in ctors {
        kids.push(ws());
        kids.push(nd(SyntaxKind::CONSTRUCTOR, vec![ident(c)]));
    }
    TypeDecl::cast(laid(nd(SyntaxKind::TYPE_DECL, kids))).unwrap()
}

#[test]
fn a_type_header_registers_its_shape() {
    let mut registry = Registry::new();
    let mut exported = Vec::new();
    let mut diags: Vec<CheckDiagnostic> = Vec::new();
    let decl = type_decl(&["pub", "opaque"], "Pair", &["a", "b", "a"], &["Pair"]);
    register_adt_header(&mut registry, &mut exported, &mut diags, &decl, 2);
    assert_eq!(registry.type_arity("Pair"), Some(2));
    assert_eq!(registry.adt_constructors("Pair").unwrap(), &vec![String::from("Pair")]);
    assert_eq!(exported, vec![(String::from("Pair"), true)]);
    assert_eq!(diags.len(), 1);
    assert_eq!(diags[0].code, CheckCode::C0013);
    assert_eq!(diags[0].message, "type parameter `a` is declared twice");
    // pub opaque type Pair: the name is at 16..20.
    assert_eq!(diags[0].span, Span { start: 16, end: 20, source_id: 2 });
}

#[test]
fn a_private_type_is_not_exported() {
    let mut registry = Registry::new();
    let mut exported = Vec::new();
    let mut diags: Vec<CheckDiagnostic> = Vec::new();
    register_adt_header(&mut registry, &mut exported, &mut diags, &type_decl(&[], "Color", &[], &["Red", "Green"]), 0);
    assert!(exported.is_empty());
    assert!(diags.is_empty());
    assert_eq!(registry.adt_constructors("Color").unwrap(), &vec![String::from("Red"), String::from("Green")]);
    let mut exported = Vec::new();
    register_adt_header(&mut registry, &mut exported, &mut diags, &type_decl(&["pub"], "Open", &["t"], &[]), 0);
    assert_eq!(exported, vec![(String::from("Open"), false)]);
    assert_eq!(registry.type_arity("Open"), Some(1));
}

#[test]
fn effects_and_tools_register_their_names() {
    let mut registry = Registry::new();
    let eff = EffectDecl::cast(laid(nd(
        SyntaxKind::EFFECT_DECL,
        vec![tok(SyntaxKind::EFFECT_KW, "effect"), ws(), ident("State"), type_params(&["s"])],
    )))
    .unwrap();
    register_effect(&mut registry, &eff);
    assert_eq!(registry.effect_arity("State"), Some(1));
    let tool = ToolDecl::cast(laid(nd(SyntaxKind::TOOL_DECL, vec![tok(SyntaxKind::TOOL_KW, "tool"), ws(), ident("ReadRepo")])))
        .unwrap();
    register_tool_marker(&mut registry, &tool);
    assert_eq!(registry.type_arity("ReadRepo"), Some(0));
    assert!(registry.adt_constructors("ReadRepo").unwrap().is_empty());
}

/// `extern name(p: Int, q) -> Int`, with the given parameters annotated or
/// not, and the return type present or not.
fn extern_decl(name: &str, params: &[(&str, bool)], ret: bool) -> ExternDecl {
    let mut ps = vec![tok(SyntaxKind::L_PAREN, "(")];
    for (p, annotated) in params {
        let mut kids = vec![ident(p)];
        if *annotated {
            kids.push(tok(SyntaxKind::COLON, ":"));
            kids.push(ws());
            kids.push(ident("Int"));
        }
        ps.push(nd(SyntaxKind::PARAM, kids));
    }
    ps.push(tok(SyntaxKind::R_PAREN, ")"));
    let mut kids = vec![tok(SyntaxKind::EXTERN_KW, "extern"), ws(), ident(name), nd(SyntaxKind::PARAM_LIST, ps)];
    if ret {
        kids.push(nd(SyntaxKind::RETURN_TYPE, vec![tok(SyntaxKind::ARROW, "->"), ws(), ident("Int")]));
    }
    ExternDecl::cast(laid(nd(SyntaxKind::EXTERN_DECL, kids))).unwrap()
}

#[test]
fn externs_need_full_signatures() {
    let mut diags: Vec<CheckDiagnostic> = Vec::new();
    assert!(check_extern_signature(&extern_decl("now", &[("x", true)], true), &mut diags, 0));
    assert!(diags.is_empty());
    assert!(!check_extern_signature(&extern_decl("now", &[("x", true), ("y", false)], true), &mut diags, 1));
    assert!(!check_extern_signature(&extern_decl("log", &[], false), &mut diags, 1));
    assert_eq!(diags.len(), 2);
    assert_eq!(diags[0].code, CheckCode::C0014);
    assert_eq!(diags[0].message, "extern `now` requires a fully annotated signature");
    assert_eq!(diags[0].span, Span { start: 7, end: 10, source_id: 1 });
    assert_eq!(diags[1].message, "extern `log` requires a fully annotated signature");
}

/// `tool Name<ps>: Int -> Int`, the output type present or not.
fn tool_decl(name: &str, ps: &[&str], output: bool) -> ToolDecl {
    let mut kids = vec![tok(SyntaxKind::TOOL_KW, "tool"), ws(), ident(name), type_params(ps)];
    kids.push(tok(SyntaxKind::COLON, ":"));
    kids.push(ws());
    kids.push(ident("Int"));
    if output {
        kids.push(ws());
        kids.push(tok(SyntaxKind::ARROW, "->"));
        kids.push(ws());
        kids.push(ident("Int"));
    }
    ToolDecl::cast(laid(nd(SyntaxKind::TOOL_DECL, kids))).unwrap()
}

#[test]
fn a_tool_reports_a_repeated_type_parameter() {
    let mut diags: Vec<CheckDiagnostic> = Vec::new();
    check_tool_type_params(&tool_decl("Fetch", &["a", "b", "a"], true), &mut diags, 3);
    assert_eq!(diags.len(), 1);
    assert_eq!(diags[0].code, CheckCode::C0013);
    assert_eq!(diags[0].message, "type parameter `a` is declared twice");
    // tool Fetch: the name is at 5..10.
    assert_eq!(diags[0].span, Span { start: 5, end: 10, source_id: 3 });
    check_tool_type_params(&tool_decl("Fetch", &["a", "a"], false), &mut diags, 3);
    check_tool_type_params(&tool_decl("Fetch", &["a", "b"], true), &mut diags, 3);
    assert_eq!(diags.len(), 1);
}
