use hird_check::ast::{ActorDecl, AstNode, BinOpExpr, FnDecl, TypeDecl};
use hird_check::checker::{
    actor_field, binop_kind, collect_idents, distinct_params, is_fully_annotated, message_type_name,
    reference_graph,
};
use hird_check::graph::tarjan;
use hird_check::syntax::{SyntaxElement, SyntaxKind, SyntaxNode, SyntaxToken};

fn tok(kind: SyntaxKind, text: &str) -> SyntaxElement {
    SyntaxElement::Token(SyntaxToken { kind, text: String::from(text), start: 0, end: 0 })
}

fn nd(kind: SyntaxKind, children: Vec<SyntaxElement>) -> SyntaxElement {
    SyntaxElement::Node(SyntaxNode { kind, children, start: 0, end: 0 })
}

fn node(e: SyntaxElement) -> SyntaxNode {
    match e {
        SyntaxElement::Node(n) => n,
        SyntaxElement::Token(_) => panic!("not a node"),
    }
}

fn ws() -> SyntaxElement {
    tok(SyntaxKind::WHITESPACE, " ")
}

/// `fn <name>(<p>: Int, ...) -> Int = <body>`; a parameter name ending in
/// `?` is written without its annotation, and `ret` decides the return
/// type.
fn fn_decl(name: &str, params: &[&str], ret: bool, body: SyntaxElement) -> FnDecl {
    let mut ps = vec![tok(SyntaxKind::L_PAREN, "(")];
    for p in params {
        if let Some(bare) = p.strip_suffix('?') {
            ps.push(nd(SyntaxKind::PARAM, vec![tok(SyntaxKind::IDENT, bare)]));
        } else {
            ps.push(nd(
                SyntaxKind::PARAM,
                vec![tok(SyntaxKind::IDENT, p), tok(SyntaxKind::COLON, ":"), ws(), tok(SyntaxKind::IDENT, "Int")],
            ));
        }
    }
    ps.push(tok(SyntaxKind::R_PAREN, ")"));
    let mut kids = vec![tok(SyntaxKind::FN_KW, "fn"), ws(), tok(SyntaxKind::IDENT, name), nd(SyntaxKind::PARAM_LIST, ps)];
    if ret {
        kids.push(nd(SyntaxKind::RETURN_TYPE, vec![tok(SyntaxKind::ARROW, "->"), ws(), tok(SyntaxKind::IDENT, "Int")]));
    }
    kids.push(ws());
    kids.push(tok(SyntaxKind::EQ, "="));
    kids.push(ws());
    kids.push(body);
    FnDecl::cast(node(nd(SyntaxKind::FN_DECL, kids))).unwrap()
}

/// `f(a, b, ...)` as an application.
fn call(f: &str, args: &[&str]) -> SyntaxElement {
    let mut kids = vec![tok(SyntaxKind::IDENT, f), tok(SyntaxKind::L_PAREN, "(")];
    for a in args {
        kids.push(tok(SyntaxKind::IDENT, a));
    }
    kids.push(tok(SyntaxKind::R_PAREN, ")"));
    nd(SyntaxKind::APP_EXPR, kids)
}

#[test]
fn identifiers_are_collected_in_source_order() {
    let tree = node(nd(
        SyntaxKind::BIN_EXPR,
        vec![call("f", &["x"]), ws(), tok(SyntaxKind::PLUS, "+"), ws(), nd(SyntaxKind::PAREN_EXPR, vec![tok(SyntaxKind::INT, "1"), tok(SyntaxKind::IDENT, "y")])],
    ));
    let mut out = vec![String::from("seed")];
    collect_idents(&tree, &mut out);
    assert_eq!(out, vec!["seed", "f", "x", "y"]);
}

#[test]
fn reference_graph_links_callers_to_callees() {
    let fns = vec![
        fn_decl("main", &[], true, call("helper", &["x", "helper"])),
        fn_decl("helper", &["x"], true, call("leaf", &["x"])),
        fn_decl("leaf", &["x"], true, tok(SyntaxKind::IDENT, "x")),
        fn_decl("self_loop", &[], true, call("self_loop", &["main"])),
    ];
    let g = reference_graph(&fns);
    assert_eq!(g, vec![vec![1], vec![2], vec![], vec![0, 3]]);
    let comps = tarjan(&g);
    assert_eq!(comps, vec![vec![2], vec![1], vec![0], vec![3]]);
}

#[test]
fn reference_graph_uses_the_first_function_of_a_name() {
    let fns = vec![
        fn_decl("a", &[], true, tok(SyntaxKind::IDENT, "dup")),
        fn_decl("dup", &[], true, tok(SyntaxKind::INT, "1")),
        fn_decl("dup", &[], true, tok(SyntaxKind::IDENT, "a")),
    ];
    let g = reference_graph(&fns);
    assert_eq!(g, vec![vec![1], vec![], vec![0]]);
}

#[test]
fn annotations_are_checked_on_every_parameter() {
    let body = || tok(SyntaxKind::INT, "0");
    assert!(is_fully_annotated(&fn_decl("f", &["a", "b"], true, body())));
    assert!(!is_fully_annotated(&fn_decl("f", &["a", "b?"], true, body())));
    assert!(!is_fully_annotated(&fn_decl("f", &["a"], false, body())));
    assert!(is_fully_annotated(&fn_decl("f", &[], true, body())));
}

#[test]
fn type_parameters_keep_their_first_occurrence() {
    let params = nd(
        SyntaxKind::TYPE_PARAMS,
        vec![
            tok(SyntaxKind::L_ANGLE, "<"),
            tok(SyntaxKind::IDENT, "a"),
            tok(SyntaxKind::COMMA, ","),
            tok(SyntaxKind::IDENT, "b"),
            tok(SyntaxKind::COMMA, ","),
            tok(SyntaxKind::IDENT, "a"),
            tok(SyntaxKind::R_ANGLE, ">"),
        ],
    );
    let decl = TypeDecl::cast(node(nd(
        SyntaxKind::TYPE_DECL,
        vec![tok(SyntaxKind::TYPE_KW, "type"), ws(), tok(SyntaxKind::IDENT, "Pair"), params],
    )))
    .unwrap();
    assert_eq!(distinct_params(&decl), vec!["a", "b"]);
}

fn actor() -> ActorDecl {
    let field = |name: &str, value: SyntaxElement| {
        nd(SyntaxKind::ACTOR_FIELD, vec![tok(SyntaxKind::IDENT, name), tok(SyntaxKind::COLON, ":"), ws(), value])
    };
    ActorDecl::cast(node(nd(
        SyntaxKind::ACTOR_DECL,
        vec![
            tok(SyntaxKind::ACTOR_KW, "actor"),
            ws(),
            tok(SyntaxKind::IDENT, "Counter"),
            field("state", tok(SyntaxKind::IDENT, "Int")),
            field("message", tok(SyntaxKind::IDENT, "Msg")),
            field("other", tok(SyntaxKind::IDENT, "lower")),
            field("message", tok(SyntaxKind::IDENT, "Second")),
        ],
    )))
    .unwrap()
}

#[test]
fn actor_fields_are_found_by_name() {
    let decl = actor();
    let message = actor_field(&decl, "message").unwrap();
    assert_eq!(message_type_name(&message).as_deref(), Some("Msg"));
    assert!(actor_field(&decl, "init").is_none());
    let other = actor_field(&decl, "other").unwrap();
    assert_eq!(message_type_name(&other), None);
}

#[test]
fn message_type_needs_a_bare_name() {
    let field = nd(
        SyntaxKind::ACTOR_FIELD,
        vec![
            tok(SyntaxKind::IDENT, "message"),
            tok(SyntaxKind::COLON, ":"),
            nd(SyntaxKind::TUPLE_TYPE, vec![tok(SyntaxKind::L_PAREN, "("), tok(SyntaxKind::R_PAREN, ")")]),
        ],
    );
    let decl = ActorDecl::cast(node(nd(SyntaxKind::ACTOR_DECL, vec![tok(SyntaxKind::IDENT, "A"), field]))).unwrap();
    let f = actor_field(&decl, "message").unwrap();
    assert_eq!(message_type_name(&f), None);
}

#[test]
fn binary_operators_are_read_from_their_token() {
    let add = BinOpExpr::cast(node(nd(
        SyntaxKind::BIN_EXPR,
        vec![tok(SyntaxKind::IDENT, "a"), ws(), tok(SyntaxKind::PLUS, "+"), ws(), tok(SyntaxKind::IDENT, "b")],
    )))
    .unwrap();
    assert_eq!(binop_kind(&add), Some(SyntaxKind::PLUS));
    let and = BinOpExpr::cast(node(nd(
        SyntaxKind::BIN_EXPR,
        vec![tok(SyntaxKind::IDENT, "p"), tok(SyntaxKind::ANDAND, "&&"), tok(SyntaxKind::IDENT, "q")],
    )))
    .unwrap();
    assert_eq!(binop_kind(&and), Some(SyntaxKind::ANDAND));
    let bare = BinOpExpr::cast(node(nd(SyntaxKind::BIN_EXPR, vec![tok(SyntaxKind::IDENT, "a")]))).unwrap();
    assert_eq!(binop_kind(&bare), None);
}
