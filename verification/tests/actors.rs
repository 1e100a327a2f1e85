use hird_check::actors::{actor_members, check_handler_coverage, check_handler_head, register_actor_message_header};
use hird_check::ast::{ActorDecl, ActorHandler, AstNode};
use hird_check::diag::{CheckCode, CheckDiagnostic, Span};
use hird_check::registry::Registry;
use hird_check::syntax::{SyntaxElement, SyntaxKind, SyntaxNode, SyntaxToken};

fn tok(kind: SyntaxKind, text: &str) -> SyntaxElement {
    SyntaxElement::Token(SyntaxToken { kind, text: String::from(text), start: 0, end: 0 })
}

fn nd(kind: SyntaxKind, children: Vec<SyntaxElement>) -> SyntaxElement {
    SyntaxElement::Node(SyntaxNode { kind, children, start: 0, end: 0 })
}

fn ws() -> SyntaxElement {
    tok(SyntaxKind::WHITESPACE, " ")
}

fn ident(text: &str) -> SyntaxElement {
    tok(SyntaxKind::IDENT, text)
}

fn place(e: &mut SyntaxElement, at: u32) -> u32 {
    match e {
        SyntaxElement::Token(t) => {
            t.start = at;
            t.end = at + t.text.len() as u32;
            t.end
        }
        SyntaxElement::Node(n) => {
            let mut end = at;
            for c in n.children.iter_mut() {
                end = place(c, end);
            }
            n.start = at;
            n.end = end;
            end
        }
    }
}

fn laid(mut e: SyntaxElement) -> SyntaxNode {
    place(&mut e, 0);
    match e {
        SyntaxElement::Node(n) => n,
        SyntaxElement::Token(_) => unreachable!(),
    }
}

fn state_member() -> SyntaxElement {
    nd(SyntaxKind::ACTOR_FIELD, vec![ident("state"), tok(SyntaxKind::COLON, ":"), ws(), ident("Int")])
}

fn message_member(ty: &str, ctors: &[&str]) -> SyntaxElement {
    let mut kids = vec![ident("message"), tok(SyntaxKind::COLON, ":"), ws(), ident(ty), ws(), tok(SyntaxKind::EQ, "=")];
    for c in ctors {
        kids.push(ws());
        kids.push(nd(SyntaxKind::CONSTRUCTOR, vec![ident(c)]));
    }
    nd(SyntaxKind::ACTOR_FIELD, kids)
}

fn init_member() -> SyntaxElement {
    nd(SyntaxKind::ACTOR_FIELD, vec![ident("init"), tok(SyntaxKind::COLON, ":"), ws(), nd(SyntaxKind::FN_SIG, vec![tok(SyntaxKind::FN_KW, "fn")])])
}

fn member(name: &str) -> SyntaxElement {
    nd(SyntaxKind::ACTOR_FIELD, vec![ident(name), tok(SyntaxKind::COLON, ":"), ws(), ident("Int")])
}

fn actor(name: &str, members: Vec<SyntaxElement>) -> ActorDecl {
    let mut kids = vec![tok(SyntaxKind::ACTOR_KW, "actor"), ws(), ident(name), ws(), tok(SyntaxKind::L_BRACE, "{")];
    for m in members {
        kids.push(ws());
        kids.push(m);
    }
    kids.push(tok(SyntaxKind::R_BRACE, "}"));
    ActorDecl::cast(laid(nd(SyntaxKind::ACTOR_DECL, kids))).unwrap()
}

fn handler(pattern: SyntaxElement) -> ActorHandler {
    ActorHandler::cast(laid(nd(
        SyntaxKind::ACTOR_HANDLER,
        vec![tok(SyntaxKind::HANDLE_KW, "handle"), ws(), pattern, ws(), nd(SyntaxKind::BIND_PAT, vec![ident("s")])],
    )))
    .unwrap()
}

fn ctor_pat(name: &str) -> SyntaxElement {
    nd(SyntaxKind::CONSTRUCTOR_PAT, vec![ident(name)])
}

fn counter() -> ActorDecl {
    actor("Counter", vec![state_member(), message_member("Msg", &["Inc", "Get"]), init_member()])
}

#[test]
fn a_sound_actor_yields_its_three_members() {
    let mut diags = Vec::new();
    let (m, s, i) = actor_members(&counter(), "Counter", &mut diags, 0).unwrap();
    assert!(diags.is_empty());
    assert_eq!(m.name(), Some("message"));
    assert_eq!(s.name(), Some("state"));
    assert_eq!(i.name(), Some("init"));
}

#[test]
fn members_form_a_closed_set() {
    let decl = actor("Counter", vec![state_member(), member("mood"), state_member(), message_member("Msg", &["Inc"])]);
    let mut diags = Vec::new();
    assert!(actor_members(&decl, "Counter", &mut diags, 0).is_none());
    let msgs: Vec<&str> = diags.iter().map(|d| d.message.as_str()).collect();
    assert_eq!(
        msgs,
        vec![
            "actor `Counter` has no member `mood`; expected `state`, `message`, `init`, or `handle`",
            "actor `Counter` declares `state` twice",
        ]
    );
    assert!(diags.iter().all(|d| d.code == CheckCode::C0035));
    assert_eq!(diags[1].related[0].message, "first declared here");
}

#[test]
fn the_first_missing_member_is_reported() {
    let decl = actor("Counter", vec![message_member("Msg", &["Inc"])]);
    let mut diags = Vec::new();
    assert!(actor_members(&decl, "Counter", &mut diags, 3).is_none());
    assert_eq!(diags.len(), 1);
    assert_eq!(diags[0].message, "actor `Counter` is missing its `state` member");
    // actor Counter: the name is at 6..13.
    assert_eq!(diags[0].span, Span { start: 6, end: 13, source_id: 3 });
}

#[test]
fn the_message_type_is_registered_with_its_constructors() {
    let mut registry = Registry::new();
    register_actor_message_header(&mut registry, &counter());
    assert_eq!(registry.adt_constructors("Msg").unwrap(), &vec![String::from("Inc"), String::from("Get")]);
    assert_eq!(registry.type_arity("Msg"), Some(0));
    let mut untouched = Registry::new();
    register_actor_message_header(&mut untouched, &actor("A", vec![state_member()]));
    assert!(untouched.adt_constructors("Msg").is_none());
}

fn registry() -> Registry {
    let mut r = Registry::new();
    register_actor_message_header(&mut r, &counter());
    r
}

#[test]
fn handlers_name_constructors_of_the_message_type_once() {
    let r = registry();
    let mut seen: Vec<(String, Span)> = Vec::new();
    let mut diags: Vec<CheckDiagnostic> = Vec::new();
    assert!(check_handler_head(&handler(ctor_pat("Inc")), "Counter", "Msg", &r, &mut seen, &mut diags, 0));
    assert!(diags.is_empty());
    assert!(!check_handler_head(&handler(ctor_pat("Inc")), "Counter", "Msg", &r, &mut seen, &mut diags, 0));
    assert_eq!(diags[0].code, CheckCode::C0036);
    assert_eq!(diags[0].message, "actor `Counter` already handles `Inc`");
    assert_eq!(diags[0].related[0].span, Span { start: 7, end: 10, source_id: 0 });
    assert_eq!(diags[0].related[0].message, "first handled here");
    assert!(!check_handler_head(&handler(ctor_pat("True")), "Counter", "Msg", &r, &mut seen, &mut diags, 0));
    assert_eq!(diags[1].code, CheckCode::C0037);
    assert_eq!(diags[1].message, "`True` is not a constructor of actor `Counter`'s message type `Msg`");
    let wild = nd(SyntaxKind::WILDCARD_PAT, vec![tok(SyntaxKind::UNDERSCORE, "_")]);
    assert!(!check_handler_head(&handler(wild), "Counter", "Msg", &r, &mut seen, &mut diags, 0));
    assert_eq!(diags[2].message, "a handler in actor `Counter` must name a message constructor");
    // An undeclared constructor goes on to the pattern check.
    assert!(check_handler_head(&handler(ctor_pat("Zap")), "Counter", "Msg", &r, &mut seen, &mut diags, 0));
    assert_eq!(diags.len(), 3);
}

#[test]
fn every_constructor_needs_a_handler() {
    let r = registry();
    let decl = counter();
    let mut diags = Vec::new();
    let seen_inc = vec![(String::from("Inc"), Span { start: 0, end: 3, source_id: 0 })];
    check_handler_coverage(&decl, "Counter", "Msg", &r, &seen_inc, &mut diags, 0);
    assert_eq!(diags.len(), 1);
    assert_eq!(diags[0].code, CheckCode::C0041);
    assert_eq!(diags[0].message, "actor `Counter` does not handle message variant `Get`");
    check_handler_coverage(&decl, "Counter", "Msg", &r, &Vec::new(), &mut diags, 0);
    assert_eq!(diags[1].message, "actor `Counter` does not handle message variants `Inc`, `Get`");
    let all = vec![
        (String::from("Get"), Span { start: 0, end: 3, source_id: 0 }),
        (String::from("Inc"), Span { start: 4, end: 7, source_id: 0 }),
    ];
    check_handler_coverage(&decl, "Counter", "Msg", &r, &all, &mut diags, 0);
    check_handler_coverage(&decl, "Counter", "Nothing", &r, &Vec::new(), &mut diags, 0);
    assert_eq!(diags.len(), 2);
}
