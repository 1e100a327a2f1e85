use hird_check::ast::{AstNode, SupervisorDecl};
use hird_check::diag::{CheckCode, CheckDiagnostic, Severity, Span};
use hird_check::supervisors::{check_supervisor, register_supervisor};
use hird_check::syntax::{SyntaxElement, SyntaxKind, SyntaxNode, SyntaxToken};

fn tok(kind: SyntaxKind, text: &str) -> SyntaxElement {
    SyntaxElement::Token(SyntaxToken { kind, text: String::from(text), start: 0, end: 0 })
}

fn nd(kind: SyntaxKind, children: Vec<SyntaxElement>) -> SyntaxElement {
    SyntaxElement::Node(SyntaxNode { kind, children, start: 0, end: 0 })
}

fn ws() -> SyntaxElement {
    tok(SyntaxKind::WHITESPACE, " ")
}

fn place(e: &mut SyntaxElement, at: u32) -> u32 {
    match e {
        SyntaxElement::Token(t) => {
            t.start = at;
            t.end = at + t.text.len() as u32;
            t.end
        }
        SyntaxElement::Node(n) => {
            let mut end = at;
            for c in n.children.iter_mut() {
                end = place(c, end);
            }
            n.start = at;
            n.end = end;
            end
        }
    }
}

fn name(text: &str) -> SyntaxElement {
    tok(SyntaxKind::IDENT, text)
}

fn int_lit(text: &str) -> SyntaxElement {
    tok(SyntaxKind::INT, text)
}

/// `key: value` as a supervisor body field.
fn sfield(key: &str, value: SyntaxElement) -> SyntaxElement {
    nd(SyntaxKind::SUPERVISOR_FIELD, vec![name(key), tok(SyntaxKind::COLON, ":"), ws(), value])
}

/// `key: value` as a record field; `actor` is lexed as a keyword.
fn rfield(key: &str, value: SyntaxElement) -> SyntaxElement {
    let k = if key == "actor" { tok(SyntaxKind::ACTOR_KW, "actor") } else { name(key) };
    nd(SyntaxKind::RECORD_FIELD, vec![k, tok(SyntaxKind::COLON, ":"), ws(), value])
}

fn record(fields: Vec<SyntaxElement>) -> SyntaxElement {
    let mut kids = vec![tok(SyntaxKind::L_BRACE, "{")];
    for (i, f) in fields.into_iter().enumerate() {
        if i > 0 {
            kids.push(tok(SyntaxKind::COMMA, ","));
            kids.push(ws());
        }
        kids.push(f);
    }
    kids.push(tok(SyntaxKind::R_BRACE, "}"));
    nd(SyntaxKind::RECORD_LIT, kids)
}

fn list(elems: Vec<SyntaxElement>) -> SyntaxElement {
    let mut kids = vec![tok(SyntaxKind::L_BRACKET, "[")];
    for (i, e) in elems.into_iter().enumerate() {
        if i > 0 {
            kids.push(tok(SyntaxKind::COMMA, ","));
        }
        kids.push(e);
    }
    kids.push(tok(SyntaxKind::R_BRACKET, "]"));
    nd(SyntaxKind::LIST_LIT, kids)
}

fn child(id: &str, actor: &str, restart: &str) -> SyntaxElement {
    record(vec![
        rfield("id", name(id)),
        rfield("actor", name(actor)),
        rfield("start_args", name("cfg")),
        rfield("restart", name(restart)),
    ])
}

fn supervisor(sup: &str, fields: Vec<SyntaxElement>) -> SupervisorDecl {
    let mut kids = vec![tok(SyntaxKind::SUPERVISOR_KW, "supervisor"), ws(), name(sup), ws(), tok(SyntaxKind::L_BRACE, "{")];
    for f in fields {
        kids.push(ws());
        kids.push(f);
    }
    kids.push(tok(SyntaxKind::R_BRACE, "}"));
    let mut e = nd(SyntaxKind::SUPERVISOR_DECL, kids);
    place(&mut e, 0);
    match e {
        SyntaxElement::Node(n) => SupervisorDecl::cast(n).unwrap(),
        SyntaxElement::Token(_) => unreachable!(),
    }
}

fn check(decl: &SupervisorDecl) -> Vec<CheckDiagnostic> {
    let mut diags = Vec::new();
    check_supervisor(decl, &mut diags, 0);
    diags
}

fn messages(diags: &[CheckDiagnostic]) -> Vec<&str> {
    diags.iter().map(|d| d.message.as_str()).collect()
}

fn well_formed() -> SupervisorDecl {
    supervisor(
        "PlannerSup",
        vec![
            sfield("strategy", name("one_for_one")),
            sfield("intensity", int_lit("3")),
            sfield("period", int_lit("5")),
            sfield("children", list(vec![child("planner", "Planner", "permanent"), child("worker", "Worker", "transient")])),
        ],
    )
}

#[test]
fn a_well_formed_supervisor_reports_nothing() {
    let decl = well_formed();
    let mut diags = Vec::new();
    let specs = check_supervisor(&decl, &mut diags, 0).unwrap();
    assert!(diags.is_empty(), "{:?}", messages(&diags));
    assert_eq!(specs.len(), 2);
    assert_eq!(specs[0].label, "planner");
    assert_eq!(specs[0].actor, Some(1));
    assert_eq!(specs[0].start_args, Some(2));
    assert_eq!(specs[1].label, "worker");
}

#[test]
fn the_interface_lists_id_actor_pairs() {
    let (sup, info) = register_supervisor(&well_formed()).unwrap();
    assert_eq!(sup, "PlannerSup");
    assert_eq!(
        info.children,
        vec![(String::from("planner"), String::from("Planner")), (String::from("worker"), String::from("Worker"))]
    );
}

#[test]
fn the_body_field_set_is_closed() {
    let decl = supervisor(
        "S",
        vec![
            sfield("strategy", name("one_for_one")),
            sfield("strategy", name("one_for_one")),
            sfield("budget", int_lit("1")),
            sfield("intensity", int_lit("1")),
        ],
    );
    let diags = check(&decl);
    assert_eq!(
        messages(&diags),
        vec![
            "supervisor `S` declares `strategy` twice",
            "supervisor `S` has no field `budget`; expected `strategy`, `intensity`, `period`, or `children`",
            "supervisor `S` is missing its `period` field",
            "supervisor `S` is missing its `children` field",
        ]
    );
    assert!(diags.iter().all(|d| d.code == CheckCode::C0046 && d.severity == Severity::Error));
    // supervisor S { strategy: one_for_one strategy: ...: the repeat points at the first.
    assert_eq!(diags[0].related.len(), 1);
    assert_eq!(diags[0].related[0].span, Span { start: 15, end: 23, source_id: 0 });
    assert_eq!(diags[0].related[0].message, "first declared here");
    // The missing fields are reported at the declaration's name.
    assert_eq!(diags[2].span, Span { start: 11, end: 12, source_id: 0 });
}

#[test]
fn strategies_are_checked() {
    let with = |v: SyntaxElement| {
        check(&supervisor(
            "S",
            vec![sfield("strategy", v), sfield("intensity", int_lit("1")), sfield("period", int_lit("1")), sfield("children", list(vec![]))],
        ))
    };
    let d = with(name("one_for_all"));
    assert_eq!(d.len(), 1);
    assert_eq!(d[0].code, CheckCode::C0050);
    assert_eq!(d[0].severity, Severity::Warning);
    assert_eq!(d[0].message, "restart strategy `one_for_all` is not implemented yet; only `one_for_one` is supported");
    let d = with(name("all_at_once"));
    assert_eq!(
        messages(&d),
        vec!["supervisor `S` has unknown restart strategy `all_at_once`; expected `one_for_one`, `one_for_all`, or `rest_for_one`"]
    );
    let d = with(int_lit("1"));
    assert_eq!(
        messages(&d),
        vec!["supervisor `S`'s `strategy` must be one of `one_for_one`, `one_for_all`, or `rest_for_one`"]
    );
    assert!(with(name("one_for_one")).is_empty());
}

#[test]
fn the_restart_budget_must_be_positive_integers() {
    let with = |i: &str, p: SyntaxElement| {
        check(&supervisor(
            "S",
            vec![sfield("strategy", name("one_for_one")), sfield("intensity", int_lit(i)), sfield("period", p), sfield("children", list(vec![]))],
        ))
    };
    assert!(with("+3", int_lit("4294967295")).is_empty());
    assert_eq!(
        messages(&with("0", int_lit("4294967296"))),
        vec!["supervisor `S`'s `intensity` must be a positive integer", "supervisor `S`'s `period` must be a positive integer"]
    );
    assert_eq!(messages(&with("7", name("five"))), vec!["supervisor `S`'s `period` must be a positive integer"]);
}

#[test]
fn child_specs_are_checked() {
    let decl = supervisor(
        "S",
        vec![
            sfield("strategy", name("one_for_one")),
            sfield("intensity", int_lit("1")),
            sfield("period", int_lit("1")),
            sfield(
                "children",
                list(vec![
                    child("a", "A", "permanent"),
                    name("oops"),
                    child("a", "B", "sometimes"),
                    child("Big", "C", "temporary"),
                    record(vec![rfield("id", int_lit("1")), rfield("colour", name("red"))]),
                ]),
            ),
        ],
    );
    let mut diags = Vec::new();
    let specs = check_supervisor(&decl, &mut diags, 0).unwrap();
    assert_eq!(
        messages(&diags),
        vec![
            "a child of supervisor `S` must be a record `{ id, actor, start_args, restart }`",
            "supervisor `S` declares two children with id `a`",
            "supervisor `S`'s child `<child>` has invalid `restart`; expected `permanent`, `temporary`, or `transient`",
            "supervisor `S`'s child `id` `Big` must be lowercase",
            "a child of supervisor `S` has no field `colour`; expected `id`, `actor`, `start_args`, or `restart`",
            "a child of supervisor `S` is missing its `actor` field",
            "a child of supervisor `S` is missing its `start_args` field",
            "a child of supervisor `S` is missing its `restart` field",
            "supervisor `S`'s child `id` must be a bare identifier",
        ]
    );
    assert_eq!(diags[1].related[0].message, "first declared here");
    assert_eq!(specs.len(), 4);
    assert_eq!(specs[0].label, "a");
    assert_eq!(specs[1].label, "<child>");
    assert_eq!(specs[3].actor, None);
}

#[test]
fn a_children_value_must_be_a_list() {
    let decl = supervisor(
        "S",
        vec![sfield("strategy", name("one_for_one")), sfield("intensity", int_lit("1")), sfield("period", int_lit("1")), sfield("children", name("all"))],
    );
    let diags = check(&decl);
    assert_eq!(
        messages(&diags),
        vec!["supervisor `S`'s `children` must be a list of child specs, e.g. `[ { id: c, actor: A, start_args: e, restart: permanent } ]`"]
    );
}
