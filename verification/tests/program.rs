use hird_check::ast::{AstNode, Expr, Projection, SourceFile, UseDecl};
use hird_check::diag::{CheckCode, Severity, Span};
use hird_check::names::{expr_span, name_token_span, node_span, token_span, ModuleName, NodeKey};
use hird_check::program::{
    import_diagnostic, module_name_diagnostics, plan_imports, resolve_uses, selected_members,
};
use hird_check::syntax::{SyntaxElement, SyntaxKind, SyntaxNode, SyntaxToken};

fn tok(kind: SyntaxKind, text: &str) -> SyntaxElement {
    SyntaxElement::Token(SyntaxToken { kind, text: String::from(text), start: 0, end: 0 })
}

fn nd(kind: SyntaxKind, children: Vec<SyntaxElement>) -> SyntaxElement {
    SyntaxElement::Node(SyntaxNode { kind, children, start: 0, end: 0 })
}

/// Gives every element the byte range its text occupies when the tree is
/// laid out from offset `at`; returns the offset past it.
fn place(e: &mut SyntaxElement, at: u32) -> u32 {
    match e {
        SyntaxElement::Token(t) => {
            t.start = at;
            t.end = at + t.text.len() as u32;
            t.end
        }
        SyntaxElement::Node(n) => {
            let mut end = at;
            for c in n.children.iter_mut() {
                end = place(c, end);
            }
            n.start = at;
            n.end = end;
            end
        }
    }
}

fn ws() -> SyntaxElement {
    tok(SyntaxKind::WHITESPACE, " ")
}

fn nl() -> SyntaxElement {
    tok(SyntaxKind::WHITESPACE, "\n")
}

fn path(segs: &[&str]) -> SyntaxElement {
    let mut kids = Vec::new();
    for (i, s) in segs.iter().enumerate() {
        if i > 0 {
            kids.push(tok(SyntaxKind::DOT, "."));
        }
        kids.push(tok(SyntaxKind::IDENT, s));
    }
    nd(SyntaxKind::PATH, kids)
}

fn module_decl(name: &str) -> SyntaxElement {
    nd(SyntaxKind::MODULE_DECL, vec![tok(SyntaxKind::MODULE_KW, "module"), ws(), tok(SyntaxKind::IDENT, name)])
}

fn use_whole(segs: &[&str]) -> SyntaxElement {
    nd(SyntaxKind::USE_DECL, vec![tok(SyntaxKind::USE_KW, "use"), ws(), path(segs)])
}

fn use_alias(segs: &[&str], alias: &str) -> SyntaxElement {
    nd(
        SyntaxKind::USE_DECL,
        vec![
            tok(SyntaxKind::USE_KW, "use"),
            ws(),
            path(segs),
            ws(),
            tok(SyntaxKind::IDENT, "as"),
            ws(),
            tok(SyntaxKind::IDENT, alias),
        ],
    )
}

fn use_members(segs: &[&str], members: &[&str]) -> SyntaxElement {
    let mut group = vec![tok(SyntaxKind::L_BRACE, "{")];
    for (i, m) in members.iter().enumerate() {
        if i > 0 {
            group.push(tok(SyntaxKind::COMMA, ","));
            group.push(ws());
        }
        group.push(tok(SyntaxKind::IDENT, m));
    }
    group.push(tok(SyntaxKind::R_BRACE, "}"));
    nd(
        SyntaxKind::USE_DECL,
        vec![
            tok(SyntaxKind::USE_KW, "use"),
            ws(),
            path(segs),
            tok(SyntaxKind::DOT, "."),
            nd(SyntaxKind::USE_GROUP, group),
        ],
    )
}

/// A source file of the given top-level items, one per line, laid out.
fn file(items: Vec<SyntaxElement>) -> SourceFile {
    let mut kids = Vec::new();
    for (i, it) in items.into_iter().enumerate() {
        if i > 0 {
            kids.push(nl());
        }
        kids.push(it);
    }
    let mut root = nd(SyntaxKind::SOURCE_FILE, kids);
    place(&mut root, 0);
    match root {
        SyntaxElement::Node(n) => SourceFile::cast(n).unwrap(),
        SyntaxElement::Token(_) => unreachable!(),
    }
}

fn name(s: &str) -> ModuleName {
    ModuleName::new(String::from(s))
}

fn span(start: u32, end: u32, source_id: u32) -> Span {
    Span { start, end, source_id }
}

#[test]
fn spans_and_keys_follow_the_text_ranges() {
    let mut e = nd(
        SyntaxKind::APP_EXPR,
        vec![tok(SyntaxKind::IDENT, "f"), ws(), tok(SyntaxKind::INT, "42")],
    );
    assert_eq!(place(&mut e, 10), 14);
    let expr = Expr::project(&e).unwrap();
    let SyntaxElement::Node(n) = e else { unreachable!() };
    assert_eq!(node_span(&n, 3), span(10, 14, 3));
    let SyntaxElement::Token(t) = &n.children[2] else { unreachable!() };
    assert_eq!(token_span(t, 3), span(12, 14, 3));
    assert_eq!(NodeKey::of_node(&n), NodeKey::new(SyntaxKind::APP_EXPR, 10, 14));
    assert_eq!(NodeKey::of_token(t), NodeKey::new(SyntaxKind::INT, 12, 14));
    assert_eq!(name_token_span(&n, 0), span(10, 11, 0));
    assert_eq!(expr_span(&expr, 1), span(10, 14, 1));
    assert_eq!(NodeKey::of_expr(&expr), NodeKey::new(SyntaxKind::APP_EXPR, 10, 14));
}

#[test]
fn a_nameless_node_is_its_own_name_span() {
    let mut e = nd(SyntaxKind::TUPLE_LIT, vec![tok(SyntaxKind::L_PAREN, "("), tok(SyntaxKind::R_PAREN, ")")]);
    place(&mut e, 5);
    let SyntaxElement::Node(n) = e else { unreachable!() };
    assert_eq!(name_token_span(&n, 2), span(5, 7, 2));
}

#[test]
fn uses_resolve_against_the_program() {
    // use A.B        (0..7)
    // use C as D     (8..18)
    // use A.B.{x, y} (19..33)
    let f = file(vec![
        use_whole(&["A", "B"]),
        use_alias(&["C"], "D"),
        use_members(&["A", "B"], &["x", "y"]),
    ]);
    let modules = vec![(name("Main"), file(vec![])), (name("A.B"), file(vec![]))];
    let uses = resolve_uses(&f, &modules, 0);
    assert_eq!(uses.len(), 3);

    assert_eq!(uses[0].target.as_str(), "A.B");
    assert_eq!(uses[0].target_index, Some(1));
    assert_eq!(uses[0].use_span, span(0, 7, 0));
    assert_eq!(uses[0].path_span, span(4, 7, 0));
    assert_eq!(uses[0].alias, None);
    assert!(uses[0].selected.is_empty());
    assert_eq!(uses[0].qualifier(), "B");

    assert_eq!(uses[1].target.as_str(), "C");
    assert_eq!(uses[1].target_index, None);
    assert_eq!(uses[1].use_span, span(8, 18, 0));
    assert_eq!(uses[1].alias.as_deref(), Some("D"));
    assert_eq!(uses[1].qualifier(), "D");

    assert_eq!(uses[2].target_index, Some(1));
    assert_eq!(uses[2].selected, vec![(String::from("x"), span(28, 29, 0)), (String::from("y"), span(31, 32, 0))]);
}

#[test]
fn a_duplicated_module_name_resolves_to_the_last() {
    let f = file(vec![use_whole(&["Lib"])]);
    let modules = vec![(name("Lib"), file(vec![])), (name("Main"), file(vec![])), (name("Lib"), file(vec![]))];
    assert_eq!(resolve_uses(&f, &modules, 1)[0].target_index, Some(2));
}

#[test]
fn selected_members_carry_their_spans() {
    let mut u = use_members(&["M"], &["a"]);
    place(&mut u, 100);
    let SyntaxElement::Node(n) = u else { unreachable!() };
    let decl = UseDecl::cast(n).unwrap();
    // use M.{a}: `a` is at 107..108
    assert_eq!(selected_members(&decl, 9), vec![(String::from("a"), span(107, 108, 9))]);
}

#[test]
fn a_mismatched_module_declaration_is_reported() {
    let f = file(vec![module_decl("Other")]);
    let diags = module_name_diagnostics(&f, &name("Main"), 4);
    assert_eq!(diags.len(), 1);
    assert_eq!(diags[0].code, CheckCode::C0019);
    assert_eq!(diags[0].severity, Severity::Error);
    assert_eq!(diags[0].span, span(7, 12, 4));
    assert_eq!(diags[0].message, "module is declared `Other` but its path names it `Main`");
    assert!(module_name_diagnostics(&file(vec![module_decl("Main")]), &name("Main"), 0).is_empty());
    assert!(module_name_diagnostics(&file(vec![]), &name("Main"), 0).is_empty());
}

#[test]
fn modules_are_ordered_dependencies_first() {
    // Main imports Util and Model; Model imports Util.
    let modules = vec![
        (name("Main"), file(vec![use_whole(&["Util"]), use_whole(&["Model"])])),
        (name("Util"), file(vec![])),
        (name("Model"), file(vec![use_whole(&["Util"])])),
    ];
    let plan = plan_imports(&modules);
    assert_eq!(plan.graph, vec![vec![1, 2], vec![], vec![1]]);
    assert_eq!(plan.order, vec![vec![1], vec![2], vec![0]]);
    assert_eq!(plan.component, vec![2, 0, 1]);
    for (i, uses) in plan.resolved.iter().enumerate() {
        for u in uses {
            assert!(import_diagnostic(u, &plan.component, i).is_none());
        }
    }
}

#[test]
fn an_import_cycle_is_reported_at_each_import_in_it() {
    // A imports B, B imports A, C imports A and itself, D imports Nowhere.
    let modules = vec![
        (name("A"), file(vec![use_whole(&["B"])])),
        (name("B"), file(vec![use_whole(&["A"])])),
        (name("C"), file(vec![use_whole(&["A"]), use_whole(&["C"])])),
        (name("D"), file(vec![use_whole(&["Nowhere"])])),
    ];
    let plan = plan_imports(&modules);
    assert_eq!(plan.order, vec![vec![0, 1], vec![2], vec![3]]);

    let a_to_b = import_diagnostic(&plan.resolved[0][0], &plan.component, 0).unwrap();
    assert_eq!(a_to_b.code, CheckCode::C0020);
    assert_eq!(a_to_b.span, span(0, 5, 0));
    assert_eq!(a_to_b.message, "circular import: module `B` is part of an import cycle");
    let b_to_a = import_diagnostic(&plan.resolved[1][0], &plan.component, 1).unwrap();
    assert_eq!(b_to_a.code, CheckCode::C0020);

    assert!(import_diagnostic(&plan.resolved[2][0], &plan.component, 2).is_none());
    let self_import = import_diagnostic(&plan.resolved[2][1], &plan.component, 2).unwrap();
    assert_eq!(self_import.code, CheckCode::C0020);
    assert_eq!(self_import.span, span(6, 11, 2));

    let nowhere = import_diagnostic(&plan.resolved[3][0], &plan.component, 3).unwrap();
    assert_eq!(nowhere.code, CheckCode::C0023);
    assert_eq!(nowhere.span, span(4, 11, 3));
    assert_eq!(nowhere.message, "unresolved import: no module named `Nowhere`");
}
