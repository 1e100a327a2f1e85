use hird_check::ast::{AstNode, Pattern};
use hird_check::diag::{CheckCode, Severity, Span};
use hird_check::exhaustive::{
    default_matrix, head_ctors, lower, non_exhaustive_message, render_witness, specialize, Ctor, MatchReport,
    Pat, Sig, SigTable, Witness,
};
use hird_check::syntax::{SyntaxElement, SyntaxKind, SyntaxNode, SyntaxToken};

fn variant(name: &str) -> Ctor {
    Ctor::Variant(String::from(name))
}

fn con(name: &str, args: Vec<Pat>) -> Pat {
    Pat::Con(variant(name), args)
}

fn lit(text: &str) -> Pat {
    Pat::Con(Ctor::Lit(String::from(text)), Vec::new())
}

fn tuple(args: Vec<Pat>) -> Pat {
    Pat::Con(Ctor::Tuple, args)
}

fn closed(ctors: Vec<(&str, Vec<usize>)>) -> Sig {
    Sig::Closed(ctors.into_iter().map(|(n, f)| (variant(n), f)).collect())
}

/// 0: Option<Int>, 1: Int.
fn option_int() -> SigTable {
    SigTable { sigs: vec![closed(vec![("Some", vec![1]), ("None", vec![])]), Sig::Open] }
}

/// 0: Bool.
fn bool_table() -> SigTable {
    SigTable { sigs: vec![closed(vec![("True", vec![]), ("False", vec![])])] }
}

fn check(table: &SigTable, arms: Vec<Pat>, scrutinee: usize) -> MatchReport {
    table.check_match(&arms, scrutinee)
}

#[test]
fn coverage_missing_constructor() {
    let r = check(&option_int(), vec![con("Some", vec![Pat::Wild])], 0);
    assert!(r.unreachable.is_empty());
    assert_eq!(r.missing.as_deref(), Some("non-exhaustive match: missing case(s): `None`"));
}

#[test]
fn coverage_lists_all_missing_sorted() {
    let colors = SigTable { sigs: vec![closed(vec![("Red", vec![]), ("Green", vec![]), ("Blue", vec![])])] };
    let r = check(&colors, vec![con("Red", vec![])], 0);
    assert_eq!(r.missing.as_deref(), Some("non-exhaustive match: missing case(s): `Blue`, `Green`"));
}

#[test]
fn coverage_bool() {
    let r = check(&bool_table(), vec![con("True", vec![])], 0);
    assert_eq!(r.missing.as_deref(), Some("non-exhaustive match: missing case(s): `False`"));
    let full = check(&bool_table(), vec![con("True", vec![]), con("False", vec![])], 0);
    assert!(full.missing.is_none());
    assert!(full.unreachable.is_empty());
}

#[test]
fn coverage_wildcard_and_variable_arms_are_exhaustive() {
    let r = check(&option_int(), vec![con("Some", vec![Pat::Wild]), Pat::Wild], 0);
    assert!(r.missing.is_none());
    assert!(r.unreachable.is_empty());
}

#[test]
fn coverage_literals_need_a_wildcard() {
    let r = check(&option_int(), vec![lit("1"), lit("2")], 1);
    assert_eq!(
        r.missing.as_deref(),
        Some("non-exhaustive match: add a wildcard `_` arm to cover the remaining values")
    );
}

#[test]
fn coverage_duplicate_literal_is_unreachable() {
    let r = check(&option_int(), vec![lit("1"), lit("1"), Pat::Wild], 1);
    assert_eq!(r.unreachable, vec![1]);
    assert!(r.missing.is_none());
}

#[test]
fn coverage_arm_after_wildcard_is_unreachable() {
    let r = check(&option_int(), vec![Pat::Wild, con("Some", vec![Pat::Wild])], 0);
    assert_eq!(r.unreachable, vec![1]);
    assert!(r.missing.is_none());
}

#[test]
fn coverage_repeated_constructor_is_unreachable() {
    let r = check(
        &option_int(),
        vec![con("Some", vec![Pat::Wild]), con("None", vec![]), con("Some", vec![Pat::Wild])],
        0,
    );
    assert_eq!(r.unreachable, vec![2]);
    assert!(r.missing.is_none());
}

#[test]
fn coverage_nested_missing_case() {
    // 0: Option<List<Int>>, 1: List<Int>, 2: Int.
    let table = SigTable {
        sigs: vec![
            closed(vec![("Some", vec![1]), ("None", vec![])]),
            closed(vec![("Cons", vec![2, 1]), ("Nil", vec![])]),
            Sig::Open,
        ],
    };
    let arms = vec![con("Some", vec![con("Cons", vec![Pat::Wild, Pat::Wild])]), con("None", vec![])];
    let r = check(&table, arms, 0);
    assert_eq!(r.missing.as_deref(), Some("non-exhaustive match: missing case(s): `Some(Nil)`"));
}

#[test]
fn coverage_tuple_missing_combinations() {
    // 0: (Bool, Bool), 1: Bool.
    let table = SigTable {
        sigs: vec![
            Sig::Closed(vec![(Ctor::Tuple, vec![1, 1])]),
            closed(vec![("True", vec![]), ("False", vec![])]),
        ],
    };
    let arms = vec![
        tuple(vec![con("True", vec![]), con("True", vec![])]),
        tuple(vec![con("False", vec![]), con("False", vec![])]),
    ];
    let r = check(&table, arms, 0);
    assert_eq!(
        r.missing.as_deref(),
        Some("non-exhaustive match: missing case(s): `(False, True)`, `(True, False)`")
    );
    let halves = vec![
        tuple(vec![con("True", vec![]), Pat::Wild]),
        tuple(vec![con("False", vec![]), Pat::Wild]),
    ];
    let r2 = check(&table, halves, 0);
    assert!(r2.missing.is_none());
    assert!(r2.unreachable.is_empty());
}

#[test]
fn coverage_empty_match_misses_everything() {
    let r = check(&option_int(), Vec::new(), 0);
    assert_eq!(r.missing.as_deref(), Some("non-exhaustive match: missing case(s): `None`, `Some(_)`"));
}

#[test]
fn coverage_caps_the_shown_cases_at_six() {
    let names = ["A", "B", "C", "D", "E", "F", "G", "H"];
    let table = SigTable { sigs: vec![closed(names.iter().map(|n| (*n, vec![])).collect())] };
    let r = check(&table, Vec::new(), 0);
    assert_eq!(
        r.missing.as_deref(),
        Some("non-exhaustive match: missing case(s): `A`, `B`, `C`, `D`, `E`, `F`, and 2 more")
    );
}

#[test]
fn useful_reports_witness_rows() {
    let table = option_int();
    let rows = vec![vec![con("Some", vec![Pat::Wild])]];
    let w = table.useful(&rows, &[Pat::Wild], &[0]);
    assert_eq!(w.len(), 1);
    assert_eq!(w[0].len(), 1);
    assert_eq!(render_witness(&w[0][0]), "None");
    let none_left = table.useful(&rows, &[con("Some", vec![lit("3")])], &[0]);
    assert!(none_left.is_empty());
}

#[test]
fn matrix_operations() {
    let m = vec![
        vec![con("Some", vec![lit("1")]), Pat::Wild],
        vec![Pat::Wild, lit("2")],
        vec![con("None", vec![]), Pat::Wild],
    ];
    let s = specialize(&m, &variant("Some"), 1);
    assert_eq!(s.len(), 2);
    assert_eq!(s[0].len(), 2);
    assert!(matches!(&s[0][0], Pat::Con(Ctor::Lit(t), _) if t == "1"));
    assert!(matches!(&s[1][0], Pat::Wild));
    assert!(matches!(&s[1][1], Pat::Con(Ctor::Lit(t), _) if t == "2"));
    let d = default_matrix(&m);
    assert_eq!(d.len(), 1);
    assert_eq!(d[0].len(), 1);
    let heads = head_ctors(&m);
    assert_eq!(heads.len(), 2);
    assert!(matches!(&heads[0], Ctor::Variant(n) if n == "Some"));
    assert!(matches!(&heads[1], Ctor::Variant(n) if n == "None"));
}

#[test]
fn witnesses_render_as_syntax() {
    let w = Witness::Con(
        variant("Pair"),
        vec![
            Witness::Wild,
            Witness::Con(Ctor::Tuple, vec![Witness::Con(Ctor::Lit(String::from("1")), vec![]), Witness::Wild]),
        ],
    );
    assert_eq!(render_witness(&w), "Pair(_, (1, _))");
    assert_eq!(render_witness(&Witness::Con(variant("Nil"), vec![])), "Nil");
    assert_eq!(render_witness(&Witness::Con(Ctor::Tuple, vec![])), "()");
    let rows = vec![vec![Witness::Wild], vec![Witness::Wild]];
    assert_eq!(
        non_exhaustive_message(&rows),
        "non-exhaustive match: add a wildcard `_` arm to cover the remaining values"
    );
}

fn node(kind: SyntaxKind, children: Vec<SyntaxElement>) -> SyntaxElement {
    SyntaxElement::Node(SyntaxNode { kind, children, start: 0, end: 0 })
}

fn token(kind: SyntaxKind, text: &str) -> SyntaxElement {
    SyntaxElement::Token(SyntaxToken { kind, text: String::from(text), start: 0, end: 0 })
}

fn pattern(e: SyntaxElement) -> Pattern {
    match e {
        SyntaxElement::Node(n) => Pattern::cast(n).unwrap(),
        SyntaxElement::Token(_) => panic!("not a node"),
    }
}

#[test]
fn surface_patterns_lower_to_matrix_patterns() {
    // Some((1, x))
    let tree = node(
        SyntaxKind::CONSTRUCTOR_PAT,
        vec![
            token(SyntaxKind::IDENT, "Some"),
            token(SyntaxKind::L_PAREN, "("),
            node(
                SyntaxKind::TUPLE_PAT,
                vec![
                    token(SyntaxKind::L_PAREN, "("),
                    node(SyntaxKind::LITERAL_PAT, vec![token(SyntaxKind::INT, "1")]),
                    token(SyntaxKind::COMMA, ","),
                    token(SyntaxKind::WHITESPACE, " "),
                    node(SyntaxKind::BIND_PAT, vec![token(SyntaxKind::IDENT, "x")]),
                    token(SyntaxKind::R_PAREN, ")"),
                ],
            ),
            token(SyntaxKind::R_PAREN, ")"),
        ],
    );
    let p = lower(&pattern(tree)).unwrap();
    match p {
        Pat::Con(Ctor::Variant(name), args) => {
            assert_eq!(name, "Some");
            assert_eq!(args.len(), 1);
            match &args[0] {
                Pat::Con(Ctor::Tuple, elems) => {
                    assert_eq!(elems.len(), 2);
                    assert!(matches!(&elems[0], Pat::Con(Ctor::Lit(t), _) if t == "1"));
                    assert!(matches!(&elems[1], Pat::Wild));
                }
                _ => panic!("expected a tuple"),
            }
        }
        _ => panic!("expected a constructor"),
    }
    let missing_literal = node(SyntaxKind::LITERAL_PAT, vec![]);
    assert!(lower(&pattern(missing_literal)).is_none());
    let nameless = node(SyntaxKind::CONSTRUCTOR_PAT, vec![node(SyntaxKind::WILDCARD_PAT, vec![])]);
    assert!(lower(&pattern(nameless)).is_none());
}

#[test]
fn match_report_diagnostics() {
    let r = check(&option_int(), vec![Pat::Wild, con("Some", vec![Pat::Wild])], 0);
    let a = Span { start: 10, end: 11, source_id: 0 };
    let b = Span { start: 20, end: 27, source_id: 0 };
    let whole = Span { start: 0, end: 30, source_id: 0 };
    let d = r.diagnostics(&[a, b], whole);
    assert_eq!(d.len(), 1);
    assert_eq!(d[0].code, CheckCode::C0016);
    assert_eq!(d[0].severity, Severity::Warning);
    assert_eq!(d[0].span, b);
    assert_eq!(d[0].message, "unreachable match arm: this pattern is already covered");
    let missing = check(&option_int(), vec![con("None", vec![])], 0);
    let d2 = missing.diagnostics(&[a], whole);
    assert_eq!(d2.len(), 1);
    assert_eq!(d2[0].code, CheckCode::C0015);
    assert_eq!(d2[0].severity, Severity::Error);
    assert_eq!(d2[0].span, whole);
    assert_eq!(d2[0].message, "non-exhaustive match: missing case(s): `Some(_)`");
}
