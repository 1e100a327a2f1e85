use hird_check::diag::{has_errors, CheckCode, CheckDiagnostic, Severity, Span};
use hird_check::names::{is_var_name, tool_fn_name, ModuleName, NodeKey};
use hird_check::syntax::SyntaxKind;

#[test]
fn tool_names_become_snake_case() {
    assert_eq!(tool_fn_name("ReadRepo"), "read_repo");
    assert_eq!(tool_fn_name("LLMCall"), "llm_call");
    assert_eq!(tool_fn_name("HttpGet"), "http_get");
    assert_eq!(tool_fn_name("Ping"), "ping");
    assert_eq!(tool_fn_name("ABC"), "abc");
    assert_eq!(tool_fn_name("GetURLs"), "get_ur_ls");
    assert_eq!(tool_fn_name(""), "");
}

#[test]
fn module_names_split_at_the_last_dot() {
    assert_eq!(ModuleName::new(String::from("Actors.Base")).last_segment(), "Base");
    assert_eq!(ModuleName::new(String::from("Planner")).last_segment(), "Planner");
    assert_eq!(ModuleName::new(String::from("A.")).last_segment(), "");
    assert_eq!(ModuleName::new(String::from("Actors.Base")).as_str(), "Actors.Base");
}

#[test]
fn lowercase_names_are_type_variables() {
    assert!(is_var_name("a"));
    assert!(is_var_name("élan"));
    assert!(!is_var_name("Int"));
    assert!(!is_var_name(""));
    assert!(!is_var_name("_x"));
}

#[test]
fn node_keys_order_by_kind_then_range() {
    assert!(NodeKey::new(SyntaxKind::SOURCE_FILE, 5, 9) < NodeKey::new(SyntaxKind::MODULE_DECL, 0, 1));
    assert!(NodeKey::new(SyntaxKind::FN_DECL, 5, 9) < NodeKey::new(SyntaxKind::FN_DECL, 6, 7));
    assert_eq!(NodeKey::new(SyntaxKind::IDENT, 4, 5), NodeKey::new(SyntaxKind::IDENT, 4, 5));
}

#[test]
fn diagnostics_carry_their_severity_and_related_spans() {
    let span = Span { start: 1, end: 4, source_id: 0 };
    let other = Span { start: 10, end: 12, source_id: 0 };
    let warn = CheckDiagnostic::warning(CheckCode::C0011, span, String::from("shadowed"));
    assert!(!has_errors(&[warn]));
    let err = CheckDiagnostic::error(CheckCode::C0017, span, String::from("defined twice"))
        .with_related(other, String::from("first defined here"));
    assert_eq!(err.severity, Severity::Error);
    assert_eq!(err.related.len(), 1);
    assert_eq!(err.related[0].span, other);
    assert!(has_errors(&[err]));
}

#[test]
fn module_names_compare_as_their_text() {
    let m = |t: &str| ModuleName::new(String::from(t));
    assert_eq!(m("A.b"), m("A.b"));
    assert_ne!(m("A.b"), m("A.c"));
    assert!(m("A.b") < m("A.c"));
    assert!(m("A") < m("A.b"));
    assert!(m("B") > m("A.z"));
    assert_eq!(m("A.b").partial_cmp(&m("A.b")), Some(std::cmp::Ordering::Equal));
    assert_eq!(m("A.b").cmp(&m("A.c")), std::cmp::Ordering::Less);
}
