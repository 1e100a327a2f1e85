use hird_check::checker::{note_duplicate, opaque_violation, wire_violation, WireViolation};
use hird_check::diag::{CheckCode, CheckDiagnostic, Severity, Span};
use hird_check::exhaustive::scheme_arity;
use hird_check::names::ModuleName;
use hird_check::registry::{is_reply_to, CtorInfo, Registry};
use hird_check::wire::value::{Effect, Ty};

fn s(x: &str) -> String {
    String::from(x)
}

fn con(name: &str, args: Vec<Ty>) -> Ty {
    Ty::Con(s(name), args)
}

fn int_ty() -> Ty {
    con("Int", vec![])
}

fn func(params: Vec<Ty>, ret: Ty) -> Ty {
    Ty::Fn(params, Box::new(ret), vec![])
}

fn ctor(owner: &str, fields: Vec<Ty>, opaque: bool) -> CtorInfo {
    CtorInfo { fields, owner: s(owner), module: None, opaque }
}

/// `type Tree<a> = Leaf | Node(Tree<a>, a, Tree<a>)` and
/// `type Box<a> = Box(a)`, alongside the built-in `Bool`.
fn registry() -> Registry {
    let mut r = Registry::new();
    r.declare_adt(s("Tree"), 1, vec![s("Leaf"), s("Node")]);
    r.declare_ctor(s("Leaf"), ctor("Tree", vec![], false));
    let tree = con("Tree", vec![Ty::Var(0)]);
    r.declare_ctor(s("Node"), ctor("Tree", vec![tree.clone(), Ty::Var(0), tree], false));
    r.declare_adt(s("Box"), 1, vec![s("Box")]);
    r.declare_ctor(s("Box"), ctor("Box", vec![Ty::Var(0)], false));
    r
}

#[test]
fn bool_is_predeclared() {
    let r = Registry::new();
    let cs = r.adt_constructors("Bool").unwrap();
    assert_eq!(cs, &vec![s("True"), s("False")]);
    let t = r.ctor("True").unwrap();
    assert_eq!(t.owner, "Bool");
    assert!(t.fields.is_empty());
    assert!(!t.opaque);
    assert!(r.ctor("Maybe").is_none());
    assert_eq!(r.type_arity("Bool"), Some(0));
}

#[test]
fn builtin_arities() {
    let r = Registry::new();
    assert_eq!(r.type_arity("Int"), Some(0));
    assert_eq!(r.type_arity("Float"), Some(0));
    assert_eq!(r.type_arity("String"), Some(0));
    assert_eq!(r.type_arity("List"), Some(1));
    assert_eq!(r.type_arity("Option"), Some(1));
    assert_eq!(r.type_arity("Pid"), Some(1));
    assert_eq!(r.type_arity("ReplyTo"), Some(1));
    assert_eq!(r.type_arity("Map"), None);
    assert!(r.adt_constructors("Int").is_none());
}

#[test]
fn a_later_declaration_replaces_an_earlier_one() {
    let mut r = Registry::new();
    r.declare_adt(s("Option"), 1, vec![s("Some"), s("None")]);
    assert_eq!(r.type_arity("Option"), Some(1));
    r.declare_adt(s("Option"), 2, vec![s("Nothing")]);
    assert_eq!(r.type_arity("Option"), Some(2));
    assert_eq!(r.adt_constructors("Option").unwrap(), &vec![s("Nothing")]);
    r.declare_effect(s("Log"), 0);
    r.declare_effect(s("State"), 1);
    r.declare_effect(s("Log"), 1);
    assert_eq!(r.effect_arity("Log"), Some(1));
    assert_eq!(r.effect_arity("State"), Some(1));
    assert_eq!(r.effect_arity("Exn"), None);
}

#[test]
fn opaque_types_are_the_ones_with_a_private_constructor() {
    let mut r = registry();
    r.declare_adt(s("Token"), 0, vec![s("Token")]);
    r.declare_ctor(
        s("Token"),
        CtorInfo { fields: vec![int_ty()], owner: s("Token"), module: Some(ModuleName::new(s("Auth"))), opaque: true },
    );
    assert!(r.adt_is_opaque("Token"));
    assert!(!r.adt_is_opaque("Tree"));
    assert!(!r.adt_is_opaque("Int"));
    assert!(!r.adt_is_opaque("Bool"));
}

#[test]
fn call_constructors_carry_a_reply_to_field() {
    let mut r = registry();
    r.declare_adt(s("Msg"), 0, vec![s("Get"), s("Put")]);
    r.declare_ctor(s("Get"), ctor("Msg", vec![con("ReplyTo", vec![int_ty()])], false));
    r.declare_ctor(s("Put"), ctor("Msg", vec![int_ty()], false));
    assert!(r.ctor_carries_reply_to("Get"));
    assert!(!r.ctor_carries_reply_to("Put"));
    assert!(!r.ctor_carries_reply_to("Leaf"));
    assert!(!r.ctor_carries_reply_to("Missing"));
    assert_eq!(r.ctor_field_types("Put").len(), 1);
    assert!(r.ctor_field_types("Missing").is_empty());
    assert!(is_reply_to(&con("ReplyTo", vec![])));
    assert!(!is_reply_to(&con("Pid", vec![])));
}

#[test]
fn reply_to_is_found_directly_and_in_arguments() {
    let r = registry();
    assert!(r.contains_reply_to(&con("ReplyTo", vec![int_ty()])));
    assert!(r.contains_reply_to(&con("List", vec![con("ReplyTo", vec![int_ty()])])));
    assert!(r.contains_reply_to(&func(vec![con("ReplyTo", vec![int_ty()])], int_ty())));
    assert!(r.contains_reply_to(&func(vec![], con("ReplyTo", vec![int_ty()]))));
    assert!(r.contains_reply_to(&Ty::Record(vec![(s("k"), con("ReplyTo", vec![int_ty()]))])));
    assert!(r.contains_reply_to(&Ty::Forall(vec![0], Box::new(con("ReplyTo", vec![Ty::Var(0)])))));
    assert!(!r.contains_reply_to(&con("Tree", vec![int_ty()])));
    assert!(!r.contains_reply_to(&Ty::Tuple(vec![int_ty(), Ty::Var(3)])));
}

#[test]
fn reply_to_is_found_through_declared_fields() {
    let mut r = registry();
    // `type Call = Call(Tree<ReplyTo<Int>>)`: found by looking through `Call`.
    r.declare_adt(s("Call"), 0, vec![s("Call")]);
    r.declare_ctor(s("Call"), ctor("Call", vec![con("Tree", vec![con("ReplyTo", vec![int_ty()])])], false));
    assert!(r.contains_reply_to(&con("Call", vec![])));
    assert!(r.contains_reply_to(&Ty::Tuple(vec![int_ty(), con("Call", vec![])])));
    // A recursive type holding none terminates.
    assert!(!r.contains_reply_to(&con("Tree", vec![con("Tree", vec![int_ty()])])));
    // A recursive type holding one finds it.
    r.declare_adt(s("Chain"), 0, vec![s("Link")]);
    r.declare_ctor(s("Link"), ctor("Chain", vec![con("Chain", vec![]), con("ReplyTo", vec![int_ty()])], false));
    assert!(r.contains_reply_to(&con("Chain", vec![])));
}

#[test]
fn function_types_cannot_cross_the_wire() {
    let r = registry();
    let f = func(vec![int_ty()], int_ty());
    match wire_violation(&r, &f) {
        Some(WireViolation::Function(t)) => assert_eq!(t, f),
        other => panic!("expected a function violation, got {other:?}"),
    }
    let nested = Ty::Record(vec![(s("a"), int_ty()), (s("f"), f.clone())]);
    match wire_violation(&r, &nested) {
        Some(WireViolation::Function(t)) => assert_eq!(t, f),
        other => panic!("expected a function violation, got {other:?}"),
    }
    let quantified = Ty::Forall(vec![0], Box::new(Ty::Tuple(vec![Ty::Var(0), f.clone()])));
    assert!(matches!(wire_violation(&r, &quantified), Some(WireViolation::Function(_))));
}

#[test]
fn a_function_is_found_through_an_instantiated_field() {
    let r = registry();
    // `Box<Int -> Int>`: the field `a` of `Box` is instantiated at the
    // function type, which the argument walk already reports.
    let f = func(vec![int_ty()], int_ty());
    match wire_violation(&r, &con("Box", vec![f.clone()])) {
        Some(WireViolation::Function(t)) => assert_eq!(t, f),
        other => panic!("expected a function violation, got {other:?}"),
    }
    let mut r = registry();
    // `type Handler = Handler(Box<Int -> Int>)`: found by looking through.
    r.declare_adt(s("Handler"), 0, vec![s("Handler")]);
    r.declare_ctor(s("Handler"), ctor("Handler", vec![con("Box", vec![f.clone()])], false));
    match wire_violation(&r, &con("Handler", vec![])) {
        Some(WireViolation::Function(t)) => assert_eq!(t, f),
        other => panic!("expected a function violation, got {other:?}"),
    }
}

#[test]
fn opaque_types_cannot_cross_the_wire() {
    let mut r = registry();
    r.declare_adt(s("Secret"), 0, vec![s("Secret")]);
    r.declare_ctor(s("Secret"), ctor("Secret", vec![int_ty()], true));
    match wire_violation(&r, &con("List", vec![con("Secret", vec![])])) {
        Some(WireViolation::Capability(n)) => assert_eq!(n, "Secret"),
        other => panic!("expected a capability violation, got {other:?}"),
    }
    r.declare_adt(s("Vault"), 0, vec![s("Vault")]);
    r.declare_ctor(s("Vault"), ctor("Vault", vec![con("Secret", vec![])], false));
    match wire_violation(&r, &con("Vault", vec![])) {
        Some(WireViolation::Capability(n)) => assert_eq!(n, "Secret"),
        other => panic!("expected a capability violation, got {other:?}"),
    }
}

#[test]
fn plain_data_crosses_the_wire() {
    let r = registry();
    assert!(wire_violation(&r, &int_ty()).is_none());
    assert!(wire_violation(&r, &Ty::Var(0)).is_none());
    assert!(wire_violation(&r, &con("Tree", vec![con("Box", vec![int_ty()])])).is_none());
    assert!(wire_violation(&r, &Ty::Tuple(vec![])).is_none());
    let row_only = Ty::Con(s("List"), vec![Ty::Var(1)]);
    assert!(wire_violation(&r, &row_only).is_none());
    // Effects of a function type do not matter: the function itself does.
    let effectful = Ty::Fn(vec![], Box::new(int_ty()), vec![Effect { head: s("Exn"), args: vec![int_ty()] }]);
    assert!(wire_violation(&r, &effectful).is_some());
}

#[test]
fn opaque_constructors_stay_in_their_module() {
    let auth = ModuleName::new(s("Auth"));
    let main = ModuleName::new(s("Main"));
    let token = CtorInfo { fields: vec![], owner: s("Token"), module: Some(ModuleName::new(s("Auth"))), opaque: true };
    assert_eq!(opaque_violation(&token, Some(&auth), "construct"), None);
    assert_eq!(
        opaque_violation(&token, Some(&main), "construct").unwrap(),
        "cannot construct opaque type `Token` outside module `Auth`"
    );
    assert_eq!(
        opaque_violation(&token, None, "destructure").unwrap(),
        "cannot destructure opaque type `Token` outside module `Auth`"
    );
    let local = CtorInfo { fields: vec![], owner: s("Key"), module: None, opaque: true };
    assert_eq!(opaque_violation(&local, None, "construct"), None);
    assert_eq!(
        opaque_violation(&local, Some(&main), "construct").unwrap(),
        "cannot construct opaque type `Key` outside module ``"
    );
    let open = CtorInfo { fields: vec![], owner: s("Pair"), module: Some(ModuleName::new(s("Auth"))), opaque: false };
    assert_eq!(opaque_violation(&open, Some(&main), "construct"), None);
}

#[test]
fn scheme_arity_counts_fields_under_quantifiers() {
    let pair = Ty::Forall(vec![0, 1], Box::new(func(vec![Ty::Var(0), Ty::Var(1)], con("Pair", vec![Ty::Var(0), Ty::Var(1)]))));
    assert_eq!(scheme_arity(&pair), 2);
    assert_eq!(scheme_arity(&con("Bool", vec![])), 0);
    assert_eq!(scheme_arity(&func(vec![int_ty()], int_ty())), 1);
}

#[test]
fn duplicates_point_back_at_the_first_definition() {
    let mut diags: Vec<CheckDiagnostic> = Vec::new();
    let mut spans: Vec<(String, Span)> = Vec::new();
    let first = Span { start: 0, end: 3, source_id: 0 };
    let again = Span { start: 10, end: 13, source_id: 0 };
    note_duplicate(&mut diags, &mut spans, CheckCode::C0001, "foo", first, s("duplicate `foo`"));
    assert!(diags.is_empty());
    note_duplicate(&mut diags, &mut spans, CheckCode::C0001, "foo", again, s("duplicate `foo`"));
    assert_eq!(diags.len(), 1);
    assert_eq!(diags[0].code, CheckCode::C0001);
    assert_eq!(diags[0].severity, Severity::Error);
    assert_eq!(diags[0].span, again);
    assert_eq!(diags[0].message, "duplicate `foo`");
    assert_eq!(diags[0].related.len(), 1);
    assert_eq!(diags[0].related[0].span, first);
    assert_eq!(diags[0].related[0].message, "first defined here");
    note_duplicate(&mut diags, &mut spans, CheckCode::C0001, "bar", again, s("duplicate `bar`"));
    assert_eq!(diags.len(), 1);
}
