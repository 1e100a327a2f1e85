use hird_check::env::Env;
use hird_check::wire::value::Ty;

fn con(name: &str) -> Ty {
    Ty::Con(String::from(name), vec![])
}

#[test]
fn lookups_search_innermost_first() {
    let mut env = Env::new();
    assert!(env.lookup("x").is_none());
    env.insert_root("x", con("Int"));
    assert_eq!(env.lookup("x"), Some(&con("Int")));
    env.push_scope();
    assert_eq!(env.lookup("x"), Some(&con("Int")));
    assert!(env.insert("x", con("String")));
    assert_eq!(env.lookup("x"), Some(&con("String")));
    assert!(!env.insert("y", con("Bool")));
    assert_eq!(env.lookup("y"), Some(&con("Bool")));
    env.pop_scope();
    assert_eq!(env.lookup("x"), Some(&con("Int")));
    assert!(env.lookup("y").is_none());
}

#[test]
fn inserting_reports_shadowing_of_any_visible_binding() {
    let mut env = Env::new();
    assert!(!env.insert("f", con("Int")));
    assert!(env.insert("f", con("Float")));
    assert_eq!(env.lookup("f"), Some(&con("Float")));
    env.push_scope();
    env.push_scope();
    assert!(env.insert("f", con("Bool")));
    assert!(!env.insert("g", con("Bool")));
}

#[test]
fn root_bindings_hide_behind_inner_ones() {
    let mut env = Env::new();
    env.push_scope();
    env.insert("v", con("Int"));
    env.insert_root("v", con("String"));
    env.insert_root("w", con("String"));
    assert_eq!(env.lookup("v"), Some(&con("Int")));
    assert_eq!(env.lookup("w"), Some(&con("String")));
    env.pop_scope();
    assert_eq!(env.lookup("v"), Some(&con("String")));
}
