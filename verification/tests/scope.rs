use rainbow_core::typing::{FreshVarSupply, Type, TypeEnv};
use rainbow_core::Scope;
use std::rc::Rc;

#[test]
fn test_scope() {
    let mut scopes: Scope<usize, &'static str> = Scope::new();
    let root = scopes.root();
    assert_eq!(scopes.insert(root, "foo", 1), None);
    assert_eq!(scopes.insert(root, "foo", 2), Some(Rc::new(1)));
    let child = scopes.new_child(root);
    assert_eq!(scopes.insert(child, "foo", 3), None);
    assert_eq!(scopes.insert(child, "bar", 1), None);
    assert_eq!(scopes.get(child, &"foo"), Some(Rc::new(3)));
    assert_eq!(scopes.get(child, &"bar"), Some(Rc::new(1)));
    assert_eq!(scopes.get(root, &"foo"), Some(Rc::new(2)));
    let child_foo = scopes.get(child, &"foo");
    drop(scopes);
    assert_eq!(child_foo, Some(Rc::new(3)));
}

#[test]
fn scope_root_and_flatten() {
    let mut scopes: Scope<usize, &'static str> = Scope::new();
    let root = scopes.root();
    scopes.insert(root, "a", 1);
    let inner = scopes.new_child(root);
    scopes.insert(inner, "a", 2);
    scopes.insert_at_root(inner, "b", 7);
    assert_eq!(scopes.get(inner, &"a"), Some(Rc::new(2)));
    assert_eq!(scopes.get(inner, &"b"), Some(Rc::new(7)));
    let flat = scopes.flatten(inner);
    assert_eq!(flat, vec![("a", Rc::new(2)), ("b", Rc::new(7))]);
    assert_eq!(scopes.parent(inner), Some(root));
    assert_eq!(scopes.parent(root), None);
    assert_eq!(scopes.get(root, &"a"), Some(Rc::new(1)));
    assert_eq!(scopes.get(root, &"c"), None);
    let doubled = scopes.map_clone(|v| v * 2);
    assert_eq!(doubled.get(root, &"b"), Some(Rc::new(14)));
    assert_eq!(doubled.get(inner, &"a"), Some(Rc::new(4)));
    let child = scopes.new_child_with_capacity(root, 4);
    assert_eq!(scopes.get(child, &"a"), Some(Rc::new(1)));
}

#[test]
fn a_child_sees_what_its_parent_gets_later() {
    let mut scopes: Scope<usize, &'static str> = Scope::new();
    let root = scopes.root();
    let child = scopes.new_child(root);
    assert_eq!(scopes.get(child, &"k"), None);
    assert_eq!(scopes.insert(child, "own", 1), None);
    assert_eq!(scopes.insert(root, "k", 5), None);
    assert_eq!(scopes.insert(root, "own", 9), None);
    assert_eq!(scopes.get(child, &"k"), Some(Rc::new(5)));
    assert_eq!(scopes.get(child, &"own"), Some(Rc::new(1)));
    assert_eq!(scopes.get(root, &"own"), Some(Rc::new(9)));
}

#[test]
fn a_grandchild_puts_into_the_shared_root() {
    let mut scopes: Scope<usize, &'static str> = Scope::new();
    let root = scopes.root();
    let child = scopes.new_child(root);
    let grand = scopes.new_child(child);
    assert_eq!(scopes.insert(child, "shadow", 1), None);
    assert_eq!(scopes.insert_at_root(grand, "k", 4), None);
    assert_eq!(scopes.insert_at_root(grand, "shadow", 2), None);
    assert_eq!(scopes.insert_at_root(child, "k", 6), Some(Rc::new(4)));
    assert_eq!(scopes.get(root, &"k"), Some(Rc::new(6)));
    assert_eq!(scopes.get(grand, &"k"), Some(Rc::new(6)));
    assert_eq!(scopes.get(root, &"shadow"), Some(Rc::new(2)));
    assert_eq!(scopes.get(grand, &"shadow"), Some(Rc::new(1)));
    assert_eq!(scopes.flatten(child), vec![("k", Rc::new(6)), ("shadow", Rc::new(1))]);
    assert_eq!(scopes.flatten(grand), scopes.flatten(child));
}

#[test]
fn flatten_agrees_with_get() {
    let mut scopes: Scope<usize, &'static str> = Scope::new();
    let root = scopes.root();
    scopes.insert(root, "a", 1);
    scopes.insert(root, "b", 2);
    scopes.insert(root, "a", 3);
    let inner = scopes.new_child(root);
    scopes.insert(inner, "b", 4);
    scopes.insert(inner, "c", 5);
    let flat = scopes.flatten(inner);
    assert_eq!(flat.len(), 3);
    for (key, value) in flat {
        assert_eq!(scopes.get(inner, &key), Some(value));
    }
}

#[test]
fn environments_share_the_root_and_the_undefined_names() {
    let mut env = TypeEnv::empty();
    let outer = env.here();
    let inner = env.child();
    let name = "x".to_string();
    let local = "y".to_string();
    assert!(!env.contains_key(&name));
    env.go_to(inner);
    assert!(!env.contains_key(&name));
    let mut fresh = FreshVarSupply::new();
    let scheme = env.get_or_let_fresh(&name, &mut fresh);
    env.explicitly_define(local.clone(), Type::Num);
    assert!(env.contains_key(&name));
    assert!(env.contains_key(&local));
    env.go_to(outer);
    assert!(env.contains_key(&name));
    assert!(!env.contains_key(&local));
    assert_eq!(env.get_or_let_fresh(&name, &mut fresh).ty, scheme.ty);
    env.enter();
    assert!(env.contains_key(&name));
    env.leave();
    assert_eq!(env.here(), outer);
    env.leave();
    assert_eq!(env.here(), outer);
}
