use rainbow_core::arena::Arena;

#[test]
fn intern_twice_gives_same_id() {
    let mut arena: Arena<String> = Arena::with_capacity(4);
    let a = arena.intern(String::from("foo"));
    let b = arena.intern(String::from("bar"));
    let c = arena.intern(String::from("foo"));
    assert_eq!(a, 0);
    assert_eq!(b, 1);
    assert_eq!(a, c);
    assert_eq!(arena.resolve(a), "foo");
    assert_eq!(arena.resolve(b), "bar");
    assert_eq!(arena.len(), 2);
}

#[test]
fn find_is_none_for_unknown() {
    let mut arena: Arena<String> = Arena::with_capacity(4);
    arena.intern(String::from("foo"));
    assert_eq!(arena.find(&String::from("foo")), Some(0));
    assert_eq!(arena.find(&String::from("nope")), None);
    assert_eq!(arena.as_slice().len(), 1);
}
