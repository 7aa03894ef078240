use checker::access_path::PathArena;

#[test]
fn find_root_of_nested_field() {
    let mut arena = PathArena::new();
    let p1 = arena.add_parameter(1);
    let f = arena.add_qualified(p1, "f".to_string());
    let g = arena.add_qualified(f, "g".to_string());
    assert_eq!(arena.find_root(g), p1);
    assert_eq!(arena.find_root(f), p1);
    assert_eq!(arena.find_root(p1), p1);
    assert_eq!(arena.get_ordinal(arena.find_root(g)), Some(1));
    assert_eq!(arena.get_ordinal(g), None);
    assert_eq!(arena.len(), 3);
}

#[test]
fn find_root_is_idempotent_and_shared() {
    let mut arena = PathArena::new();
    let p2 = arena.add_parameter(2);
    let a = arena.add_qualified(p2, "a".to_string());
    let b = arena.add_qualified(p2, "b".to_string());
    let ab = arena.add_qualified(a, "b".to_string());
    let root = arena.find_root(ab);
    assert_eq!(arena.find_root(root), root);
    assert_eq!(arena.get_ordinal(arena.find_root(ab)), arena.get_ordinal(arena.find_root(b)));
}

#[test]
fn other_roots_have_no_ordinal() {
    let mut arena = PathArena::new();
    let o = arena.add_other("static X".to_string());
    let q = arena.add_qualified(o, "f".to_string());
    assert_eq!(arena.find_root(q), o);
    assert_eq!(arena.get_ordinal(o), None);
}
