use plato::symbolic_path::SymbolicPath;

#[test]
fn relationships() {
    assert!("a.b".is_child_of("a"));
    assert!(!"a.bb".is_child_of("a.b"));
    assert!(!"a.b.c".is_child_of("a"));
    assert!(!"a".is_descendant_of("a"));
    assert!(!"a.bb".is_descendant_of("a.b"));
    assert!("a.b.c".is_descendant_of("a"));
    assert!(!"a.b.c".is_descendant_of("b"));
}

#[test]
fn components() {
    assert_eq!("a.b.c".last_component(), "c");
    assert_eq!("a.b.c".first_component(), "a");
    assert_eq!("a".depth(), 0);
    assert_eq!("a.b.c".depth(), 2);
}

#[test]
fn parents_and_ancestors() {
    assert_eq!("a.b.c".parent(), Some("a.b"));
    assert_eq!("a".parent(), None);
    let mut ancestors = "a.b.c".ancestors();
    assert_eq!(ancestors.next(), Some("a.b"));
    assert_eq!(ancestors.next(), Some("a"));
    assert_eq!(ancestors.next(), None);
}

#[test]
fn join_makes_a_child() {
    let joined = "a.b".join("c");
    assert_eq!(joined, "a.b.c");
    assert!(joined.as_str().is_child_of("a.b"));
    assert!(joined.as_str().is_descendant_of("a"));
}
