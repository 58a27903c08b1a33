use pype::types::LispArena;

#[test]
fn test_alloc() {
    let mut arena = LispArena::default();
    let nil = arena.alloc_symbol("nil");
    let c1 = arena.alloc_exp(1.into());
    let c2 = arena.alloc_exp(2.into());
    let c3 = arena.alloc_exp(3.into());

    let e1 = arena.alloc_exp((&c1, &nil).into());
    let e2 = arena.alloc_exp((&c2, &e1).into());
    let e3 = arena.alloc_exp((&c3, &e2).into());
    assert_eq!(arena.to_text(e3), "(3 2 1)");
}

#[test]
fn test_alloc_macro() {
    let mut arena = LispArena::default();
    let c1 = arena.alloc_exp(1.into());
    let c2 = arena.alloc_exp(2.into());
    let c3 = arena.alloc_exp(3.into());

    let e1 = arena.build(&vec![c1], None);
    assert_eq!(arena.to_text(e1), "(1)");

    let e2 = arena.build(&vec![c1, c2, c3], None);
    assert_eq!(arena.to_text(e2), "(1 2 3)");

    let inner3 = arena.build(&vec![c1, c2], None);
    let e3 = arena.build(&vec![inner3, c3], None);
    assert_eq!(arena.to_text(e3), "((1 2) 3)");

    let inner4 = arena.build(&vec![c2, c3], None);
    let e4 = arena.build(&vec![c1, inner4], None);
    assert_eq!(arena.to_text(e4), "(1 (2 3))");
}

#[test]
fn test_alloc_macro_dotlist() {
    let mut arena = LispArena::default();
    let c1 = arena.alloc_exp(1.into());
    let c2 = arena.alloc_exp(2.into());
    let c3 = arena.alloc_exp(3.into());

    let e1 = arena.build(&vec![c1], None);
    assert_eq!(arena.to_text(e1), "(1)");

    let e2 = arena.build(&vec![c1], Some(c2));
    assert_eq!(arena.to_text(e2), "(1 . 2)");

    let e3 = arena.build(&vec![c1, c2, c3], Some(e1));
    assert_eq!(arena.to_text(e3), "(1 2 3 1)");

    let inner4 = arena.build(&vec![c1, c2], None);
    let e4 = arena.build(&vec![c1, c2, c3], Some(inner4));
    assert_eq!(arena.to_text(e4), "(1 2 3 1 2)");

    let inner5 = arena.build(&vec![c1, c2], Some(c3));
    let e5 = arena.build(&vec![c1, c2, c3], Some(inner5));
    assert_eq!(arena.to_text(e5), "(1 2 3 1 2 . 3)");
}
