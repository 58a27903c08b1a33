use pype::types::LispArena;
use pype::types::LispExp;

#[test]
fn atom_test_test() {
    let mut arena = LispArena::default();
    let c1 = arena.alloc_exp(1.into());
    let c2 = arena.alloc_exp("foo".into());
    let c3 = arena.alloc_exp(LispExp::new_symbol("bar"));

    let e1 = arena.build(&vec![c1, c2, c3], None);
    assert_eq!(arena.to_text(e1), "(1 \"foo\" bar)");
}
