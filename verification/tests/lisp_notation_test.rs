use pype::types::LispArena;
use pype::types::LispExp;

#[test]
fn lisp_notation_test_test() {
    let mut arena = LispArena::default();
    let v1 = arena.alloc_exp(LispExp::new_symbol("call"));
    let v2 = arena.alloc_exp(LispExp::new_symbol("print"));
    let v3 = arena.alloc_exp(LispExp::new_symbol("line"));
    let v4 = arena.alloc_exp(LispExp::new_symbol("kw"));
    let v5 = arena.alloc_exp(LispExp::new_symbol("end"));
    let v6 = arena.alloc_exp("".into());

    let inner = arena.build(&vec![v4, v5, v6], None);
    let e1 = arena.build(&vec![v1, v2, v3, inner], None);
    assert_eq!(arena.to_text(e1), "(call print line (kw end \"\"))");
}

#[test]
fn test_stmt1() {
    let mut arena = LispArena::default();
    let v1 = arena.alloc_exp(LispExp::new_symbol("call"));
    let v2 = arena.alloc_exp(LispExp::new_symbol("print"));
    let v3 = arena.alloc_exp(LispExp::new_symbol("line"));
    let v4 = arena.alloc_exp(LispExp::new_symbol("kw"));
    let v5 = arena.alloc_exp(LispExp::new_symbol("end"));
    let v6 = arena.alloc_exp("".into());
    let v7 = arena.alloc_exp(LispExp::new_symbol("for"));
    let v8 = arena.alloc_exp(LispExp::new_symbol("line"));
    let v9 = arena.alloc_exp(LispExp::new_symbol("f"));

    let inner = arena.build(&vec![v4, v5, v6], None);
    let e1 = arena.build(&vec![v1, v2, v3, inner], None);
    let e2 = arena.build(&vec![v7, v8, v9, e1], None);
    assert_eq!(arena.to_text(e1), "(call print line (kw end \"\"))");
    assert_eq!(arena.to_text(e2), "(for line f (call print line (kw end \"\")))");
}
