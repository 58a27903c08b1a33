use pype::generator::{gen, gen_atom};
use pype::types::LispArena;
use pype::types::LispAtom;

#[test]
fn test_gen_atom() {
    assert_eq!(gen_atom(&LispAtom::new_symbol("t")), "True".to_string());
    assert_eq!(gen_atom(&LispAtom::new_symbol("nil")), "None".to_string());
    assert_eq!(gen_atom(&LispAtom::new_symbol("true")), "True".to_string());
    assert_eq!(gen_atom(&LispAtom::new_symbol("false")), "False".to_string());
    assert_eq!(gen_atom(&LispAtom::new_symbol("foo")), "foo".to_string());
    assert_eq!(gen_atom(&LispAtom::Int(1)), "1".to_string());
    assert_eq!(gen_atom(&LispAtom::Float(format!("{}", 1.1))), "1.1".to_string());
    assert_eq!(gen_atom(&LispAtom::Str("foo".to_string())), "\"foo\"".to_string());
}

#[test]
fn test_gen_cons_kw() {
    let mut arena = LispArena::default();
    let c1 = arena.alloc_exp(LispAtom::new_symbol("kw").into());
    let c2 = arena.alloc_exp(LispAtom::new_symbol("end").into());
    let c3 = arena.alloc_exp("".into());

    let e1 = arena.build(&vec![c1, c2, c3], None);
    assert_eq!(gen(&arena, e1).unwrap(), "end=\"\"".to_string());
}

#[test]
fn test_gen_cons_call() {
    let mut arena = LispArena::default();
    let c1 = arena.alloc_exp(LispAtom::new_symbol("kw").into());
    let c2 = arena.alloc_exp(LispAtom::new_symbol("end").into());
    let c3 = arena.alloc_exp("".into());
    let c4 = arena.alloc_exp(LispAtom::new_symbol("call").into());
    let c5 = arena.alloc_exp(LispAtom::new_symbol("print").into());
    let c6 = arena.alloc_exp(LispAtom::new_symbol("line").into());

    let e1 = arena.build(&vec![c1, c2, c3], None);
    let e2 = arena.build(&vec![c4, c5, c6, e1], None);

    assert_eq!(gen(&arena, e2).unwrap(), "print(line, end=\"\")".to_string());
}

#[test]
fn test_gen_cons_for() {
    let mut arena = LispArena::default();
    let c1 = arena.alloc_exp(LispAtom::new_symbol("kw").into());
    let c2 = arena.alloc_exp(LispAtom::new_symbol("end").into());
    let c3 = arena.alloc_exp("".into());
    let c4 = arena.alloc_exp(LispAtom::new_symbol("call").into());
    let c5 = arena.alloc_exp(LispAtom::new_symbol("print").into());
    let c6 = arena.alloc_exp(LispAtom::new_symbol("line").into());
    let c7 = arena.alloc_exp(LispAtom::new_symbol("for").into());
    let c8 = arena.alloc_exp(LispAtom::new_symbol("line").into());
    let c9 = arena.alloc_exp(LispAtom::new_symbol("f").into());

    let e1 = arena.build(&vec![c1, c2, c3], None);
    let e2 = arena.build(&vec![c4, c5, c6, e1], None);
    let e3 = arena.build(&vec![c7, c8, c9, e2], None);

    let expect = "\
for line in f:
    print(line, end=\"\")";
    assert_eq!(gen(&arena, e3).unwrap(), expect.to_string());
}

#[test]
fn test_gen_cons_with() {
    let mut arena = LispArena::default();
    let c1 = arena.alloc_exp(LispAtom::new_symbol("kw").into());
    let c2 = arena.alloc_exp(LispAtom::new_symbol("end").into());
    let c3 = arena.alloc_exp("".into());
    let c4 = arena.alloc_exp(LispAtom::new_symbol("call").into());
    let c5 = arena.alloc_exp(LispAtom::new_symbol("print").into());
    let c6 = arena.alloc_exp(LispAtom::new_symbol("line").into());
    let c7 = arena.alloc_exp(LispAtom::new_symbol("for").into());
    let c8 = arena.alloc_exp(LispAtom::new_symbol("line").into());
    let c9 = arena.alloc_exp(LispAtom::new_symbol("f").into());
    let c10 = arena.alloc_exp(LispAtom::new_symbol("with").into());
    let c11 = arena.alloc_exp(LispAtom::new_symbol("open").into());
    let c12 = arena.alloc_exp("./temp".into());

    let e1 = arena.build(&vec![c1, c2, c3], None);
    let e2 = arena.build(&vec![c4, c5, c6, e1], None);
    let e3 = arena.build(&vec![c7, c8, c9, e2], None);
    let inner = arena.build(&vec![c4, c11, c12], None);
    let e4 = arena.build(&vec![c10, inner, c9, e3], None);

    let expect = "\
with open(\"./temp\") as f:
    for line in f:
        print(line, end=\"\")";
    assert_eq!(gen(&arena, e4).unwrap(), expect.to_string());
}

#[test]
fn test_gen_progn() {
    let mut arena = LispArena::default();
    let c1 = arena.alloc_exp(LispAtom::new_symbol("progn").into());

    let args = ["print(\"hello\")", "print(\"world\")"];
    let mut cur = arena.build(&vec![], None);
    for arg in args.iter().rev() {
        let c2 = arena.alloc_exp(LispAtom::new_raw_text(*arg).into());
        cur = arena.build(&vec![c2], Some(cur));
    }

    let e1 = arena.build(&vec![c1], Some(cur));
    let expect = "\
print(\"hello\")
print(\"world\")";
    assert_eq!(gen(&arena, e1).unwrap(), expect.to_string());
}

#[test]
fn test_gen_attr() {
    let mut arena = LispArena::default();
    let c1 = arena.alloc_exp(LispAtom::new_symbol("attr").into());
    let c2 = arena.alloc_exp(LispAtom::new_symbol("foo").into());
    let c3 = arena.alloc_exp(LispAtom::new_symbol("bar").into());

    let e1 = arena.build(&vec![c1, c2, c3], None);
    assert_eq!(gen(&arena, e1).unwrap(), "foo.bar".to_string());
}

#[test]
fn test_gen_attr_call() {
    let mut arena = LispArena::default();
    let c1 = arena.alloc_exp(LispAtom::new_symbol("attr").into());
    let c2 = arena.alloc_exp(LispAtom::new_symbol("foo").into());
    let c3 = arena.alloc_exp(LispAtom::new_symbol("bar").into());
    let c4 = arena.alloc_exp(LispAtom::new_symbol("call").into());

    let e1 = arena.build(&vec![c1, c2, c3], None);
    let e2 = arena.build(&vec![c4, e1], None);

    assert_eq!(gen(&arena, e2).unwrap(), "foo.bar()".to_string());
}
