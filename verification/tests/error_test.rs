use pype::generator::{gen, GenError};
use pype::types::LispArena;
use pype::types::LispAtom;
use pype::types::LispExp;

#[test]
fn test_unknown_head_symbol_fails() {
    let mut arena = LispArena::default();
    let head = arena.alloc_exp(LispExp::new_symbol("frobnicate"));
    let arg = arena.alloc_exp(1.into());
    let e = arena.build(&vec![head, arg], None);
    match gen(&arena, e) {
        Err(GenError::UnknownFunction(name)) => assert_eq!(name, "frobnicate"),
        _ => panic!("an unknown head symbol must fail the generator"),
    }
}

#[test]
fn test_head_not_symbol_fails_distinctly() {
    let mut arena = LispArena::default();
    let head = arena.alloc_exp(7.into());
    let arg = arena.alloc_exp(1.into());
    let e = arena.build(&vec![head, arg], None);
    let r = gen(&arena, e);
    assert!(matches!(r, Err(GenError::WrongTypeArgument)));
    assert!(!matches!(r, Err(GenError::UnknownFunction(_))));
}

#[test]
fn test_cons_head_fails_as_wrong_type() {
    let mut arena = LispArena::default();
    let s = arena.alloc_exp(LispExp::new_symbol("attr"));
    let a = arena.alloc_exp(LispExp::new_symbol("x"));
    let b = arena.alloc_exp(LispExp::new_symbol("y"));
    let head = arena.build(&vec![s, a, b], None);
    let e = arena.build(&vec![head, a], None);
    assert!(matches!(gen(&arena, e), Err(GenError::WrongTypeArgument)));
}

#[test]
fn test_kw_too_few_arguments() {
    let mut arena = LispArena::default();
    let s = arena.alloc_exp(LispExp::new_symbol("kw"));
    let a = arena.alloc_exp(LispExp::new_symbol("end"));
    let e = arena.build(&vec![s, a], None);
    match gen(&arena, e) {
        Err(GenError::WrongNumberOfArguments(name)) => assert_eq!(name, "kw"),
        _ => panic!("a kw form with one argument must fail"),
    }
}

#[test]
fn test_for_too_few_arguments() {
    let mut arena = LispArena::default();
    let s = arena.alloc_exp(LispExp::new_symbol("for"));
    let a = arena.alloc_exp(LispExp::new_symbol("line"));
    let b = arena.alloc_exp(LispExp::new_symbol("f"));
    let e = arena.build(&vec![s, a, b], None);
    match gen(&arena, e) {
        Err(GenError::WrongNumberOfArguments(name)) => assert_eq!(name, "for"),
        _ => panic!("a for form with two arguments must fail"),
    }
}

#[test]
fn test_call_without_function_fails() {
    let mut arena = LispArena::default();
    let s = arena.alloc_exp(LispExp::new_symbol("call"));
    let e = arena.build(&vec![s], None);
    assert!(matches!(gen(&arena, e), Err(GenError::WrongNumberOfArguments(_))));
}

#[test]
fn test_failure_inside_argument_propagates() {
    let mut arena = LispArena::default();
    let s = arena.alloc_exp(LispExp::new_symbol("attr"));
    let bad_head = arena.alloc_exp(LispAtom::Int(3).into());
    let x = arena.alloc_exp(LispExp::new_symbol("x"));
    let bad = arena.build(&vec![bad_head, x], None);
    let e = arena.build(&vec![s, bad, x], None);
    assert!(matches!(gen(&arena, e), Err(GenError::WrongTypeArgument)));
}

#[test]
fn test_extract_args_wrong_count() {
    let mut arena = LispArena::default();
    let nil = arena.alloc_symbol("nil");
    let a = arena.alloc_exp(1.into());
    let b = arena.alloc_exp(2.into());
    let e = arena.build(&vec![a, b], None);
    let r = arena.extract_args(e, "pair", 3, 4, nil);
    match r {
        Err(GenError::WrongNumberOfArguments(name)) => assert_eq!(name, "pair"),
        _ => panic!("two elements cannot satisfy an arity of three"),
    }
}

#[test]
fn test_extract_args_pads_with_nil() {
    let mut arena = LispArena::default();
    let nil = arena.alloc_symbol("nil");
    let a = arena.alloc_exp(1.into());
    let b = arena.alloc_exp(2.into());
    let e = arena.build(&vec![a, b], None);
    let v = arena.extract_args(e, "pair", 1, 3, nil).unwrap();
    assert_eq!(v.len(), 3);
    assert_eq!(arena.to_text(v[0]), "1");
    assert_eq!(arena.to_text(v[1]), "2");
    assert_eq!(arena.to_text(v[2]), "nil");
}
