use pype::generator::{gen, gen_atom};
use pype::types::LispArena;
use pype::types::LispAtom;
use pype::types::LispExp;
use pype::types::LispRef;

#[test]
fn test_intern_same_name_same_handle() {
    let mut arena = LispArena::default();
    let s1 = arena.alloc_symbol("foo");
    let s2 = arena.alloc_symbol("foo");
    assert_eq!(s1, s2);
    assert!(arena.exp_eq(s1, s2));
    assert_eq!(arena.to_text(s1), "foo");
}

#[test]
fn test_intern_distinct_names_never_alias() {
    let mut arena = LispArena::default();
    let s1 = arena.alloc_symbol("foo");
    let s2 = arena.alloc_symbol("bar");
    assert_ne!(s1, s2);
    assert!(!arena.exp_eq(s1, s2));
}

#[test]
fn test_empty_build_is_nil_terminator() {
    let mut arena = LispArena::default();
    let e = arena.build(&vec![], None);
    assert_eq!(arena.to_text(e), "nil");
    let nil = arena.alloc_symbol("nil");
    assert_eq!(e, nil);
    // every empty build shares the one interned handle
    let e2 = arena.build(&vec![], None);
    assert_eq!(e2, e);
    // the terminator carries no payload of its own
    let one = arena.alloc_exp(1.into());
    let lst = arena.build(&vec![one], None);
    let v = arena.extract_args(lst, "lst", 0, 5, nil).unwrap();
    assert_eq!(arena.to_text(v[0]), "1");
    assert_eq!(arena.to_text(lst), "(1)");
}

#[test]
fn test_exp_eq_structural() {
    let mut arena = LispArena::default();
    let a1 = arena.alloc_exp(1.into());
    let a2 = arena.alloc_exp(2.into());
    let b1 = arena.alloc_exp(1.into());
    let b2 = arena.alloc_exp(2.into());
    let l1 = arena.build(&vec![a1, a2], None);
    let l2 = arena.build(&vec![b1, b2], None);
    assert!(arena.exp_eq(l1, l2));
    let l3 = arena.build(&vec![a2, a1], None);
    assert!(!arena.exp_eq(l1, l3));
    assert!(!arena.exp_eq(l1, a1));
}

#[test]
fn test_setcar_rewrites_in_place() {
    let mut arena = LispArena::default();
    let nil = arena.alloc_symbol("nil");
    let c1 = arena.alloc_exp(1.into());
    let c2 = arena.alloc_exp(2.into());
    let c3 = arena.alloc_exp(3.into());
    let v42 = arena.alloc_exp(42.into());
    let e1 = arena.alloc_exp((&c1, &nil).into());
    let e2 = arena.alloc_exp((&c2, &e1).into());
    let e3 = arena.alloc_exp((&c3, &e2).into());
    assert_eq!(arena.to_text(e3), "(3 2 1)");
    arena.setcar(e2, v42);
    assert_eq!(arena.to_text(e3), "(3 42 1)");
}

#[test]
fn test_setcdr_rewrites_in_place() {
    let mut arena = LispArena::default();
    let nil = arena.alloc_symbol("nil");
    let c1 = arena.alloc_exp(1.into());
    let c2 = arena.alloc_exp(2.into());
    let c3 = arena.alloc_exp(3.into());
    let v42 = arena.alloc_exp(42.into());
    let e1 = arena.alloc_exp((&c1, &nil).into());
    let e2 = arena.alloc_exp((&c2, &e1).into());
    let e3 = arena.alloc_exp((&c3, &e2).into());
    assert_eq!(arena.to_text(e3), "(3 2 1)");
    arena.setcdr(e2, v42);
    assert_eq!(arena.to_text(e3), "(3 2 . 42)");
}

#[test]
fn test_car_cdr_accessors() {
    let mut arena = LispArena::default();
    let a = arena.alloc_exp(1.into());
    let nil = arena.alloc_symbol("nil");
    let cell = LispExp::from((&a, &nil));
    assert_eq!(cell.car(), a);
    assert_eq!(cell.cdr(), nil);
    let cell2 = LispExp::from((LispRef(0), LispRef(1)));
    assert_eq!(cell2.car(), LispRef(0));
    assert_eq!(cell2.cdr(), LispRef(1));
}

#[test]
fn test_atom_equality_per_variant() {
    assert!(LispAtom::Int(1) == LispAtom::Int(1));
    assert!(LispAtom::Int(1) != LispAtom::Int(2));
    assert!(LispAtom::Str("a".to_string()) == LispAtom::Str("a".to_string()));
    assert!(LispAtom::Str("t".to_string()) != LispAtom::Symbol("t".to_string()));
    assert!(LispAtom::new_symbol("x") == LispAtom::Symbol("x".to_string()));
    assert!(LispAtom::new_raw_text("x") != LispAtom::Str("x".to_string()));
}

#[test]
fn test_int_rendering_edges() {
    assert_eq!(gen_atom(&LispAtom::Int(0)), "0");
    assert_eq!(gen_atom(&LispAtom::Int(-5)), "-5");
    assert_eq!(gen_atom(&LispAtom::Int(i64::MAX)), "9223372036854775807");
    assert_eq!(gen_atom(&LispAtom::Int(i64::MIN)), "-9223372036854775808");
    assert_eq!(LispAtom::Int(1234567890).to_text(), "1234567890");
}

#[test]
fn test_atom_text_round_trips() {
    for i in [0i64, 7, -42, 1000, i64::MAX, i64::MIN] {
        assert_eq!(gen_atom(&LispAtom::Int(i)).parse::<i64>().unwrap(), i);
    }
    for x in [0.0f64, 1.1, -2.5, 1e300] {
        let rendered = gen_atom(&LispAtom::Float(format!("{}", x)));
        assert_eq!(rendered.parse::<f64>().unwrap(), x);
    }
}

#[test]
fn test_float_text_kept_verbatim() {
    let f = LispAtom::Float(format!("{}", 2.5));
    assert_eq!(gen_atom(&f), "2.5");
    assert_eq!(f.to_text(), "2.5");
}

#[test]
fn test_raw_text_not_quoted() {
    let mut arena = LispArena::default();
    let raw = arena.alloc_exp(LispAtom::new_raw_text("if x: y()").into());
    assert_eq!(gen(&arena, raw).unwrap(), "if x: y()");
    let s = arena.alloc_exp(LispExp::from("if x: y()"));
    assert_eq!(gen(&arena, s).unwrap(), "\"if x: y()\"");
}

#[test]
fn test_indent_multiline_body() {
    let mut arena = LispArena::default();
    let s_for = arena.alloc_exp(LispExp::new_symbol("for"));
    let s_line = arena.alloc_exp(LispExp::new_symbol("line"));
    let s_f = arena.alloc_exp(LispExp::new_symbol("f"));
    let s_progn = arena.alloc_exp(LispExp::new_symbol("progn"));
    let r1 = arena.alloc_exp(LispAtom::new_raw_text("a()").into());
    let r2 = arena.alloc_exp(LispAtom::new_raw_text("b()").into());
    let body = arena.build(&vec![s_progn, r1, r2], None);
    let e = arena.build(&vec![s_for, s_line, s_f, body], None);
    assert_eq!(gen(&arena, e).unwrap(), "for line in f:\n    a()\n    b()");
}

#[test]
fn test_empty_progn_body_renders_empty() {
    let mut arena = LispArena::default();
    let s_for = arena.alloc_exp(LispExp::new_symbol("for"));
    let s_line = arena.alloc_exp(LispExp::new_symbol("line"));
    let s_f = arena.alloc_exp(LispExp::new_symbol("f"));
    let s_progn = arena.alloc_exp(LispExp::new_symbol("progn"));
    let body = arena.build(&vec![s_progn], None);
    assert_eq!(gen(&arena, body).unwrap(), "");
    let e = arena.build(&vec![s_for, s_line, s_f, body], None);
    assert_eq!(gen(&arena, e).unwrap(), "for line in f:\n");
}
