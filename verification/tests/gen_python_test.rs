use pype::gen_python::{do_e, do_inpt, do_l, do_l_post, do_n, gen_program, Opts};
use pype::generator::gen;
use pype::types::LispArena;

#[test]
fn test_program_no_flags() {
    let opts = Opts { e: vec![], n: false, l: false };
    let out = gen_program(&opts, "/tmp/x");
    let expect = "\
with open(\"/tmp/x\") as f:
    import builtins
    print = lambda *args, **kwargs: builtins.print(*args, **kwargs, end=\"\")
    for line in f:
        print(line, end=\"\")";
    assert_eq!(out, expect);
}

#[test]
fn test_program_commands_and_l() {
    let opts = Opts { e: vec!["x=1".to_string(), "print(x)".to_string()], n: false, l: true };
    let out = gen_program(&opts, "/tmp/y");
    let expect = "\
with open(\"/tmp/y\") as f:
    x=1
    print(x)";
    assert_eq!(out, expect);
}

#[test]
fn test_program_n_and_l() {
    let opts = Opts { e: vec!["x=1".to_string()], n: true, l: true };
    let out = gen_program(&opts, "/tmp/z");
    let expect = "\
with open(\"/tmp/z\") as f:
    for line in f:
        line = line.rstrip()
        x=1";
    assert_eq!(out, expect);
}

#[test]
fn test_program_n_without_l() {
    let opts = Opts { e: vec!["print(x)".to_string()], n: true, l: false };
    let out = gen_program(&opts, "/tmp/w");
    let expect = "\
with open(\"/tmp/w\") as f:
    import builtins
    print = lambda *args, **kwargs: builtins.print(*args, **kwargs, end=\"\")
    for line in f:
        print(x)";
    assert_eq!(out, expect);
}

#[test]
fn test_program_commands_without_flags() {
    let opts = Opts { e: vec!["total += 1".to_string()], n: false, l: false };
    let out = gen_program(&opts, "/tmp/v");
    let expect = "\
with open(\"/tmp/v\") as f:
    import builtins
    print = lambda *args, **kwargs: builtins.print(*args, **kwargs, end=\"\")
    total += 1";
    assert_eq!(out, expect);
}

#[test]
fn test_do_e_default_body() {
    let opts = Opts { e: vec![], n: false, l: false };
    let mut arena = LispArena::default();
    let body = do_e(&opts, &mut arena);
    assert_eq!(gen(&arena, body).unwrap(), "print(line, end=\"\")");
    assert_eq!(arena.to_text(body), "(call print line (kw end \"\"))");
}

#[test]
fn test_do_e_commands() {
    let opts = Opts { e: vec!["a()".to_string(), "b()".to_string()], n: false, l: false };
    let mut arena = LispArena::default();
    let body = do_e(&opts, &mut arena);
    assert_eq!(gen(&arena, body).unwrap(), "a()\nb()");
}

#[test]
fn test_do_n_wraps_only_when_set() {
    let mut arena = LispArena::default();
    let opts_on = Opts { e: vec![], n: true, l: false };
    let opts_off = Opts { e: vec![], n: false, l: false };
    let body = do_e(&opts_on, &mut arena);
    let wrapped = do_n(body, &opts_on, &mut arena);
    assert_eq!(gen(&arena, wrapped).unwrap(), "for line in f:\n    print(line, end=\"\")");
    let same = do_n(body, &opts_off, &mut arena);
    assert_eq!(same, body);
    assert_eq!(gen(&arena, same).unwrap(), "print(line, end=\"\")");
}

#[test]
fn test_do_l_wraps_only_when_set() {
    let mut arena = LispArena::default();
    let opts_on = Opts { e: vec![], n: false, l: true };
    let opts_off = Opts { e: vec![], n: false, l: false };
    let body = do_e(&opts_on, &mut arena);
    let wrapped = do_l(body, &opts_on, &mut arena);
    assert_eq!(
        gen(&arena, wrapped).unwrap(),
        "line = line.rstrip()\nprint(line, end=\"\")"
    );
    let same = do_l(body, &opts_off, &mut arena);
    assert_eq!(same, body);
    assert_eq!(gen(&arena, same).unwrap(), "print(line, end=\"\")");
}

#[test]
fn test_do_l_post_inverse_condition() {
    let mut arena = LispArena::default();
    let opts_l = Opts { e: vec![], n: false, l: true };
    let opts_no_l = Opts { e: vec![], n: false, l: false };
    let body = do_e(&opts_l, &mut arena);
    let same = do_l_post(body, &opts_l, &mut arena);
    assert_eq!(same, body);
    assert_eq!(gen(&arena, same).unwrap(), "print(line, end=\"\")");
    let wrapped = do_l_post(body, &opts_no_l, &mut arena);
    assert_eq!(
        gen(&arena, wrapped).unwrap(),
        "import builtins\nprint = lambda *args, **kwargs: builtins.print(*args, **kwargs, end=\"\")\nprint(line, end=\"\")"
    );
}

#[test]
fn test_do_inpt_outermost_wrap() {
    let mut arena = LispArena::default();
    let opts = Opts { e: vec!["pass".to_string()], n: false, l: false };
    let body = do_e(&opts, &mut arena);
    let root = do_inpt(body, "/tmp/fifo", &mut arena);
    assert_eq!(gen(&arena, root).unwrap(), "with open(\"/tmp/fifo\") as f:\n    pass");
}
