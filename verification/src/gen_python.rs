use vstd::prelude::*;
use crate::types::lisp_atom::{LispAtom, AtomV};
use crate::types::lisp_exp::{LispExp, LispRef, Tree, nil_tree, list_tree, resolve};
use crate::types::lisp_arena::{LispArena, extends, trees_of};
use crate::types::lisp_exp::GErr;
use crate::generator::{gen_tree, gen_list, indent_text};

verus! {

/// The option set the assembler consumes: the repeated `-e` command
/// strings in the order given, and the presence of the `-n` and `-l`
/// flags.
pub struct Opts {
    pub e: Vec<String>,
    pub n: bool,
    pub l: bool,
}

impl Opts {
    /// The command texts as sequences of characters.
    pub open spec fn cmds(&self) -> Seq<Seq<char>> {
        self.e@.map_values(|s: String| s@)
    }
}

/// A symbol leaf.
pub open spec fn t_sym(s: Seq<char>) -> Tree {
    Tree::Atom(AtomV::Symbol(s))
}

/// A string leaf.
pub open spec fn t_str(s: Seq<char>) -> Tree {
    Tree::Atom(AtomV::Str(s))
}

/// A raw-text leaf.
pub open spec fn t_raw(s: Seq<char>) -> Tree {
    Tree::Atom(AtomV::RawText(s))
}

/// The default body when no commands were given:
/// `call(print, line, kw(end, ""))`, i.e. `print(line, end="")`.
pub open spec fn default_body_tree() -> Tree {
    list_tree(
        seq![
            t_sym("call"@),
            t_sym("print"@),
            t_sym("line"@),
            list_tree(seq![t_sym("kw"@), t_sym("end"@), t_str(Seq::empty())], nil_tree()),
        ],
        nil_tree(),
    )
}

/// The command body: the default body when no commands were given, else
/// `progn` of the commands, each a raw text leaf, first occurrence first.
pub open spec fn command_body_tree(cmds: Seq<Seq<char>>) -> Tree {
    if cmds.len() == 0 {
        default_body_tree()
    } else {
        list_tree(seq![t_sym("progn"@)] + cmds.map_values(|c: Seq<char>| t_raw(c)), nil_tree())
    }
}

/// The line-iteration wrap: `for line in f: <body>`.
pub open spec fn for_wrap_tree(body: Tree) -> Tree {
    list_tree(seq![t_sym("for"@), t_sym("line"@), t_sym("f"@), body], nil_tree())
}

/// The newline-strip wrap: `progn(line = line.rstrip(), <body>)`.
pub open spec fn rstrip_wrap_tree(body: Tree) -> Tree {
    list_tree(
        seq![
            t_sym("progn"@),
            list_tree(
                seq![
                    t_sym("assign"@),
                    t_sym("line"@),
                    list_tree(
                        seq![
                            t_sym("call"@),
                            list_tree(
                                seq![t_sym("attr"@), t_sym("line"@), t_sym("rstrip"@)],
                                nil_tree(),
                            ),
                        ],
                        nil_tree(),
                    ),
                ],
                nil_tree(),
            ),
            body,
        ],
        nil_tree(),
    )
}

/// The rebinding of `print` that forces `end=""`, kept as raw text since
/// the renderer vocabulary has no lambda form.
pub open spec fn lambda_text() -> Seq<char> {
    "lambda *args, **kwargs: builtins.print(*args, **kwargs, end=\"\")"@
}

/// The builtin-print-shadow wrap:
/// `progn(import builtins, print = <lambda>, <body>)`.
pub open spec fn print_shadow_tree(body: Tree) -> Tree {
    list_tree(
        seq![
            t_sym("progn"@),
            t_raw("import builtins"@),
            list_tree(seq![t_sym("assign"@), t_sym("print"@), t_raw(lambda_text())], nil_tree()),
            body,
        ],
        nil_tree(),
    )
}

/// The input-source wrap: `with open("<path>") as f: <body>`.
pub open spec fn inpt_wrap_tree(path: Seq<char>, body: Tree) -> Tree {
    list_tree(
        seq![
            t_sym("with"@),
            list_tree(seq![t_sym("call"@), t_sym("open"@), t_str(path)], nil_tree()),
            t_sym("f"@),
            body,
        ],
        nil_tree(),
    )
}

/// The whole program's tree for one option set and fifo path: the command
/// body; in line-iteration mode (the `-n` flag, or no `-e` commands) the
/// strip wrap when `-l` is given and then the for wrap; the print shadow
/// when `-l` is absent; and the input-source wrap outermost.
pub open spec fn program_tree(cmds: Seq<Seq<char>>, n: bool, l: bool, path: Seq<char>) -> Tree {
    let body = command_body_tree(cmds);
    let iterate = n || cmds.len() == 0;
    let looped = if iterate {
        for_wrap_tree(if l {
            rstrip_wrap_tree(body)
        } else {
            body
        })
    } else {
        body
    };
    let shadowed = if !l {
        print_shadow_tree(looped)
    } else {
        looped
    };
    inpt_wrap_tree(path, shadowed)
}

/// The given texts joined by `sep`, nothing before the first or after the
/// last.
pub open spec fn join_texts(parts: Seq<Seq<char>>, sep: Seq<char>) -> Seq<char>
    decreases parts.len(),
{
    if parts.len() == 0 {
        Seq::empty()
    } else if parts.len() == 1 {
        parts[0]
    } else {
        parts[0] + sep + join_texts(parts.drop_first(), sep)
    }
}

/// Text of the command body: the default print statement when no commands
/// were given, else the commands verbatim, one per line.
pub open spec fn body_text(cmds: Seq<Seq<char>>) -> Seq<char> {
    if cmds.len() == 0 {
        "print(line, end=\"\")"@
    } else {
        join_texts(cmds, seq!['\n'])
    }
}

/// Text of the two builtin-print-shadow statements.
pub open spec fn shadow_text() -> Seq<char> {
    "import builtins\nprint = lambda *args, **kwargs: builtins.print(*args, **kwargs, end=\"\")"@
}

/// The whole generated program's text for one option set and fifo path:
/// what rendering `program_tree` yields.
pub open spec fn program_text(cmds: Seq<Seq<char>>, n: bool, l: bool, path: Seq<char>) -> Seq<
    char,
> {
    let body = body_text(cmds);
    let iterate = n || cmds.len() == 0;
    let looped = if iterate {
        "for line in f:\n"@ + indent_text(
            if l {
                "line = line.rstrip()\n"@ + body
            } else {
                body
            },
        )
    } else {
        body
    };
    let shadowed = if !l {
        shadow_text() + seq!['\n'] + looped
    } else {
        looped
    };
    "with open(\""@ + path + "\") as f:\n"@ + indent_text(shadowed)
}

/// Build the command body per `command_body_tree`: `progn` of the `-e`
/// commands as raw text, or the default print statement when none.
pub fn do_e(opts: &Opts, arena: &mut LispArena) -> (r: LispRef)
    requires
        old(arena).wf(),
    ensures
        final(arena).wf(),
        final(arena).valid(r),
        extends(final(arena)@, old(arena)@),
        final(arena).tree(r) == command_body_tree(opts.cmds()),
{
    if opts.e.len() == 0 {
        let s_call = arena.alloc_symbol("call");
        let s_print = arena.alloc_symbol("print");
        let s_line = arena.alloc_symbol("line");
        let s_kw = arena.alloc_symbol("kw");
        let s_end = arena.alloc_symbol("end");
        let v_empty = arena.alloc_exp(LispExp::Atom(LispAtom::Str(String::new())));
        let ghost pre1 = arena@;
        let kw_items = vec![s_kw, s_end, v_empty];
        let e_kw = arena.build(&kw_items, None);
        let ghost pre2 = arena@;
        let body_items = vec![s_call, s_print, s_line, e_kw];
        let r = arena.build(&body_items, None);
        proof {
            assert(trees_of(pre1, kw_items@) =~= seq![
                t_sym("kw"@),
                t_sym("end"@),
                t_str(Seq::empty()),
            ]);
            assert(trees_of(pre2, body_items@) =~= seq![
                t_sym("call"@),
                t_sym("print"@),
                t_sym("line"@),
                list_tree(seq![t_sym("kw"@), t_sym("end"@), t_str(Seq::empty())], nil_tree()),
            ]);
            assert(opts.cmds() =~= Seq::<Seq<char>>::empty());
        }
        r
    } else {
        let s_progn = arena.alloc_symbol("progn");
        let mut cur = arena.alloc_symbol("nil");
        let ghost cmds = opts.cmds();
        let mut i: usize = opts.e.len();
        proof {
            assert(cmds.map_values(|c: Seq<char>| t_raw(c)).skip(i as int) =~= Seq::<
                Tree,
            >::empty());
        }
        while i > 0
            invariant
                arena.wf(),
                i <= opts.e@.len(),
                cmds == opts.cmds(),
                cmds.len() == opts.e@.len(),
                extends(arena@, old(arena)@),
                arena.valid(cur),
                arena.valid(s_progn),
                arena.tree(s_progn) == t_sym("progn"@),
                arena.tree(cur) == list_tree(
                    cmds.map_values(|c: Seq<char>| t_raw(c)).skip(i as int),
                    nil_tree(),
                ),
            decreases i,
        {
            i = i - 1;
            let v = arena.alloc_exp(
                LispExp::Atom(LispAtom::RawText(opts.e[i].clone())),
            );
            let ghost mid = arena@;
            let pair = arena.alloc_exp(LispExp::Cons { car: v, cdr: cur });
            proof {
                let raws = cmds.map_values(|c: Seq<char>| t_raw(c));
                assert(arena.tree(v) == t_raw(cmds[i as int]));
                assert(raws.skip(i as int)[0] == raws[i as int]);
                assert(raws.skip(i as int).drop_first() =~= raws.skip(i as int + 1));
                assert(arena.tree(pair) == Tree::Cons(
                    Box::new(resolve(mid.nodes, v.0 as int)),
                    Box::new(resolve(mid.nodes, cur.0 as int)),
                ));
                assert(arena.tree(pair) == list_tree(raws.skip(i as int), nil_tree()));
            }
            cur = pair;
        }
        let r = arena.alloc_exp(LispExp::Cons { car: s_progn, cdr: cur });
        proof {
            let raws = cmds.map_values(|c: Seq<char>| t_raw(c));
            assert(raws.skip(0) =~= raws);
            assert(command_body_tree(cmds) == Tree::Cons(
                Box::new(t_sym("progn"@)),
                Box::new(list_tree(raws, nil_tree())),
            )) by {
                let items = seq![t_sym("progn"@)] + raws;
                assert(items[0] == t_sym("progn"@));
                assert(items.drop_first() =~= raws);
            }
        }
        r
    }
}

/// Wrap the continuation in `for line in f: <continuation>`.
pub(crate) fn wrap_for(cur: LispRef, arena: &mut LispArena) -> (r: LispRef)
    requires
        old(arena).wf(),
        old(arena).valid(cur),
    ensures
        final(arena).wf(),
        final(arena).valid(r),
        extends(final(arena)@, old(arena)@),
        final(arena).tree(r) == for_wrap_tree(old(arena).tree(cur)),
{
    let s_for = arena.alloc_symbol("for");
    let s_line = arena.alloc_symbol("line");
    let s_f = arena.alloc_symbol("f");
    let ghost pre = arena@;
    let items = vec![s_for, s_line, s_f, cur];
    let r = arena.build(&items, None);
    proof {
        assert(trees_of(pre, items@) =~= seq![
            t_sym("for"@),
            t_sym("line"@),
            t_sym("f"@),
            old(arena).tree(cur),
        ]);
    }
    r
}

/// Apply the line-iteration wrap when the `-n` flag is present, else pass
/// the continuation through unchanged: the identical handle comes back and
/// the arena is untouched.
pub fn do_n(cur: LispRef, opts: &Opts, arena: &mut LispArena) -> (r: LispRef)
    requires
        old(arena).wf(),
        old(arena).valid(cur),
    ensures
        final(arena).wf(),
        final(arena).valid(r),
        extends(final(arena)@, old(arena)@),
        final(arena).tree(r) == (if opts.n {
            for_wrap_tree(old(arena).tree(cur))
        } else {
            old(arena).tree(cur)
        }),
        !opts.n ==> r == cur && final(arena)@ == old(arena)@,
{
    if opts.n {
        wrap_for(cur, arena)
    } else {
        cur
    }
}

/// Prepend the trailing-newline strip when the `-l` flag is present:
/// `progn(line = line.rstrip(), <continuation>)`; else pass the
/// continuation through unchanged: the identical handle comes back and the
/// arena is untouched.
pub fn do_l(cur: LispRef, opts: &Opts, arena: &mut LispArena) -> (r: LispRef)
    requires
        old(arena).wf(),
        old(arena).valid(cur),
    ensures
        final(arena).wf(),
        final(arena).valid(r),
        extends(final(arena)@, old(arena)@),
        final(arena).tree(r) == (if opts.l {
            rstrip_wrap_tree(old(arena).tree(cur))
        } else {
            old(arena).tree(cur)
        }),
        !opts.l ==> r == cur && final(arena)@ == old(arena)@,
{
    if opts.l {
        let s_progn = arena.alloc_symbol("progn");
        let s_assign = arena.alloc_symbol("assign");
        let s_line = arena.alloc_symbol("line");
        let s_call = arena.alloc_symbol("call");
        let s_attr = arena.alloc_symbol("attr");
        let s_rstrip = arena.alloc_symbol("rstrip");
        let ghost pre1 = arena@;
        let attr_items = vec![s_attr, s_line, s_rstrip];
        let e_attr = arena.build(&attr_items, None);
        let ghost pre2 = arena@;
        let call_items = vec![s_call, e_attr];
        let e_call = arena.build(&call_items, None);
        let ghost pre3 = arena@;
        let assign_items = vec![s_assign, s_line, e_call];
        let e_assign = arena.build(&assign_items, None);
        let ghost pre4 = arena@;
        let progn_items = vec![s_progn, e_assign, cur];
        let r = arena.build(&progn_items, None);
        proof {
            let attr_tree = list_tree(
                seq![t_sym("attr"@), t_sym("line"@), t_sym("rstrip"@)],
                nil_tree(),
            );
            let call_tree = list_tree(seq![t_sym("call"@), attr_tree], nil_tree());
            let assign_tree = list_tree(
                seq![t_sym("assign"@), t_sym("line"@), call_tree],
                nil_tree(),
            );
            assert(trees_of(pre1, attr_items@) =~= seq![
                t_sym("attr"@),
                t_sym("line"@),
                t_sym("rstrip"@),
            ]);
            assert(trees_of(pre2, call_items@) =~= seq![t_sym("call"@), attr_tree]);
            assert(trees_of(pre3, assign_items@) =~= seq![
                t_sym("assign"@),
                t_sym("line"@),
                call_tree,
            ]);
            assert(trees_of(pre4, progn_items@) =~= seq![
                t_sym("progn"@),
                assign_tree,
                old(arena).tree(cur),
            ]);
        }
        r
    } else {
        cur
    }
}

/// When the `-l` flag is absent, prepend the statements that import the
/// builtin namespace and rebind `print` to force `end=""`, so that user
/// code calling `print` does not double the newlines the lines already
/// carry; when `-l` is present — the exact inverse of `do_l`'s condition —
/// pass the continuation through unchanged: the identical handle comes
/// back and the arena is untouched.
pub fn do_l_post(cur: LispRef, opts: &Opts, arena: &mut LispArena) -> (r: LispRef)
    requires
        old(arena).wf(),
        old(arena).valid(cur),
    ensures
        final(arena).wf(),
        final(arena).valid(r),
        extends(final(arena)@, old(arena)@),
        final(arena).tree(r) == (if !opts.l {
            print_shadow_tree(old(arena).tree(cur))
        } else {
            old(arena).tree(cur)
        }),
        opts.l ==> r == cur && final(arena)@ == old(arena)@,
{
    if opts.l {
        cur
    } else {
        let s_progn = arena.alloc_symbol("progn");
        let s_assign = arena.alloc_symbol("assign");
        let s_print = arena.alloc_symbol("print");
        let v_import = arena.alloc_exp(
            LispExp::Atom(LispAtom::new_raw_text("import builtins")),
        );
        let v_lambda = arena.alloc_exp(
            LispExp::Atom(
                LispAtom::new_raw_text(
                    "lambda *args, **kwargs: builtins.print(*args, **kwargs, end=\"\")",
                ),
            ),
        );
        let ghost pre1 = arena@;
        let assign_items = vec![s_assign, s_print, v_lambda];
        let e_assign = arena.build(&assign_items, None);
        let ghost pre2 = arena@;
        let progn_items = vec![s_progn, v_import, e_assign, cur];
        let r = arena.build(&progn_items, None);
        proof {
            let assign_tree = list_tree(
                seq![t_sym("assign"@), t_sym("print"@), t_raw(lambda_text())],
                nil_tree(),
            );
            assert(trees_of(pre1, assign_items@) =~= seq![
                t_sym("assign"@),
                t_sym("print"@),
                t_raw(lambda_text()),
            ]);
            assert(trees_of(pre2, progn_items@) =~= seq![
                t_sym("progn"@),
                t_raw("import builtins"@),
                assign_tree,
                old(arena).tree(cur),
            ]);
        }
        r
    }
}

/// Wrap the continuation in the input-source form:
/// `with open(<fifo_path>) as f: <continuation>`, always the outermost
/// wrap of the program.
pub fn do_inpt(cur: LispRef, fifo_path_str: &str, arena: &mut LispArena) -> (r: LispRef)
    requires
        old(arena).wf(),
        old(arena).valid(cur),
    ensures
        final(arena).wf(),
        final(arena).valid(r),
        extends(final(arena)@, old(arena)@),
        final(arena).tree(r) == inpt_wrap_tree(fifo_path_str@, old(arena).tree(cur)),
{
    let s_with = arena.alloc_symbol("with");
    let s_call = arena.alloc_symbol("call");
    let s_open = arena.alloc_symbol("open");
    let s_f = arena.alloc_symbol("f");
    let v_fifo = arena.alloc_exp(LispExp::Atom(LispAtom::Str(fifo_path_str.to_owned())));
    let ghost pre1 = arena@;
    let open_items = vec![s_call, s_open, v_fifo];
    let open_call = arena.build(&open_items, None);
    let ghost pre2 = arena@;
    let with_items = vec![s_with, open_call, s_f, cur];
    let r = arena.build(&with_items, None);
    proof {
        assert(trees_of(pre1, open_items@) =~= seq![
            t_sym("call"@),
            t_sym("open"@),
            t_str(fifo_path_str@),
        ]);
        assert(trees_of(pre2, with_items@) =~= seq![
            t_sym("with"@),
            list_tree(seq![t_sym("call"@), t_sym("open"@), t_str(fifo_path_str@)], nil_tree()),
            t_sym("f"@),
            old(arena).tree(cur),
        ]);
    }
    r
}

proof fn lemma_lt1(a: Tree, tail: Tree)
    ensures
        list_tree(seq![a], tail) == Tree::Cons(Box::new(a), Box::new(tail)),
{
    assert(seq![a].drop_first() =~= Seq::<Tree>::empty());
    assert(list_tree(Seq::<Tree>::empty(), tail) == tail);
}

proof fn lemma_lt2(a: Tree, b: Tree, tail: Tree)
    ensures
        list_tree(seq![a, b], tail) == Tree::Cons(
            Box::new(a),
            Box::new(Tree::Cons(Box::new(b), Box::new(tail))),
        ),
{
    assert(seq![a, b].drop_first() =~= seq![b]);
    lemma_lt1(b, tail);
}

proof fn lemma_lt3(a: Tree, b: Tree, c: Tree, tail: Tree)
    ensures
        list_tree(seq![a, b, c], tail) == Tree::Cons(
            Box::new(a),
            Box::new(
                Tree::Cons(
                    Box::new(b),
                    Box::new(Tree::Cons(Box::new(c), Box::new(tail))),
                ),
            ),
        ),
{
    assert(seq![a, b, c].drop_first() =~= seq![b, c]);
    lemma_lt2(b, c, tail);
}

proof fn lemma_lt4(a: Tree, b: Tree, c: Tree, d: Tree, tail: Tree)
    ensures
        list_tree(seq![a, b, c, d], tail) == Tree::Cons(
            Box::new(a),
            Box::new(
                Tree::Cons(
                    Box::new(b),
                    Box::new(
                        Tree::Cons(
                            Box::new(c),
                            Box::new(Tree::Cons(Box::new(d), Box::new(tail))),
                        ),
                    ),
                ),
            ),
        ),
{
    assert(seq![a, b, c, d].drop_first() =~= seq![b, c, d]);
    lemma_lt3(b, c, d, tail);
}

/// The default body renders as the default print statement.
pub proof fn lemma_gen_default_body()
    ensures
        gen_tree(default_body_tree()) == Ok::<Seq<char>, GErr>("print(line, end=\"\")"@),
{
    reveal_strlit("kw");
    reveal_strlit("call");
    reveal_strlit("print");
    reveal_strlit("line");
    reveal_strlit("end");
    reveal_strlit("t");
    reveal_strlit("true");
    reveal_strlit("nil");
    reveal_strlit("false");
    reveal_strlit("print(line, end=\"\")");
    assert("end"@[0] == 'e' && "nil"@[0] == 'n');
    assert("end"@ != "nil"@);
    assert("line"@[0] == 'l' && "true"@[0] == 't');
    assert("line"@ != "true"@);
    assert("print"@[0] == 'p' && "false"@[0] == 'f');
    assert("print"@ != "false"@);
    let kw_tree = list_tree(seq![t_sym("kw"@), t_sym("end"@), t_str(Seq::empty())], nil_tree());
    lemma_lt3(t_sym("kw"@), t_sym("end"@), t_str(Seq::empty()), nil_tree());
    assert(gen_tree(t_sym("end"@)) == Ok::<Seq<char>, GErr>("end"@));
    assert(gen_tree(t_sym("line"@)) == Ok::<Seq<char>, GErr>("line"@));
    assert(gen_tree(t_sym("print"@)) == Ok::<Seq<char>, GErr>("print"@));
    assert(gen_tree(t_str(Seq::empty())) == Ok::<Seq<char>, GErr>(
        seq!['"'] + Seq::<char>::empty() + seq!['"'],
    ));
    assert(gen_tree(kw_tree) == Ok::<Seq<char>, GErr>(
        "end"@ + seq!['='] + (seq!['"'] + Seq::<char>::empty() + seq!['"']),
    ));
    lemma_lt4(t_sym("call"@), t_sym("print"@), t_sym("line"@), kw_tree, nil_tree());
    let rest2 = Tree::Cons(Box::new(kw_tree), Box::new(nil_tree()));
    let rest1 = Tree::Cons(Box::new(t_sym("line"@)), Box::new(rest2));
    let rest0 = Tree::Cons(Box::new(t_sym("print"@)), Box::new(rest1));
    assert(default_body_tree() == Tree::Cons(Box::new(t_sym("call"@)), Box::new(rest0)));
    assert(gen_list(rest2, seq![',', ' ']) == Ok::<Seq<char>, GErr>(
        "end"@ + seq!['='] + (seq!['"'] + Seq::<char>::empty() + seq!['"']),
    ));
    assert(gen_list(rest1, seq![',', ' ']) == Ok::<Seq<char>, GErr>(
        "line"@ + seq![',', ' '] + ("end"@ + seq!['='] + (seq!['"'] + Seq::<char>::empty() + seq![
            '"',
        ])),
    ));
    assert(gen_tree(default_body_tree()) == crate::generator::gen_form("call"@, rest0));
    assert("call"@.len() == 4);
    assert("kw"@.len() == 2);
    assert("call"@ != "kw"@);
    assert(crate::generator::gen_form("call"@, rest0) == crate::generator::gen_call(rest0));
    assert(crate::generator::gen_call(rest0) == Ok::<Seq<char>, GErr>(
        "print"@ + seq!['('] + ("line"@ + seq![',', ' '] + ("end"@ + seq!['='] + (seq!['"'] + Seq::<
            char,
        >::empty() + seq!['"']))) + seq![')'],
    ));
    assert("print"@ + seq!['('] + ("line"@ + seq![',', ' '] + ("end"@ + seq!['='] + (seq!['"']
        + Seq::<char>::empty() + seq!['"']))) + seq![')'] =~= "print(line, end=\"\")"@);
}

/// A nonempty spine of raw-text leaves renders as the texts joined by the
/// separator.
proof fn lemma_gen_raw_list(cmds: Seq<Seq<char>>, sep: Seq<char>)
    requires
        cmds.len() > 0,
    ensures
        gen_list(
            list_tree(cmds.map_values(|c: Seq<char>| t_raw(c)), nil_tree()),
            sep,
        ) == Ok::<Seq<char>, GErr>(join_texts(cmds, sep)),
    decreases cmds.len(),
{
    let raws = cmds.map_values(|c: Seq<char>| t_raw(c));
    assert(raws[0] == t_raw(cmds[0]));
    assert(gen_tree(t_raw(cmds[0])) == Ok::<Seq<char>, GErr>(cmds[0]));
    if cmds.len() == 1 {
        lemma_lt1(raws[0], nil_tree());
        assert(raws =~= seq![raws[0]]);
        assert(gen_list(list_tree(raws, nil_tree()), sep) == Ok::<Seq<char>, GErr>(cmds[0]));
    } else {
        let rest = cmds.drop_first();
        lemma_gen_raw_list(rest, sep);
        let rest_raws = rest.map_values(|c: Seq<char>| t_raw(c));
        assert(raws.drop_first() =~= rest_raws);
        assert(list_tree(raws, nil_tree()) == Tree::Cons(
            Box::new(raws[0]),
            Box::new(list_tree(rest_raws, nil_tree())),
        ));
        assert(list_tree(rest_raws, nil_tree()) is Cons);
        assert(gen_list(list_tree(raws, nil_tree()), sep) == Ok::<Seq<char>, GErr>(
            cmds[0] + sep + join_texts(rest, sep),
        ));
    }
}

/// The command body renders as `body_text`.
pub proof fn lemma_gen_command_body(cmds: Seq<Seq<char>>)
    ensures
        gen_tree(command_body_tree(cmds)) == Ok::<Seq<char>, GErr>(body_text(cmds)),
{
    if cmds.len() == 0 {
        lemma_gen_default_body();
    } else {
        reveal_strlit("kw");
        reveal_strlit("call");
        reveal_strlit("for");
        reveal_strlit("with");
        reveal_strlit("progn");
        let raws = cmds.map_values(|c: Seq<char>| t_raw(c));
        let items = seq![t_sym("progn"@)] + raws;
        assert(items[0] == t_sym("progn"@));
        assert(items.drop_first() =~= raws);
        let spine = list_tree(raws, nil_tree());
        assert(command_body_tree(cmds) == Tree::Cons(Box::new(t_sym("progn"@)), Box::new(spine)));
        assert(gen_tree(command_body_tree(cmds)) == crate::generator::gen_form("progn"@, spine));
        assert("progn"@.len() == 5 && "kw"@.len() == 2 && "call"@.len() == 4 && "for"@.len() == 3
            && "with"@.len() == 4);
        assert("progn"@ != "kw"@ && "progn"@ != "call"@ && "progn"@ != "for"@ && "progn"@
            != "with"@);
        assert(crate::generator::gen_form("progn"@, spine) == gen_list(spine, seq!['\n']));
        lemma_gen_raw_list(cmds, seq!['\n']);
    }
}

/// The line-iteration wrap renders as a for header over the indented body.
pub proof fn lemma_gen_for_wrap(body: Tree, bt: Seq<char>)
    requires
        gen_tree(body) == Ok::<Seq<char>, GErr>(bt),
    ensures
        gen_tree(for_wrap_tree(body)) == Ok::<Seq<char>, GErr>(
            "for line in f:\n"@ + indent_text(bt),
        ),
{
    reveal_strlit("kw");
    reveal_strlit("call");
    reveal_strlit("for");
    reveal_strlit("line");
    reveal_strlit("f");
    reveal_strlit("t");
    reveal_strlit("true");
    reveal_strlit("nil");
    reveal_strlit("false");
    reveal_strlit("for line in f:\n");
    assert("line"@[0] == 'l' && "true"@[0] == 't');
    assert("line"@ != "true"@);
    assert("f"@[0] == 'f' && "t"@[0] == 't');
    assert("f"@ != "t"@);
    assert("f"@.len() == 1 && "line"@.len() == 4 && "t"@.len() == 1 && "true"@.len() == 4
        && "nil"@.len() == 3 && "false"@.len() == 5);
    lemma_lt4(t_sym("for"@), t_sym("line"@), t_sym("f"@), body, nil_tree());
    let r2 = Tree::Cons(Box::new(body), Box::new(nil_tree()));
    let r1 = Tree::Cons(Box::new(t_sym("f"@)), Box::new(r2));
    let r0 = Tree::Cons(Box::new(t_sym("line"@)), Box::new(r1));
    assert(for_wrap_tree(body) == Tree::Cons(Box::new(t_sym("for"@)), Box::new(r0)));
    assert(gen_tree(for_wrap_tree(body)) == crate::generator::gen_form("for"@, r0));
    assert("for"@.len() == 3 && "kw"@.len() == 2 && "call"@.len() == 4);
    assert("for"@ != "kw"@ && "for"@ != "call"@);
    assert(crate::generator::gen_form("for"@, r0) == crate::generator::gen_for(r0));
    assert(gen_tree(t_sym("line"@)) == Ok::<Seq<char>, GErr>("line"@));
    assert(gen_tree(t_sym("f"@)) == Ok::<Seq<char>, GErr>("f"@));
    assert(crate::generator::gen_for(r0) == Ok::<Seq<char>, GErr>(
        seq!['f', 'o', 'r', ' '] + "line"@ + seq![' ', 'i', 'n', ' '] + "f"@ + seq![':', '\n']
            + indent_text(bt),
    ));
    assert(seq!['f', 'o', 'r', ' '] + "line"@ + seq![' ', 'i', 'n', ' '] + "f"@ + seq![':', '\n']
        =~= "for line in f:\n"@);
    assert(seq!['f', 'o', 'r', ' '] + "line"@ + seq![' ', 'i', 'n', ' '] + "f"@ + seq![':', '\n']
        + indent_text(bt) =~= "for line in f:\n"@ + indent_text(bt));
}

/// The newline-strip wrap renders as the rstrip assignment on its own
/// line before the body.
pub proof fn lemma_gen_rstrip_wrap(body: Tree, bt: Seq<char>)
    requires
        gen_tree(body) == Ok::<Seq<char>, GErr>(bt),
    ensures
        gen_tree(rstrip_wrap_tree(body)) == Ok::<Seq<char>, GErr>(
            "line = line.rstrip()\n"@ + bt,
        ),
{
    reveal_strlit("kw");
    reveal_strlit("call");
    reveal_strlit("for");
    reveal_strlit("with");
    reveal_strlit("progn");
    reveal_strlit("attr");
    reveal_strlit("assign");
    reveal_strlit("line");
    reveal_strlit("rstrip");
    reveal_strlit("t");
    reveal_strlit("true");
    reveal_strlit("nil");
    reveal_strlit("false");
    reveal_strlit("line = line.rstrip()\n");
    assert("line"@[0] == 'l' && "true"@[0] == 't' && "attr"@[0] == 'a' && "call"@[0] == 'c'
        && "with"@[0] == 'w' && "assign"@[0] == 'a' && "kw"@[0] == 'k');
    assert("line"@ != "true"@);
    assert("kw"@.len() == 2 && "call"@.len() == 4 && "for"@.len() == 3 && "with"@.len() == 4
        && "progn"@.len() == 5 && "attr"@.len() == 4 && "assign"@.len() == 6 && "line"@.len() == 4
        && "rstrip"@.len() == 6 && "t"@.len() == 1 && "true"@.len() == 4 && "nil"@.len() == 3
        && "false"@.len() == 5);
    // the attr form: line.rstrip
    lemma_lt3(t_sym("attr"@), t_sym("line"@), t_sym("rstrip"@), nil_tree());
    let attr_tree = list_tree(seq![t_sym("attr"@), t_sym("line"@), t_sym("rstrip"@)], nil_tree());
    let a1 = Tree::Cons(Box::new(t_sym("rstrip"@)), Box::new(nil_tree()));
    let a0 = Tree::Cons(Box::new(t_sym("line"@)), Box::new(a1));
    assert(attr_tree == Tree::Cons(Box::new(t_sym("attr"@)), Box::new(a0)));
    assert(gen_tree(attr_tree) == crate::generator::gen_form("attr"@, a0));
    assert("attr"@ != "kw"@ && "attr"@ != "call"@ && "attr"@ != "for"@ && "attr"@ != "with"@
        && "attr"@ != "progn"@);
    assert(gen_tree(t_sym("line"@)) == Ok::<Seq<char>, GErr>("line"@));
    assert(gen_tree(t_sym("rstrip"@)) == Ok::<Seq<char>, GErr>("rstrip"@));
    assert(gen_tree(attr_tree) == Ok::<Seq<char>, GErr>("line"@ + seq!['.'] + "rstrip"@));
    // the call form: line.rstrip()
    lemma_lt1(attr_tree, nil_tree());
    assert(seq![t_sym("call"@), attr_tree].drop_first() =~= seq![attr_tree]);
    let call_tree = list_tree(seq![t_sym("call"@), attr_tree], nil_tree());
    let c0 = Tree::Cons(Box::new(attr_tree), Box::new(nil_tree()));
    assert(call_tree == Tree::Cons(Box::new(t_sym("call"@)), Box::new(c0)));
    assert(gen_tree(call_tree) == crate::generator::gen_form("call"@, c0));
    assert("call"@ != "kw"@);
    assert(crate::generator::gen_form("call"@, c0) == crate::generator::gen_call(c0));
    assert(gen_list(nil_tree(), seq![',', ' ']) == Ok::<Seq<char>, GErr>(Seq::<char>::empty()));
    assert(crate::generator::gen_call(c0) == Ok::<Seq<char>, GErr>(
        ("line"@ + seq!['.'] + "rstrip"@) + seq!['('] + Seq::<char>::empty() + seq![')'],
    ));
    // the assignment: line = line.rstrip()
    lemma_lt3(t_sym("assign"@), t_sym("line"@), call_tree, nil_tree());
    let assign_tree = list_tree(seq![t_sym("assign"@), t_sym("line"@), call_tree], nil_tree());
    let s1 = Tree::Cons(Box::new(call_tree), Box::new(nil_tree()));
    let s0 = Tree::Cons(Box::new(t_sym("line"@)), Box::new(s1));
    assert(assign_tree == Tree::Cons(Box::new(t_sym("assign"@)), Box::new(s0)));
    assert(gen_tree(assign_tree) == crate::generator::gen_form("assign"@, s0));
    assert("assign"@ != "kw"@ && "assign"@ != "call"@ && "assign"@ != "for"@ && "assign"@
        != "with"@ && "assign"@ != "progn"@ && "assign"@ != "attr"@);
    assert(gen_tree(assign_tree) == Ok::<Seq<char>, GErr>(
        "line"@ + seq![' ', '=', ' '] + (("line"@ + seq!['.'] + "rstrip"@) + seq!['('] + Seq::<
            char,
        >::empty() + seq![')']),
    ));
    // the progn of the assignment and the body
    lemma_lt2(t_sym("progn"@), assign_tree, body);
    assert(seq![t_sym("progn"@), assign_tree, body].drop_first() =~= seq![assign_tree, body]);
    lemma_lt3(t_sym("progn"@), assign_tree, body, nil_tree());
    let p1 = Tree::Cons(Box::new(body), Box::new(nil_tree()));
    let p0 = Tree::Cons(Box::new(assign_tree), Box::new(p1));
    assert(rstrip_wrap_tree(body) == Tree::Cons(Box::new(t_sym("progn"@)), Box::new(p0)));
    assert(gen_tree(rstrip_wrap_tree(body)) == crate::generator::gen_form("progn"@, p0));
    assert("progn"@ != "kw"@ && "progn"@ != "call"@ && "progn"@ != "for"@ && "progn"@ != "with"@);
    assert(crate::generator::gen_form("progn"@, p0) == gen_list(p0, seq!['\n']));
    assert(gen_list(p1, seq!['\n']) == Ok::<Seq<char>, GErr>(bt));
    assert(gen_list(p0, seq!['\n']) == Ok::<Seq<char>, GErr>(
        ("line"@ + seq![' ', '=', ' '] + (("line"@ + seq!['.'] + "rstrip"@) + seq!['('] + Seq::<
            char,
        >::empty() + seq![')'])) + seq!['\n'] + bt,
    ));
    assert(("line"@ + seq![' ', '=', ' '] + (("line"@ + seq!['.'] + "rstrip"@) + seq!['('] + Seq::<
        char,
    >::empty() + seq![')'])) + seq!['\n'] + bt =~= "line = line.rstrip()\n"@ + bt);
}

/// The builtin-print-shadow wrap renders as the import and rebinding
/// statements before the body.
pub proof fn lemma_gen_shadow_wrap(body: Tree, bt: Seq<char>)
    requires
        gen_tree(body) == Ok::<Seq<char>, GErr>(bt),
    ensures
        gen_tree(print_shadow_tree(body)) == Ok::<Seq<char>, GErr>(
            shadow_text() + seq!['\n'] + bt,
        ),
{
    reveal_strlit("kw");
    reveal_strlit("call");
    reveal_strlit("for");
    reveal_strlit("with");
    reveal_strlit("progn");
    reveal_strlit("attr");
    reveal_strlit("assign");
    reveal_strlit("print");
    reveal_strlit("t");
    reveal_strlit("true");
    reveal_strlit("nil");
    reveal_strlit("false");
    reveal_strlit("import builtins");
    reveal_strlit("lambda *args, **kwargs: builtins.print(*args, **kwargs, end=\"\")");
    reveal_strlit(
        "import builtins\nprint = lambda *args, **kwargs: builtins.print(*args, **kwargs, end=\"\")",
    );
    assert("print"@[0] == 'p' && "false"@[0] == 'f');
    assert("print"@ != "false"@);
    assert("kw"@.len() == 2 && "call"@.len() == 4 && "for"@.len() == 3 && "with"@.len() == 4
        && "progn"@.len() == 5 && "attr"@.len() == 4 && "assign"@.len() == 6 && "print"@.len() == 5
        && "t"@.len() == 1 && "true"@.len() == 4 && "nil"@.len() == 3 && "false"@.len() == 5);
    // the assignment: print = <lambda>
    lemma_lt3(t_sym("assign"@), t_sym("print"@), t_raw(lambda_text()), nil_tree());
    let assign_tree = list_tree(
        seq![t_sym("assign"@), t_sym("print"@), t_raw(lambda_text())],
        nil_tree(),
    );
    let s1 = Tree::Cons(Box::new(t_raw(lambda_text())), Box::new(nil_tree()));
    let s0 = Tree::Cons(Box::new(t_sym("print"@)), Box::new(s1));
    assert(assign_tree == Tree::Cons(Box::new(t_sym("assign"@)), Box::new(s0)));
    assert(gen_tree(assign_tree) == crate::generator::gen_form("assign"@, s0));
    assert("assign"@ != "kw"@ && "assign"@ != "call"@ && "assign"@ != "for"@ && "assign"@
        != "with"@ && "assign"@ != "progn"@ && "assign"@ != "attr"@) by {
        assert("assign"@[0] == 'a' && "attr"@[0] == 'a' && "assign"@.len() == 6 && "attr"@.len()
            == 4);
    }
    assert(gen_tree(t_sym("print"@)) == Ok::<Seq<char>, GErr>("print"@));
    assert(gen_tree(t_raw(lambda_text())) == Ok::<Seq<char>, GErr>(lambda_text()));
    assert(gen_tree(assign_tree) == Ok::<Seq<char>, GErr>(
        "print"@ + seq![' ', '=', ' '] + lambda_text(),
    ));
    // the progn of the import, the assignment, and the body
    lemma_lt4(t_sym("progn"@), t_raw("import builtins"@), assign_tree, body, nil_tree());
    let p2 = Tree::Cons(Box::new(body), Box::new(nil_tree()));
    let p1 = Tree::Cons(Box::new(assign_tree), Box::new(p2));
    let p0 = Tree::Cons(Box::new(t_raw("import builtins"@)), Box::new(p1));
    assert(print_shadow_tree(body) == Tree::Cons(Box::new(t_sym("progn"@)), Box::new(p0)));
    assert(gen_tree(print_shadow_tree(body)) == crate::generator::gen_form("progn"@, p0));
    assert("progn"@ != "kw"@ && "progn"@ != "call"@ && "progn"@ != "for"@ && "progn"@ != "with"@);
    assert(crate::generator::gen_form("progn"@, p0) == gen_list(p0, seq!['\n']));
    assert(gen_list(p2, seq!['\n']) == Ok::<Seq<char>, GErr>(bt));
    assert(gen_list(p1, seq!['\n']) == Ok::<Seq<char>, GErr>(
        ("print"@ + seq![' ', '=', ' '] + lambda_text()) + seq!['\n'] + bt,
    ));
    assert(gen_list(p0, seq!['\n']) == Ok::<Seq<char>, GErr>(
        "import builtins"@ + seq!['\n'] + (("print"@ + seq![' ', '=', ' '] + lambda_text()) + seq![
            '\n',
        ] + bt),
    ));
    assert("import builtins"@ + seq!['\n'] + (("print"@ + seq![' ', '=', ' '] + lambda_text())
        + seq!['\n'] + bt) =~= shadow_text() + seq!['\n'] + bt);
}

/// The input-source wrap renders as a with header over the indented body.
pub proof fn lemma_gen_inpt_wrap(path: Seq<char>, body: Tree, bt: Seq<char>)
    requires
        gen_tree(body) == Ok::<Seq<char>, GErr>(bt),
    ensures
        gen_tree(inpt_wrap_tree(path, body)) == Ok::<Seq<char>, GErr>(
            "with open(\""@ + path + "\") as f:\n"@ + indent_text(bt),
        ),
{
    reveal_strlit("kw");
    reveal_strlit("call");
    reveal_strlit("for");
    reveal_strlit("with");
    reveal_strlit("open");
    reveal_strlit("f");
    reveal_strlit("t");
    reveal_strlit("true");
    reveal_strlit("nil");
    reveal_strlit("false");
    reveal_strlit("with open(\"");
    reveal_strlit("\") as f:\n");
    assert("open"@[0] == 'o' && "true"@[0] == 't' && "with"@[0] == 'w' && "call"@[0] == 'c'
        && "f"@[0] == 'f' && "t"@[0] == 't');
    assert("open"@ != "true"@ && "f"@ != "t"@ && "with"@ != "call"@);
    assert("kw"@.len() == 2 && "call"@.len() == 4 && "for"@.len() == 3 && "with"@.len() == 4
        && "open"@.len() == 4 && "f"@.len() == 1 && "t"@.len() == 1 && "true"@.len() == 4
        && "nil"@.len() == 3 && "false"@.len() == 5);
    // the open call: open("<path>")
    lemma_lt3(t_sym("call"@), t_sym("open"@), t_str(path), nil_tree());
    let open_tree = list_tree(seq![t_sym("call"@), t_sym("open"@), t_str(path)], nil_tree());
    let c1 = Tree::Cons(Box::new(t_str(path)), Box::new(nil_tree()));
    let c0 = Tree::Cons(Box::new(t_sym("open"@)), Box::new(c1));
    assert(open_tree == Tree::Cons(Box::new(t_sym("call"@)), Box::new(c0)));
    assert(gen_tree(open_tree) == crate::generator::gen_form("call"@, c0));
    assert("call"@ != "kw"@);
    assert(crate::generator::gen_form("call"@, c0) == crate::generator::gen_call(c0));
    assert(gen_tree(t_sym("open"@)) == Ok::<Seq<char>, GErr>("open"@));
    assert(gen_tree(t_str(path)) == Ok::<Seq<char>, GErr>(seq!['"'] + path + seq!['"']));
    assert(gen_list(c1, seq![',', ' ']) == Ok::<Seq<char>, GErr>(seq!['"'] + path + seq!['"']));
    assert(crate::generator::gen_call(c0) == Ok::<Seq<char>, GErr>(
        "open"@ + seq!['('] + (seq!['"'] + path + seq!['"']) + seq![')'],
    ));
    // the with form
    lemma_lt4(t_sym("with"@), open_tree, t_sym("f"@), body, nil_tree());
    let w2 = Tree::Cons(Box::new(body), Box::new(nil_tree()));
    let w1 = Tree::Cons(Box::new(t_sym("f"@)), Box::new(w2));
    let w0 = Tree::Cons(Box::new(open_tree), Box::new(w1));
    assert(inpt_wrap_tree(path, body) == Tree::Cons(Box::new(t_sym("with"@)), Box::new(w0)));
    assert(gen_tree(inpt_wrap_tree(path, body)) == crate::generator::gen_form("with"@, w0));
    assert("with"@ != "kw"@ && "with"@ != "call"@ && "with"@ != "for"@);
    assert(crate::generator::gen_form("with"@, w0) == crate::generator::gen_with(w0));
    assert(gen_tree(t_sym("f"@)) == Ok::<Seq<char>, GErr>("f"@));
    assert(crate::generator::gen_with(w0) == Ok::<Seq<char>, GErr>(
        seq!['w', 'i', 't', 'h', ' '] + ("open"@ + seq!['('] + (seq!['"'] + path + seq!['"'])
            + seq![')']) + seq![' ', 'a', 's', ' '] + "f"@ + seq![':', '\n'] + indent_text(bt),
    ));
    assert(seq!['w', 'i', 't', 'h', ' '] + ("open"@ + seq!['('] + (seq!['"'] + path + seq!['"'])
        + seq![')']) + seq![' ', 'a', 's', ' '] + "f"@ + seq![':', '\n'] + indent_text(bt)
        =~= "with open(\""@ + path + "\") as f:\n"@ + indent_text(bt));
}

/// Rendering the assembled program tree yields exactly `program_text` and
/// cannot fail.
pub proof fn lemma_program_rendering(cmds: Seq<Seq<char>>, n: bool, l: bool, path: Seq<char>)
    ensures
        gen_tree(program_tree(cmds, n, l, path)) == Ok::<Seq<char>, GErr>(
            program_text(cmds, n, l, path),
        ),
{
    let body = command_body_tree(cmds);
    let bt = body_text(cmds);
    lemma_gen_command_body(cmds);
    let iterate = n || cmds.len() == 0;
    let looped = if iterate {
        for_wrap_tree(if l {
            rstrip_wrap_tree(body)
        } else {
            body
        })
    } else {
        body
    };
    let looped_text = if iterate {
        "for line in f:\n"@ + indent_text(
            if l {
                "line = line.rstrip()\n"@ + bt
            } else {
                bt
            },
        )
    } else {
        bt
    };
    if iterate {
        if l {
            lemma_gen_rstrip_wrap(body, bt);
            lemma_gen_for_wrap(rstrip_wrap_tree(body), "line = line.rstrip()\n"@ + bt);
        } else {
            lemma_gen_for_wrap(body, bt);
        }
    }
    assert(gen_tree(looped) == Ok::<Seq<char>, GErr>(looped_text));
    let shadowed = if !l {
        print_shadow_tree(looped)
    } else {
        looped
    };
    let shadowed_text = if !l {
        shadow_text() + seq!['\n'] + looped_text
    } else {
        looped_text
    };
    if !l {
        lemma_gen_shadow_wrap(looped, looped_text);
    }
    assert(gen_tree(shadowed) == Ok::<Seq<char>, GErr>(shadowed_text));
    lemma_gen_inpt_wrap(path, shadowed, shadowed_text);
}

/// Generate the complete program text for one option set and fifo path:
/// assemble the tree in a fresh arena and render it. The command body is
/// wrapped in the line-iteration form when `-n` is given or no `-e`
/// commands were given (the default filter mode), with the newline strip
/// inside the loop when `-l` is given; the print shadow is added when `-l`
/// is absent; the input-source wrap is outermost.
pub fn gen_program(opts: &Opts, fifo_path: &str) -> (r: String)
    ensures
        r@ == program_text(opts.cmds(), opts.n, opts.l, fifo_path@),
{
    let mut arena = LispArena::default();
    let body = do_e(opts, &mut arena);
    let ghost body_tree = arena.tree(body);
    let staged = if opts.n || opts.e.len() == 0 {
        let inner = do_l(body, opts, &mut arena);
        wrap_for(inner, &mut arena)
    } else {
        body
    };
    proof {
        assert(opts.cmds().len() == opts.e@.len());
    }
    let shadowed = do_l_post(staged, opts, &mut arena);
    let root = do_inpt(shadowed, fifo_path, &mut arena);
    proof {
        assert(arena.tree(root) == program_tree(opts.cmds(), opts.n, opts.l, fifo_path@));
        lemma_program_rendering(opts.cmds(), opts.n, opts.l, fifo_path@);
    }
    match crate::generator::gen(&arena, root) {
        Ok(s) => s,
        Err(_) => unreached(),
    }
}

} // verus!


