use vstd::prelude::*;
use crate::types::lisp_atom::{LispAtom, AtomV, atom_print};
use crate::types::lisp_exp::{LispExp, LispRef, Tree, GErr};
use crate::types::lisp_arena::LispArena;

pub use crate::types::lisp_exp::GenError;

verus! {

/// One 4-space indentation unit.
pub open spec fn indent_unit() -> Seq<char> {
    seq![' ', ' ', ' ', ' ']
}

/// A line break followed by one indentation unit.
pub open spec fn line_break_indent() -> Seq<char> {
    seq!['\n', ' ', ' ', ' ', ' ']
}

/// Text of an atom under code generation: exactly four reserved symbol
/// spellings are rewritten into Python constants, every other atom keeps
/// its canonical text.
pub open spec fn atom_gen(a: AtomV) -> Seq<char> {
    match a {
        AtomV::Symbol(s) => {
            if s == "t"@ || s == "true"@ {
                "True"@
            } else if s == "nil"@ {
                "None"@
            } else if s == "false"@ {
                "False"@
            } else {
                s
            }
        },
        _ => atom_print(a),
    }
}

/// The text with one 4-space unit inserted after every line break.
pub open spec fn indent_after_breaks(s: Seq<char>) -> Seq<char>
    decreases s.len(),
{
    if s.len() == 0 {
        Seq::empty()
    } else if s[0] == '\n' {
        line_break_indent() + indent_after_breaks(s.drop_first())
    } else {
        seq![s[0]] + indent_after_breaks(s.drop_first())
    }
}

/// Block text indented by one 4-space unit: every line of the text gets
/// the prefix; a single trailing line break is dropped rather than opening
/// an indented empty line, and empty text stays empty.
pub open spec fn indent_text(s: Seq<char>) -> Seq<char> {
    if s.len() == 0 {
        s
    } else {
        let body = if s.last() == '\n' {
            s.drop_last()
        } else {
            s
        };
        indent_unit() + indent_after_breaks(body)
    }
}

/// Rendering of a resolved tree: an atom by `atom_gen`; a cons by the
/// renderer its head symbol selects. A head that is not a symbol, a head
/// symbol outside the vocabulary, and a form with too few arguments are
/// the three fatal failures, and no partial text accompanies them.
pub open spec fn gen_tree(t: Tree) -> Result<Seq<char>, GErr>
    decreases t, 3int,
{
    match t {
        Tree::Atom(a) => Ok(atom_gen(a)),
        Tree::Cons(car, cdr) => match *car {
            Tree::Atom(AtomV::Symbol(s)) => gen_form(s, *cdr),
            _ => Err(GErr::WrongType),
        },
    }
}

/// Dispatch on the head symbol: the fixed seven-renderer vocabulary.
pub open spec fn gen_form(head: Seq<char>, args: Tree) -> Result<Seq<char>, GErr>
    decreases args, 2int,
{
    if head == "kw"@ {
        gen_kw(args)
    } else if head == "call"@ {
        gen_call(args)
    } else if head == "for"@ {
        gen_for(args)
    } else if head == "with"@ {
        gen_with(args)
    } else if head == "progn"@ {
        gen_list(args, seq!['\n'])
    } else if head == "attr"@ {
        gen_attr(args)
    } else if head == "assign"@ {
        gen_assign(args)
    } else {
        Err(GErr::Unknown(head))
    }
}

/// kw: (name, value) rendered as `name=value`.
pub open spec fn gen_kw(args: Tree) -> Result<Seq<char>, GErr>
    decreases args, 1int,
{
    match args {
        Tree::Cons(v1, rest) => match *rest {
            Tree::Cons(v2, _) => match (gen_tree(*v1), gen_tree(*v2)) {
                (Ok(a), Ok(b)) => Ok(a + seq!['='] + b),
                (Err(e), _) => Err(e),
                (_, Err(e)) => Err(e),
            },
            Tree::Atom(_) => Err(GErr::Arity("kw"@)),
        },
        Tree::Atom(_) => Err(GErr::Arity("kw"@)),
    }
}

/// call: (fn, arg...) rendered as `fn(arg, ...)`.
pub open spec fn gen_call(args: Tree) -> Result<Seq<char>, GErr>
    decreases args, 1int,
{
    match args {
        Tree::Cons(f, rest) => match (gen_tree(*f), gen_list(*rest, seq![',', ' '])) {
            (Ok(a), Ok(b)) => Ok(a + seq!['('] + b + seq![')']),
            (Err(e), _) => Err(e),
            (_, Err(e)) => Err(e),
        },
        Tree::Atom(_) => Err(GErr::Arity("call"@)),
    }
}

/// for: (target, iterable, body) rendered as a for statement over an
/// indented body.
pub open spec fn gen_for(args: Tree) -> Result<Seq<char>, GErr>
    decreases args, 1int,
{
    match args {
        Tree::Cons(v1, r1) => match *r1 {
            Tree::Cons(v2, r2) => match *r2 {
                Tree::Cons(v3, _) => match (gen_tree(*v1), gen_tree(*v2), gen_tree(*v3)) {
                    (Ok(a), Ok(b), Ok(c)) => Ok(
                        seq!['f', 'o', 'r', ' '] + a + seq![' ', 'i', 'n', ' '] + b + seq![
                            ':',
                            '\n',
                        ] + indent_text(c),
                    ),
                    (Err(e), _, _) => Err(e),
                    (_, Err(e), _) => Err(e),
                    (_, _, Err(e)) => Err(e),
                },
                Tree::Atom(_) => Err(GErr::Arity("for"@)),
            },
            Tree::Atom(_) => Err(GErr::Arity("for"@)),
        },
        Tree::Atom(_) => Err(GErr::Arity("for"@)),
    }
}

/// with: (ctx-expr, target, body) rendered as a with statement over an
/// indented body.
pub open spec fn gen_with(args: Tree) -> Result<Seq<char>, GErr>
    decreases args, 1int,
{
    match args {
        Tree::Cons(v1, r1) => match *r1 {
            Tree::Cons(v2, r2) => match *r2 {
                Tree::Cons(v3, _) => match (gen_tree(*v1), gen_tree(*v2), gen_tree(*v3)) {
                    (Ok(a), Ok(b), Ok(c)) => Ok(
                        seq!['w', 'i', 't', 'h', ' '] + a + seq![' ', 'a', 's', ' '] + b + seq![
                            ':',
                            '\n',
                        ] + indent_text(c),
                    ),
                    (Err(e), _, _) => Err(e),
                    (_, Err(e), _) => Err(e),
                    (_, _, Err(e)) => Err(e),
                },
                Tree::Atom(_) => Err(GErr::Arity("with"@)),
            },
            Tree::Atom(_) => Err(GErr::Arity("with"@)),
        },
        Tree::Atom(_) => Err(GErr::Arity("with"@)),
    }
}

/// attr: (obj, name) rendered as `obj.name`.
pub open spec fn gen_attr(args: Tree) -> Result<Seq<char>, GErr>
    decreases args, 1int,
{
    match args {
        Tree::Cons(v1, rest) => match *rest {
            Tree::Cons(v2, _) => match (gen_tree(*v1), gen_tree(*v2)) {
                (Ok(a), Ok(b)) => Ok(a + seq!['.'] + b),
                (Err(e), _) => Err(e),
                (_, Err(e)) => Err(e),
            },
            Tree::Atom(_) => Err(GErr::Arity("attr"@)),
        },
        Tree::Atom(_) => Err(GErr::Arity("attr"@)),
    }
}

/// assign: (target, value) rendered as `target = value`.
pub open spec fn gen_assign(args: Tree) -> Result<Seq<char>, GErr>
    decreases args, 1int,
{
    match args {
        Tree::Cons(v1, rest) => match *rest {
            Tree::Cons(v2, _) => match (gen_tree(*v1), gen_tree(*v2)) {
                (Ok(a), Ok(b)) => Ok(a + seq![' ', '=', ' '] + b),
                (Err(e), _) => Err(e),
                (_, Err(e)) => Err(e),
            },
            Tree::Atom(_) => Err(GErr::Arity("assign"@)),
        },
        Tree::Atom(_) => Err(GErr::Arity("assign"@)),
    }
}

/// The payload elements of the spine, each rendered, joined by `sep`.
/// The first failure wins; an atom spine (no elements) is empty text.
pub open spec fn gen_list(t: Tree, sep: Seq<char>) -> Result<Seq<char>, GErr>
    decreases t, 1int,
{
    match t {
        Tree::Atom(_) => Ok(Seq::empty()),
        Tree::Cons(car, cdr) => match gen_tree(*car) {
            Err(e) => Err(e),
            Ok(a) => match *cdr {
                Tree::Atom(_) => Ok(a),
                Tree::Cons(_, _) => match gen_list(*cdr, sep) {
                    Err(e) => Err(e),
                    Ok(b) => Ok(a + sep + b),
                },
            },
        },
    }
}

/// A form whose head symbol lies outside the fixed vocabulary fails
/// fatally as an unknown function carrying that symbol, whatever its
/// arguments: an error result, never partial text.
pub proof fn lemma_unknown_head(head: Seq<char>, args: Tree)
    requires
        head != "kw"@,
        head != "call"@,
        head != "for"@,
        head != "with"@,
        head != "progn"@,
        head != "attr"@,
        head != "assign"@,
    ensures
        gen_tree(Tree::Cons(Box::new(Tree::Atom(AtomV::Symbol(head))), Box::new(args))) == Err::<
            Seq<char>,
            GErr,
        >(GErr::Unknown(head)),
{
}

/// A form whose head position holds anything but a symbol — another atom
/// kind or a nested list — fails fatally, whatever its arguments, and with
/// a cause distinct from the unknown-symbol failure.
pub proof fn lemma_head_not_symbol(h: Tree, args: Tree)
    requires
        !(h matches Tree::Atom(AtomV::Symbol(_))),
    ensures
        gen_tree(Tree::Cons(Box::new(h), Box::new(args))) == Err::<Seq<char>, GErr>(
            GErr::WrongType,
        ),
        forall|s: Seq<char>|
            Err::<Seq<char>, GErr>(GErr::WrongType) != Err::<Seq<char>, GErr>(GErr::Unknown(s)),
{
}

/// View of an exec rendering result.
pub open spec fn res_view(r: Result<String, GenError>) -> Result<Seq<char>, GErr> {
    match r {
        Ok(s) => Ok(s@),
        Err(e) => Err(e@),
    }
}

proof fn lemma_iab_push(s: Seq<char>, c: char)
    ensures
        indent_after_breaks(s.push(c)) == indent_after_breaks(s) + (if c == '\n' {
            line_break_indent()
        } else {
            seq![c]
        }),
    decreases s.len(),
{
    let tail = if c == '\n' {
        line_break_indent()
    } else {
        seq![c]
    };
    if s.len() == 0 {
        assert(s.push(c)[0] == c);
        assert(s.push(c).drop_first() =~= Seq::<char>::empty());
        assert(indent_after_breaks(Seq::<char>::empty()) == Seq::<char>::empty());
        assert(s =~= Seq::<char>::empty());
        if c == '\n' {
            assert(indent_after_breaks(s.push(c)) == line_break_indent() + indent_after_breaks(
                s.push(c).drop_first(),
            ));
        } else {
            assert(indent_after_breaks(s.push(c)) == seq![c] + indent_after_breaks(
                s.push(c).drop_first(),
            ));
        }
        assert(indent_after_breaks(s.push(c)) =~= indent_after_breaks(s) + tail);
    } else {
        assert(s.push(c)[0] == s[0]);
        assert(s.push(c).drop_first() =~= s.drop_first().push(c));
        lemma_iab_push(s.drop_first(), c);
        if s[0] == '\n' {
            assert(indent_after_breaks(s.push(c)) == line_break_indent() + indent_after_breaks(
                s.drop_first().push(c),
            ));
            assert(indent_after_breaks(s) == line_break_indent() + indent_after_breaks(
                s.drop_first(),
            ));
        } else {
            assert(indent_after_breaks(s.push(c)) == seq![s[0]] + indent_after_breaks(
                s.drop_first().push(c),
            ));
            assert(indent_after_breaks(s) == seq![s[0]] + indent_after_breaks(s.drop_first()));
        }
        assert(indent_after_breaks(s.push(c)) =~= indent_after_breaks(s) + tail);
    }
}

fn sym_is(s: &String, lit: &str) -> (r: bool)
    ensures
        r == (s@ == lit@),
{
    *s == lit.to_owned()
}

/// Prefix every line of the rendered block with one 4-space unit.
fn indent(s: &str) -> (r: String)
    ensures
        r@ == indent_text(s@),
{
    let n = s.unicode_len();
    if n == 0 {
        let r = String::new();
        proof {
            assert(r@ =~= indent_text(s@));
        }
        return r;
    }
    let last = s.get_char(n - 1);
    let body_len: usize = if last == '\n' {
        n - 1
    } else {
        n
    };
    let ghost body = if s@.last() == '\n' {
        s@.drop_last()
    } else {
        s@
    };
    let mut out = "    ".to_owned();
    proof {
        assert(body.len() == body_len);
        assert(forall|j: int| 0 <= j < body.len() ==> body[j] == s@[j]);
        reveal_strlit("    ");
        assert(out@ =~= indent_unit());
        assert(body.take(0) =~= Seq::<char>::empty());
        assert(out@ =~= indent_unit() + indent_after_breaks(body.take(0)));
    }
    let mut i: usize = 0;
    while i < body_len
        invariant
            i <= body_len,
            body_len <= n == s@.len(),
            body_len == body.len(),
            forall|j: int| 0 <= j < body.len() ==> body[j] == s@[j],
            out@ == indent_unit() + indent_after_breaks(body.take(i as int)),
        decreases body_len - i,
    {
        let c = s.get_char(i);
        let ghost pre = body.take(i as int);
        if c == '\n' {
            out.append("\n    ");
            proof {
                reveal_strlit("\n    ");
                assert(("\n    ")@ =~= line_break_indent());
            }
        } else {
            let piece = s.substring_char(i, i + 1);
            proof {
                assert(piece@ =~= seq![body[i as int]]);
            }
            out.append(piece);
        }
        proof {
            lemma_iab_push(pre, body[i as int]);
            assert(body.take(i as int + 1) =~= pre.push(body[i as int]));
            assert(out@ =~= indent_unit() + indent_after_breaks(body.take(i as int + 1)));
        }
        i += 1;
    }
    proof {
        assert(body.take(body_len as int) =~= body);
    }
    out
}

/// Render one atom: the reserved spellings become Python constants, all
/// other atoms keep their canonical text.
pub fn gen_atom(atom: &LispAtom) -> (r: String)
    ensures
        r@ == atom_gen(atom@),
{
    match atom {
        LispAtom::Symbol(s) => {
            if sym_is(s, "t") || sym_is(s, "true") {
                "True".to_owned()
            } else if sym_is(s, "nil") {
                "None".to_owned()
            } else if sym_is(s, "false") {
                "False".to_owned()
            } else {
                s.clone()
            }
        },
        _ => atom.to_text(),
    }
}

/// Render the tree at `exp` into program text, or report the first fatal
/// failure; no partial text accompanies a failure.
pub fn gen(arena: &LispArena, exp: LispRef) -> (r: Result<String, GenError>)
    requires
        arena.wf(),
        arena.valid(exp),
    ensures
        res_view(r) == gen_tree(arena.tree(exp)),
    decreases exp.0, 3int,
{
    match arena.node(exp) {
        LispExp::Atom(a) => Ok(gen_atom(a)),
        LispExp::Cons { car, cdr } => {
            let car = *car;
            let cdr = *cdr;
            proof {
                arena.lemma_cons_children(exp);
            }
            gen_cons(arena, car, cdr)
        },
    }
}

/// Dispatch a cons node on its head symbol.
fn gen_cons(arena: &LispArena, car: LispRef, cdr: LispRef) -> (r: Result<String, GenError>)
    requires
        arena.wf(),
        arena.valid(car),
        arena.valid(cdr),
    ensures
        res_view(r) == gen_tree(
            Tree::Cons(Box::new(arena.tree(car)), Box::new(arena.tree(cdr))),
        ),
    decreases cdr.0, 2int,
{
    let head = match arena.node(car) {
        LispExp::Atom(LispAtom::Symbol(s)) => s,
        _ => {
            proof {
                if arena@.nodes[car.0 as int] is Cons {
                    arena.lemma_cons_children(car);
                }
            }
            return Err(GenError::WrongTypeArgument);
        },
    };
    if sym_is(head, "kw") {
        gen_cons_kw(arena, cdr)
    } else if sym_is(head, "call") {
        gen_cons_call(arena, cdr)
    } else if sym_is(head, "for") {
        gen_cons_for(arena, cdr)
    } else if sym_is(head, "with") {
        gen_cons_with(arena, cdr)
    } else if sym_is(head, "progn") {
        gen_cons_progn(arena, cdr)
    } else if sym_is(head, "attr") {
        gen_cons_attr(arena, cdr)
    } else if sym_is(head, "assign") {
        gen_cons_assign(arena, cdr)
    } else {
        Err(GenError::UnknownFunction(head.clone()))
    }
}

/// Render `name=value`.
fn gen_cons_kw(arena: &LispArena, args: LispRef) -> (r: Result<String, GenError>)
    requires
        arena.wf(),
        arena.valid(args),
    ensures
        res_view(r) == gen_kw(arena.tree(args)),
    decreases args.0, 1int,
{
    let (v1, r1) = match arena.node(args) {
        LispExp::Cons { car, cdr } => (*car, *cdr),
        LispExp::Atom(_) => {
            return Err(GenError::WrongNumberOfArguments("kw".to_owned()));
        },
    };
    proof {
        arena.lemma_cons_children(args);
    }
    let v2 = match arena.node(r1) {
        LispExp::Cons { car, .. } => *car,
        LispExp::Atom(_) => {
            return Err(GenError::WrongNumberOfArguments("kw".to_owned()));
        },
    };
    proof {
        arena.lemma_cons_children(r1);
    }
    let a = match gen(arena, v1) {
        Ok(x) => x,
        Err(e) => {
            return Err(e);
        },
    };
    let b = match gen(arena, v2) {
        Ok(x) => x,
        Err(e) => {
            return Err(e);
        },
    };
    let mut out = a;
    out.append("=");
    out.append(b.as_str());
    proof {
        reveal_strlit("=");
        assert(("=")@ =~= seq!['=']);
        assert(out@ =~= gen_tree(arena.tree(v1))->Ok_0 + seq!['='] + gen_tree(
            arena.tree(v2),
        )->Ok_0);
    }
    Ok(out)
}

/// Render `fn(arg, ...)`.
fn gen_cons_call(arena: &LispArena, args: LispRef) -> (r: Result<String, GenError>)
    requires
        arena.wf(),
        arena.valid(args),
    ensures
        res_view(r) == gen_call(arena.tree(args)),
    decreases args.0, 1int,
{
    proof {
        reveal_strlit(", ");
        assert((", ")@ =~= seq![',', ' ']);
    }
    let (f, rest) = match arena.node(args) {
        LispExp::Cons { car, cdr } => (*car, *cdr),
        LispExp::Atom(_) => {
            return Err(GenError::WrongNumberOfArguments("call".to_owned()));
        },
    };
    proof {
        arena.lemma_cons_children(args);
    }
    let a = match gen(arena, f) {
        Ok(x) => x,
        Err(e) => {
            return Err(e);
        },
    };
    let b = match gen_args(arena, rest, ", ") {
        Ok(x) => x,
        Err(e) => {
            return Err(e);
        },
    };
    let mut out = a;
    out.append("(");
    out.append(b.as_str());
    out.append(")");
    proof {
        reveal_strlit("(");
        reveal_strlit(")");
        reveal_strlit(", ");
        assert((", ")@ =~= seq![',', ' ']);
        assert(out@ =~= gen_tree(arena.tree(f))->Ok_0 + seq!['('] + gen_list(
            arena.tree(rest),
            seq![',', ' '],
        )->Ok_0 + seq![')']);
    }
    Ok(out)
}

/// Render a for statement over an indented body.
fn gen_cons_for(arena: &LispArena, args: LispRef) -> (r: Result<String, GenError>)
    requires
        arena.wf(),
        arena.valid(args),
    ensures
        res_view(r) == gen_for(arena.tree(args)),
    decreases args.0, 1int,
{
    let (v1, r1) = match arena.node(args) {
        LispExp::Cons { car, cdr } => (*car, *cdr),
        LispExp::Atom(_) => {
            return Err(GenError::WrongNumberOfArguments("for".to_owned()));
        },
    };
    proof {
        arena.lemma_cons_children(args);
    }
    let (v2, r2) = match arena.node(r1) {
        LispExp::Cons { car, cdr } => (*car, *cdr),
        LispExp::Atom(_) => {
            return Err(GenError::WrongNumberOfArguments("for".to_owned()));
        },
    };
    proof {
        arena.lemma_cons_children(r1);
    }
    let v3 = match arena.node(r2) {
        LispExp::Cons { car, .. } => *car,
        LispExp::Atom(_) => {
            return Err(GenError::WrongNumberOfArguments("for".to_owned()));
        },
    };
    proof {
        arena.lemma_cons_children(r2);
    }
    let a = match gen(arena, v1) {
        Ok(x) => x,
        Err(e) => {
            return Err(e);
        },
    };
    let b = match gen(arena, v2) {
        Ok(x) => x,
        Err(e) => {
            return Err(e);
        },
    };
    let c = match gen(arena, v3) {
        Ok(x) => x,
        Err(e) => {
            return Err(e);
        },
    };
    let ind = indent(c.as_str());
    let mut out = "for ".to_owned();
    out.append(a.as_str());
    out.append(" in ");
    out.append(b.as_str());
    out.append(":\n");
    out.append(ind.as_str());
    proof {
        reveal_strlit("for ");
        reveal_strlit(" in ");
        reveal_strlit(":\n");
        assert(("for ")@ =~= seq!['f', 'o', 'r', ' ']);
        assert((" in ")@ =~= seq![' ', 'i', 'n', ' ']);
        assert((":\n")@ =~= seq![':', '\n']);
        assert(out@ =~= seq!['f', 'o', 'r', ' '] + gen_tree(arena.tree(v1))->Ok_0 + seq![
            ' ',
            'i',
            'n',
            ' ',
        ] + gen_tree(arena.tree(v2))->Ok_0 + seq![':', '\n'] + indent_text(
            gen_tree(arena.tree(v3))->Ok_0,
        ));
    }
    Ok(out)
}

/// Render a with statement over an indented body.
fn gen_cons_with(arena: &LispArena, args: LispRef) -> (r: Result<String, GenError>)
    requires
        arena.wf(),
        arena.valid(args),
    ensures
        res_view(r) == gen_with(arena.tree(args)),
    decreases args.0, 1int,
{
    let (v1, r1) = match arena.node(args) {
        LispExp::Cons { car, cdr } => (*car, *cdr),
        LispExp::Atom(_) => {
            return Err(GenError::WrongNumberOfArguments("with".to_owned()));
        },
    };
    proof {
        arena.lemma_cons_children(args);
    }
    let (v2, r2) = match arena.node(r1) {
        LispExp::Cons { car, cdr } => (*car, *cdr),
        LispExp::Atom(_) => {
            return Err(GenError::WrongNumberOfArguments("with".to_owned()));
        },
    };
    proof {
        arena.lemma_cons_children(r1);
    }
    let v3 = match arena.node(r2) {
        LispExp::Cons { car, .. } => *car,
        LispExp::Atom(_) => {
            return Err(GenError::WrongNumberOfArguments("with".to_owned()));
        },
    };
    proof {
        arena.lemma_cons_children(r2);
    }
    let a = match gen(arena, v1) {
        Ok(x) => x,
        Err(e) => {
            return Err(e);
        },
    };
    let b = match gen(arena, v2) {
        Ok(x) => x,
        Err(e) => {
            return Err(e);
        },
    };
    let c = match gen(arena, v3) {
        Ok(x) => x,
        Err(e) => {
            return Err(e);
        },
    };
    let ind = indent(c.as_str());
    let mut out = "with ".to_owned();
    out.append(a.as_str());
    out.append(" as ");
    out.append(b.as_str());
    out.append(":\n");
    out.append(ind.as_str());
    proof {
        reveal_strlit("with ");
        reveal_strlit(" as ");
        reveal_strlit(":\n");
        assert(("with ")@ =~= seq!['w', 'i', 't', 'h', ' ']);
        assert((" as ")@ =~= seq![' ', 'a', 's', ' ']);
        assert((":\n")@ =~= seq![':', '\n']);
        assert(out@ =~= seq!['w', 'i', 't', 'h', ' '] + gen_tree(arena.tree(v1))->Ok_0 + seq![
            ' ',
            'a',
            's',
            ' ',
        ] + gen_tree(arena.tree(v2))->Ok_0 + seq![':', '\n'] + indent_text(
            gen_tree(arena.tree(v3))->Ok_0,
        ));
    }
    Ok(out)
}

/// Render each statement on its own line.
fn gen_cons_progn(arena: &LispArena, args: LispRef) -> (r: Result<String, GenError>)
    requires
        arena.wf(),
        arena.valid(args),
    ensures
        res_view(r) == gen_list(arena.tree(args), seq!['\n']),
    decreases args.0, 1int,
{
    let r = gen_args(arena, args, "\n");
    proof {
        reveal_strlit("\n");
        assert(("\n")@ =~= seq!['\n']);
    }
    r
}

/// Render `obj.name`.
fn gen_cons_attr(arena: &LispArena, args: LispRef) -> (r: Result<String, GenError>)
    requires
        arena.wf(),
        arena.valid(args),
    ensures
        res_view(r) == gen_attr(arena.tree(args)),
    decreases args.0, 1int,
{
    let (v1, r1) = match arena.node(args) {
        LispExp::Cons { car, cdr } => (*car, *cdr),
        LispExp::Atom(_) => {
            return Err(GenError::WrongNumberOfArguments("attr".to_owned()));
        },
    };
    proof {
        arena.lemma_cons_children(args);
    }
    let v2 = match arena.node(r1) {
        LispExp::Cons { car, .. } => *car,
        LispExp::Atom(_) => {
            return Err(GenError::WrongNumberOfArguments("attr".to_owned()));
        },
    };
    proof {
        arena.lemma_cons_children(r1);
    }
    let a = match gen(arena, v1) {
        Ok(x) => x,
        Err(e) => {
            return Err(e);
        },
    };
    let b = match gen(arena, v2) {
        Ok(x) => x,
        Err(e) => {
            return Err(e);
        },
    };
    let mut out = a;
    out.append(".");
    out.append(b.as_str());
    proof {
        reveal_strlit(".");
        assert((".")@ =~= seq!['.']);
        assert(out@ =~= gen_tree(arena.tree(v1))->Ok_0 + seq!['.'] + gen_tree(
            arena.tree(v2),
        )->Ok_0);
    }
    Ok(out)
}

/// Render `target = value`.
fn gen_cons_assign(arena: &LispArena, args: LispRef) -> (r: Result<String, GenError>)
    requires
        arena.wf(),
        arena.valid(args),
    ensures
        res_view(r) == gen_assign(arena.tree(args)),
    decreases args.0, 1int,
{
    let (v1, r1) = match arena.node(args) {
        LispExp::Cons { car, cdr } => (*car, *cdr),
        LispExp::Atom(_) => {
            return Err(GenError::WrongNumberOfArguments("assign".to_owned()));
        },
    };
    proof {
        arena.lemma_cons_children(args);
    }
    let v2 = match arena.node(r1) {
        LispExp::Cons { car, .. } => *car,
        LispExp::Atom(_) => {
            return Err(GenError::WrongNumberOfArguments("assign".to_owned()));
        },
    };
    proof {
        arena.lemma_cons_children(r1);
    }
    let a = match gen(arena, v1) {
        Ok(x) => x,
        Err(e) => {
            return Err(e);
        },
    };
    let b = match gen(arena, v2) {
        Ok(x) => x,
        Err(e) => {
            return Err(e);
        },
    };
    let mut out = a;
    out.append(" = ");
    out.append(b.as_str());
    proof {
        reveal_strlit(" = ");
        assert((" = ")@ =~= seq![' ', '=', ' ']);
        assert(out@ =~= gen_tree(arena.tree(v1))->Ok_0 + seq![' ', '=', ' '] + gen_tree(
            arena.tree(v2),
        )->Ok_0);
    }
    Ok(out)
}

/// Render the payload elements along the spine at `h`, joined by `sep`.
fn gen_args(arena: &LispArena, h: LispRef, sep: &str) -> (r: Result<String, GenError>)
    requires
        arena.wf(),
        arena.valid(h),
    ensures
        res_view(r) == gen_list(arena.tree(h), sep@),
    decreases h.0, 0int,
{
    match arena.node(h) {
        LispExp::Atom(_) => {
            let r = String::new();
            proof {
                assert(r@ =~= Seq::<char>::empty());
            }
            Ok(r)
        },
        LispExp::Cons { car, cdr } => {
            let car = *car;
            let cdr = *cdr;
            proof {
                arena.lemma_cons_children(h);
            }
            let a = match gen(arena, car) {
                Ok(x) => x,
                Err(e) => {
                    return Err(e);
                },
            };
            match arena.node(cdr) {
                LispExp::Atom(_) => Ok(a),
                LispExp::Cons { .. } => {
                    proof {
                        arena.lemma_cons_children(cdr);
                    }
                    let b = match gen_args(arena, cdr, sep) {
                        Ok(x) => x,
                        Err(e) => {
                            return Err(e);
                        },
                    };
                    let mut out = a;
                    out.append(sep);
                    out.append(b.as_str());
                    proof {
                        assert(out@ =~= gen_tree(arena.tree(car))->Ok_0 + sep@ + gen_list(
                            arena.tree(cdr),
                            sep@,
                        )->Ok_0);
                    }
                    Ok(out)
                },
            }
        },
    }
}

} // verus!

