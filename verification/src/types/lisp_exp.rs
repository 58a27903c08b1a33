use vstd::prelude::*;
use crate::types::lisp_atom::{LispAtom, AtomV, atom_print};

verus! {

/// Non-owning handle to one node of a `LispArena`: the node's index in the
/// arena's storage. Resolving a handle is a bounds check; every handle the
/// arena hands out stays resolvable for the whole session.
#[derive(Clone, Copy, PartialEq, Eq, Structural, Debug)]
pub struct LispRef(pub usize);

/// Mathematical value of one arena slot: a leaf, or a pair of node indices.
pub enum NodeV {
    Atom(AtomV),
    Cons(int, int),
}

/// Mathematical value of a fully resolved expression: the recursive tree
/// that a node stands for once every handle is followed.
pub enum Tree {
    Atom(AtomV),
    Cons(Box<Tree>, Box<Tree>),
}

/// An expression node: a leaf atom, or a pair of handles (car, cdr) into
/// the arena that owns every node.
pub enum LispExp {
    Atom(LispAtom),
    Cons { car: LispRef, cdr: LispRef },
}

impl View for LispExp {
    type V = NodeV;

    open spec fn view(&self) -> NodeV {
        match self {
            LispExp::Atom(a) => NodeV::Atom(a@),
            LispExp::Cons { car, cdr } => NodeV::Cons(car.0 as int, cdr.0 as int),
        }
    }
}

/// The tree of the nil symbol, which terminates proper lists.
pub open spec fn nil_tree() -> Tree {
    Tree::Atom(AtomV::Symbol("nil"@))
}

/// Resolve node `i` of `nodes` to its tree. The arena allocates bottom-up,
/// so a well-formed cons node only points below itself; on an index out of
/// range or out of order (never produced by the arena) this falls back to
/// the nil tree.
pub open spec fn resolve(nodes: Seq<NodeV>, i: int) -> Tree
    decreases i,
{
    if 0 <= i < nodes.len() {
        match nodes[i] {
            NodeV::Atom(a) => Tree::Atom(a),
            NodeV::Cons(c, d) => {
                if 0 <= c < i && 0 <= d < i {
                    Tree::Cons(Box::new(resolve(nodes, c)), Box::new(resolve(nodes, d)))
                } else {
                    nil_tree()
                }
            },
        }
    } else {
        nil_tree()
    }
}

/// Two node stores that agree up to index `i` resolve `i` alike: a node's
/// tree depends only on the slots at or below its own index.
pub proof fn lemma_resolve_agree(n1: Seq<NodeV>, n2: Seq<NodeV>, i: int)
    requires
        0 <= i < n1.len(),
        i < n2.len(),
        forall|j: int| 0 <= j <= i ==> n1[j] == n2[j],
    ensures
        resolve(n1, i) == resolve(n2, i),
    decreases i,
{
    match n1[i] {
        NodeV::Cons(c, d) => {
            if 0 <= c < i && 0 <= d < i {
                lemma_resolve_agree(n1, n2, c);
                lemma_resolve_agree(n1, n2, d);
            }
        },
        NodeV::Atom(_) => {},
    }
}

/// The payload elements of a list: the cars along the cons spine. Iteration
/// stops at the first atom in cdr position, be it the nil terminator or the
/// tail of a dotted list.
pub open spec fn elems(t: Tree) -> Seq<Tree>
    decreases t,
{
    match t {
        Tree::Atom(_) => Seq::empty(),
        Tree::Cons(car, cdr) => seq![*car] + elems(*cdr),
    }
}

/// The cons chain holding `items` in order, ending in `tail`.
pub open spec fn list_tree(items: Seq<Tree>, tail: Tree) -> Tree
    decreases items.len(),
{
    if items.len() == 0 {
        tail
    } else {
        Tree::Cons(Box::new(items[0]), Box::new(list_tree(items.drop_first(), tail)))
    }
}

/// Raw text of a tree: atoms by their canonical text, cons chains as a
/// parenthesized list, a dotted tail set off by a dot.
pub open spec fn print_tree(t: Tree) -> Seq<char>
    decreases t, 1int,
{
    match t {
        Tree::Atom(a) => atom_print(a),
        Tree::Cons(_, _) => seq!['('] + print_spine(t) + seq![')'],
    }
}

/// Inside of a printed list: the cars separated by spaces, and after the
/// last car either nothing (nil tail) or a dot and the tail atom.
pub open spec fn print_spine(t: Tree) -> Seq<char>
    decreases t, 0int,
{
    match t {
        Tree::Atom(_) => Seq::empty(),
        Tree::Cons(car, cdr) => print_tree(*car) + match *cdr {
            Tree::Atom(a) => {
                if a == AtomV::Symbol("nil"@) {
                    Seq::<char>::empty()
                } else {
                    seq![' ', '.', ' '] + atom_print(a)
                }
            },
            Tree::Cons(_, _) => seq![' '] + print_spine(*cdr),
        },
    }
}

/// Mathematical value of a generation failure.
pub enum GErr {
    /// The head position of a form held something other than a symbol.
    WrongType,
    /// The head symbol is outside the fixed vocabulary.
    Unknown(Seq<char>),
    /// A form carried fewer arguments than its arity requires.
    Arity(Seq<char>),
}

/// A fatal code-generation failure. None of these arise from trees the
/// assembler builds; they signal a malformed hand-built tree and carry no
/// partial output.
#[derive(Debug)]
pub enum GenError {
    /// The head position of a form held something other than a symbol.
    WrongTypeArgument,
    /// The head symbol is outside the fixed vocabulary; carries that symbol.
    UnknownFunction(String),
    /// A form carried fewer arguments than its arity requires; carries the
    /// form's name.
    WrongNumberOfArguments(String),
}

impl View for GenError {
    type V = GErr;

    open spec fn view(&self) -> GErr {
        match self {
            GenError::WrongTypeArgument => GErr::WrongType,
            GenError::UnknownFunction(s) => GErr::Unknown(s@),
            GenError::WrongNumberOfArguments(s) => GErr::Arity(s@),
        }
    }
}

/// The nil terminator of a proper list is never a content element: the
/// payload of a list built from `items` over an atom tail is exactly
/// `items`, and in particular the empty build is an empty list.
pub proof fn lemma_tail_not_element(items: Seq<Tree>, tail: Tree)
    requires
        tail is Atom,
    ensures
        elems(list_tree(items, tail)) == items,
    decreases items.len(),
{
    if items.len() == 0 {
        assert(elems(list_tree(items, tail)) =~= items);
    } else {
        lemma_tail_not_element(items.drop_first(), tail);
        assert(elems(list_tree(items, tail)) =~= seq![items[0]] + items.drop_first());
        assert(seq![items[0]] + items.drop_first() =~= items);
    }
}

/// The items of a printed list, space-separated.
pub open spec fn print_items(items: Seq<Tree>) -> Seq<char>
    decreases items.len(),
{
    if items.len() == 0 {
        Seq::empty()
    } else if items.len() == 1 {
        print_tree(items[0])
    } else {
        print_tree(items[0]) + seq![' '] + print_items(items.drop_first())
    }
}

/// A nonempty proper list prints as its items, space-separated, inside one
/// pair of parentheses: `(a b c)`.
pub proof fn lemma_print_proper_list(items: Seq<Tree>)
    requires
        items.len() > 0,
    ensures
        print_tree(list_tree(items, nil_tree())) == seq!['('] + print_items(items) + seq![')'],
    decreases items.len(),
{
    let t = list_tree(items, nil_tree());
    if items.len() == 1 {
        assert(list_tree(items.drop_first(), nil_tree()) == nil_tree()) by {
            assert(items.drop_first() =~= Seq::<Tree>::empty());
        }
        assert(print_spine(t) =~= print_tree(items[0]));
        assert(print_tree(t) =~= seq!['('] + print_items(items) + seq![')']);
    } else {
        let rest = items.drop_first();
        lemma_print_proper_list(rest);
        lemma_print_spine_proper(items);
        assert(print_tree(t) =~= seq!['('] + print_items(items) + seq![')']);
    }
}

proof fn lemma_print_spine_proper(items: Seq<Tree>)
    requires
        items.len() > 0,
    ensures
        print_spine(list_tree(items, nil_tree())) == print_items(items),
    decreases items.len(),
{
    let t = list_tree(items, nil_tree());
    if items.len() == 1 {
        assert(list_tree(items.drop_first(), nil_tree()) == nil_tree()) by {
            assert(items.drop_first() =~= Seq::<Tree>::empty());
        }
        assert(print_spine(t) =~= print_tree(items[0]));
    } else {
        let rest = items.drop_first();
        lemma_print_spine_proper(rest);
        assert(list_tree(rest, nil_tree()) is Cons);
        assert(print_spine(t) =~= print_tree(items[0]) + seq![' '] + print_items(rest));
        assert(print_items(items) =~= print_tree(items[0]) + seq![' '] + print_items(rest));
    }
}

/// A dotted pair prints with its tail set off by a dot, and differently
/// from the proper two-element list of the same values: `(a . b)` against
/// `(a b)`; the two texts can never coincide.
pub proof fn lemma_print_dotted_vs_proper(a: Tree, b: AtomV)
    requires
        b != AtomV::Symbol("nil"@),
    ensures
        print_tree(Tree::Cons(Box::new(a), Box::new(Tree::Atom(b)))) == seq!['('] + print_tree(a)
            + seq![' ', '.', ' '] + atom_print(b) + seq![')'],
        print_tree(list_tree(seq![a, Tree::Atom(b)], nil_tree())) == seq!['('] + print_tree(a)
            + seq![' '] + atom_print(b) + seq![')'],
        print_tree(Tree::Cons(Box::new(a), Box::new(Tree::Atom(b)))) != print_tree(
            list_tree(seq![a, Tree::Atom(b)], nil_tree()),
        ),
{
    let dotted = Tree::Cons(Box::new(a), Box::new(Tree::Atom(b)));
    assert(print_spine(dotted) == print_tree(a) + (seq![' ', '.', ' '] + atom_print(b)));
    assert(print_tree(dotted) =~= seq!['('] + print_tree(a) + seq![' ', '.', ' '] + atom_print(b)
        + seq![')']);
    lemma_print_proper_list(seq![a, Tree::Atom(b)]);
    assert(seq![a, Tree::Atom(b)].drop_first() =~= seq![Tree::Atom(b)]);
    assert(print_items(seq![Tree::Atom(b)]) == atom_print(b));
    assert(print_items(seq![a, Tree::Atom(b)]) == print_tree(a) + seq![' '] + atom_print(b));
    assert(print_tree(list_tree(seq![a, Tree::Atom(b)], nil_tree())) =~= seq!['('] + print_tree(a)
        + seq![' '] + atom_print(b) + seq![')']);
    assert(print_tree(dotted).len() == print_tree(
        list_tree(seq![a, Tree::Atom(b)], nil_tree()),
    ).len() + 2);
}

impl LispExp {
    /// Make a leaf node holding a symbol atom.
    pub fn new_symbol(s: &str) -> (r: Self)
        ensures
            r@ == NodeV::Atom(AtomV::Symbol(s@)),
    {
        LispExp::Atom(LispAtom::new_symbol(s))
    }

    /// The car handle of a cons node.
    pub fn car(&self) -> (r: LispRef)
        requires
            self is Cons,
        ensures
            self@ matches NodeV::Cons(c, _) && c == r.0 as int,
    {
        match self {
            LispExp::Cons { car, .. } => *car,
            LispExp::Atom(_) => unreached(),
        }
    }

    /// The cdr handle of a cons node.
    pub fn cdr(&self) -> (r: LispRef)
        requires
            self is Cons,
        ensures
            self@ matches NodeV::Cons(_, d) && d == r.0 as int,
    {
        match self {
            LispExp::Cons { car: _, cdr } => *cdr,
            LispExp::Atom(_) => unreached(),
        }
    }
}

impl From<i64> for LispAtom {
    fn from(i: i64) -> (r: Self) {
        LispAtom::Int(i)
    }
}

impl vstd::std_specs::convert::FromSpecImpl<i64> for LispAtom {
    open spec fn obeys_from_spec() -> bool {
        true
    }

    open spec fn from_spec(i: i64) -> Self {
        LispAtom::Int(i)
    }
}

impl<'a> From<&'a str> for LispAtom {
    fn from(s: &'a str) -> (r: Self) {
        LispAtom::Str(s.to_owned())
    }
}

impl<'a> vstd::std_specs::convert::FromSpecImpl<&'a str> for LispAtom {
    open spec fn obeys_from_spec() -> bool {
        // no spec-level String can be built from a &str view; callers that
        // need a contract use the explicit constructors instead
        false
    }

    open spec fn from_spec(s: &'a str) -> Self {
        vstd::pervasive::arbitrary()
    }
}

impl From<String> for LispAtom {
    fn from(s: String) -> (r: Self) {
        LispAtom::Str(s)
    }
}

impl vstd::std_specs::convert::FromSpecImpl<String> for LispAtom {
    open spec fn obeys_from_spec() -> bool {
        true
    }

    open spec fn from_spec(s: String) -> Self {
        LispAtom::Str(s)
    }
}

impl From<i64> for LispExp {
    fn from(i: i64) -> (r: Self) {
        LispExp::Atom(LispAtom::Int(i))
    }
}

impl vstd::std_specs::convert::FromSpecImpl<i64> for LispExp {
    open spec fn obeys_from_spec() -> bool {
        true
    }

    open spec fn from_spec(i: i64) -> Self {
        LispExp::Atom(LispAtom::Int(i))
    }
}

impl<'a> From<&'a str> for LispExp {
    fn from(s: &'a str) -> (r: Self) {
        LispExp::Atom(LispAtom::Str(s.to_owned()))
    }
}

impl<'a> vstd::std_specs::convert::FromSpecImpl<&'a str> for LispExp {
    open spec fn obeys_from_spec() -> bool {
        // as for LispAtom: no String can be named in spec from a &str view
        false
    }

    open spec fn from_spec(s: &'a str) -> Self {
        vstd::pervasive::arbitrary()
    }
}

impl From<String> for LispExp {
    fn from(s: String) -> (r: Self) {
        LispExp::Atom(LispAtom::Str(s))
    }
}

impl vstd::std_specs::convert::FromSpecImpl<String> for LispExp {
    open spec fn obeys_from_spec() -> bool {
        true
    }

    open spec fn from_spec(s: String) -> Self {
        LispExp::Atom(LispAtom::Str(s))
    }
}

impl From<LispAtom> for LispExp {
    fn from(a: LispAtom) -> (r: Self) {
        LispExp::Atom(a)
    }
}

impl vstd::std_specs::convert::FromSpecImpl<LispAtom> for LispExp {
    open spec fn obeys_from_spec() -> bool {
        true
    }

    open spec fn from_spec(a: LispAtom) -> Self {
        LispExp::Atom(a)
    }
}

impl From<(LispRef, LispRef)> for LispExp {
    fn from(pair: (LispRef, LispRef)) -> (r: Self) {
        LispExp::Cons { car: pair.0, cdr: pair.1 }
    }
}

impl vstd::std_specs::convert::FromSpecImpl<(LispRef, LispRef)> for LispExp {
    open spec fn obeys_from_spec() -> bool {
        true
    }

    open spec fn from_spec(pair: (LispRef, LispRef)) -> Self {
        LispExp::Cons { car: pair.0, cdr: pair.1 }
    }
}

impl From<(&LispRef, &LispRef)> for LispExp {
    fn from(pair: (&LispRef, &LispRef)) -> (r: Self) {
        LispExp::Cons { car: *pair.0, cdr: *pair.1 }
    }
}

impl vstd::std_specs::convert::FromSpecImpl<(&LispRef, &LispRef)> for LispExp {
    open spec fn obeys_from_spec() -> bool {
        true
    }

    open spec fn from_spec(pair: (&LispRef, &LispRef)) -> Self {
        LispExp::Cons { car: *pair.0, cdr: *pair.1 }
    }
}

} // verus!
