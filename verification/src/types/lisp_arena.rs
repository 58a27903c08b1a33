use vstd::prelude::*;
use crate::types::lisp_atom::{LispAtom, AtomV, atom_print};
use crate::types::lisp_exp::{
    LispExp, LispRef, NodeV, Tree, GenError, GErr, resolve, lemma_resolve_agree, elems, list_tree,
    nil_tree, print_tree, print_spine,
};

verus! {

/// Mathematical value of an arena: the node store and the symbol table,
/// the latter as the sequence of (name, node index) entries in insertion
/// order.
pub struct ArenaV {
    pub nodes: Seq<NodeV>,
    pub syms: Seq<(Seq<char>, int)>,
}

/// A cons slot only points below its own index: the arena allocates
/// bottom-up, so the node graph is acyclic by construction.
pub open spec fn node_below(n: NodeV, i: int) -> bool {
    match n {
        NodeV::Cons(c, d) => 0 <= c < i && 0 <= d < i,
        NodeV::Atom(_) => true,
    }
}

/// A symbol-table entry points at a node holding exactly that symbol.
pub open spec fn sym_entry_ok(nodes: Seq<NodeV>, e: (Seq<char>, int)) -> bool {
    0 <= e.1 < nodes.len() && nodes[e.1] == NodeV::Atom(AtomV::Symbol(e.0))
}

/// The node index interned for `name`, if any: the first matching entry.
pub open spec fn sym_lookup(syms: Seq<(Seq<char>, int)>, name: Seq<char>) -> Option<int>
    decreases syms.len(),
{
    if syms.len() == 0 {
        None
    } else if syms[0].0 == name {
        Some(syms[0].1)
    } else {
        sym_lookup(syms.drop_first(), name)
    }
}

impl ArenaV {
    /// Arena invariant: every cons node points below itself, every symbol
    /// entry points at its own symbol node, and no name is interned twice.
    pub open spec fn wf(self) -> bool {
        &&& (forall|i: int|
            0 <= i < self.nodes.len() ==> #[trigger] node_below(self.nodes[i], i))
        &&& (forall|k: int|
            0 <= k < self.syms.len() ==> #[trigger] sym_entry_ok(self.nodes, self.syms[k]))
        &&& (forall|k1: int, k2: int|
            0 <= k1 < k2 < self.syms.len() ==> #[trigger] self.syms[k1].0 != #[trigger] self.syms[k2].0)
    }
}

/// The trees that a sequence of handles resolves to against one arena.
pub open spec fn trees_of(a: ArenaV, hs: Seq<LispRef>) -> Seq<Tree> {
    hs.map_values(|h: LispRef| resolve(a.nodes, h.0 as int))
}

/// One arena state grown out of another: all the old nodes are still
/// there and still resolve to the same trees.
pub open spec fn extends(post: ArenaV, pre: ArenaV) -> bool {
    &&& pre.nodes.len() <= post.nodes.len()
    &&& forall|j: int|
        0 <= j < pre.nodes.len() ==> #[trigger] resolve(post.nodes, j) == resolve(pre.nodes, j)
}

/// The tree a node value would resolve to against the given store.
pub open spec fn exp_tree(nodes: Seq<NodeV>, e: NodeV) -> Tree {
    match e {
        NodeV::Atom(a) => Tree::Atom(a),
        NodeV::Cons(c, d) => Tree::Cons(Box::new(resolve(nodes, c)), Box::new(resolve(nodes, d))),
    }
}

proof fn lemma_lookup_at(syms: Seq<(Seq<char>, int)>, name: Seq<char>, k: int)
    requires
        0 <= k < syms.len(),
        syms[k].0 == name,
        forall|j: int| 0 <= j < k ==> #[trigger] syms[j].0 != name,
    ensures
        sym_lookup(syms, name) == Some(syms[k].1),
    decreases k,
{
    if k == 0 {
    } else {
        assert(syms[0].0 != name);
        let rest = syms.drop_first();
        assert forall|j: int| 0 <= j < k - 1 implies #[trigger] rest[j].0 != name by {
            assert(rest[j] == syms[j + 1]);
        }
        assert(rest[k - 1] == syms[k]);
        lemma_lookup_at(rest, name, k - 1);
    }
}

proof fn lemma_lookup_absent(syms: Seq<(Seq<char>, int)>, name: Seq<char>)
    requires
        forall|j: int| 0 <= j < syms.len() ==> #[trigger] syms[j].0 != name,
    ensures
        sym_lookup(syms, name) is None,
    decreases syms.len(),
{
    if syms.len() > 0 {
        assert(syms[0].0 != name);
        let rest = syms.drop_first();
        assert forall|j: int| 0 <= j < rest.len() implies #[trigger] rest[j].0 != name by {
            assert(rest[j] == syms[j + 1]);
        }
        lemma_lookup_absent(rest, name);
    }
}

proof fn lemma_lookup_push(syms: Seq<(Seq<char>, int)>, entry: (Seq<char>, int), n: Seq<char>)
    ensures
        sym_lookup(syms.push(entry), n) == (match sym_lookup(syms, n) {
            Some(v) => Some(v),
            None => if n == entry.0 {
                Some(entry.1)
            } else {
                None
            },
        }),
    decreases syms.len(),
{
    let pushed = syms.push(entry);
    if syms.len() == 0 {
        assert(pushed[0] == entry);
        if entry.0 != n {
            assert(pushed.drop_first() =~= Seq::<(Seq<char>, int)>::empty());
        }
    } else {
        assert(pushed[0] == syms[0]);
        if syms[0].0 != n {
            assert(pushed.drop_first() =~= syms.drop_first().push(entry));
            lemma_lookup_push(syms.drop_first(), entry, n);
        }
    }
}

/// An interned name's index comes from one of the table's entries.
proof fn lemma_lookup_is_entry(syms: Seq<(Seq<char>, int)>, name: Seq<char>) -> (k: int)
    requires
        sym_lookup(syms, name) is Some,
    ensures
        0 <= k < syms.len(),
        syms[k] == (name, sym_lookup(syms, name)->Some_0),
    decreases syms.len(),
{
    if syms[0].0 == name {
        0
    } else {
        let k = lemma_lookup_is_entry(syms.drop_first(), name);
        assert(syms.drop_first()[k] == syms[k + 1]);
        k + 1
    }
}

/// Owner of every expression node for one generation session. Nodes are
/// stored contiguously and handed out as index handles; the symbol table
/// interns one canonical node per symbol name. All storage is released in
/// one step when the arena is dropped.
pub struct LispArena {
    nodes: Vec<LispExp>,
    symbols: Vec<(String, LispRef)>,
}

impl View for LispArena {
    type V = ArenaV;

    closed spec fn view(&self) -> ArenaV {
        ArenaV {
            nodes: self.nodes@.map_values(|e: LispExp| e@),
            syms: self.symbols@.map_values(|p: (String, LispRef)| (p.0@, p.1.0 as int)),
        }
    }
}

impl LispArena {
    pub open spec fn wf(&self) -> bool {
        self@.wf()
    }

    /// A handle is valid when it indexes an allocated node; every handle
    /// the arena returns stays valid for the arena's whole life.
    pub open spec fn valid(&self, h: LispRef) -> bool {
        (h.0 as int) < self@.nodes.len()
    }

    /// The tree that the handle resolves to.
    pub open spec fn tree(&self, h: LispRef) -> Tree {
        resolve(self@.nodes, h.0 as int)
    }

    /// The interned node index for a symbol name, if any.
    pub open spec fn sym(&self, name: Seq<char>) -> Option<int> {
        sym_lookup(self@.syms, name)
    }
}

impl Default for LispArena {
    fn default() -> (r: Self)
        ensures
            r@.nodes.len() == 0,
            r@.syms.len() == 0,
            r.wf(),
    {
        let r = LispArena { nodes: Vec::new(), symbols: Vec::new() };
        proof {
            assert(r@.nodes =~= Seq::<NodeV>::empty());
            assert(r@.syms =~= Seq::<(Seq<char>, int)>::empty());
        }
        r
    }
}

impl LispArena {
    /// Read one node.
    pub(crate) fn node(&self, h: LispRef) -> (r: &LispExp)
        requires
            self.valid(h),
        ensures
            r@ == self@.nodes[h.0 as int],
    {
        &self.nodes[h.0]
    }

    /// Store one new node and return its handle. A cons argument may only
    /// point at already-allocated nodes.
    pub fn alloc_exp(&mut self, exp: LispExp) -> (r: LispRef)
        requires
            old(self).wf(),
            exp@ matches NodeV::Cons(c, d) ==> 0 <= c < old(self)@.nodes.len() && 0 <= d
                < old(self)@.nodes.len(),
        ensures
            final(self).wf(),
            r.0 == old(self)@.nodes.len(),
            final(self).valid(r),
            final(self)@.nodes == old(self)@.nodes.push(exp@),
            final(self)@.syms == old(self)@.syms,
            forall|j: int|
                0 <= j < old(self)@.nodes.len() ==> #[trigger] resolve(final(self)@.nodes, j)
                    == resolve(old(self)@.nodes, j),
            extends(final(self)@, old(self)@),
            final(self).tree(r) == exp_tree(old(self)@.nodes, exp@),
    {
        let r = LispRef(self.nodes.len());
        self.nodes.push(exp);
        proof {
            let onodes = old(self)@.nodes;
            let nnodes = self@.nodes;
            assert(nnodes =~= onodes.push(exp@));
            assert(self@.syms =~= old(self)@.syms);
            let len = onodes.len() as int;
            assert forall|i: int| 0 <= i < nnodes.len() implies #[trigger] node_below(
                nnodes[i],
                i,
            ) by {
                if i < len {
                    assert(node_below(onodes[i], i));
                }
            }
            assert forall|k: int| 0 <= k < self@.syms.len() implies #[trigger] sym_entry_ok(
                nnodes,
                self@.syms[k],
            ) by {
                assert(sym_entry_ok(onodes, old(self)@.syms[k]));
            }
            assert forall|j: int| 0 <= j < len implies #[trigger] resolve(nnodes, j) == resolve(
                onodes,
                j,
            ) by {
                lemma_resolve_agree(onodes, nnodes, j);
            }
            match exp@ {
                NodeV::Atom(_) => {},
                NodeV::Cons(c, d) => {
                    assert(resolve(nnodes, len) == Tree::Cons(
                        Box::new(resolve(nnodes, c)),
                        Box::new(resolve(nnodes, d)),
                    ));
                },
            }
        }
        r
    }

    /// Return the canonical node for a symbol name, allocating and
    /// recording it on first request. Repeated calls with one name return
    /// the same handle and leave the arena unchanged.
    pub fn alloc_symbol(&mut self, sym: &str) -> (r: LispRef)
        requires
            old(self).wf(),
        ensures
            final(self).wf(),
            final(self).valid(r),
            final(self).tree(r) == Tree::Atom(AtomV::Symbol(sym@)),
            final(self).sym(sym@) == Some(r.0 as int),
            old(self)@.nodes.len() <= final(self)@.nodes.len(),
            forall|j: int|
                0 <= j < old(self)@.nodes.len() ==> #[trigger] resolve(final(self)@.nodes, j)
                    == resolve(old(self)@.nodes, j),
            extends(final(self)@, old(self)@),
            forall|n: Seq<char>| n != sym@ ==> #[trigger] final(self).sym(n) == old(self).sym(n),
            match old(self).sym(sym@) {
                Some(i) => r.0 as int == i && final(self)@ == old(self)@,
                None => final(self)@.nodes == old(self)@.nodes.push(
                    NodeV::Atom(AtomV::Symbol(sym@)),
                ) && final(self)@.syms == old(self)@.syms.push((sym@, r.0 as int)),
            },
    {
        let owned = sym.to_owned();
        let count = self.symbols.len();
        let mut i: usize = 0;
        while i < count
            invariant
                *self == *old(self),
                self.wf(),
                count == self@.syms.len(),
                i <= count,
                owned@ == sym@,
                forall|j: int| 0 <= j < i ==> #[trigger] self@.syms[j].0 != sym@,
            decreases count - i,
        {
            let entry = &self.symbols[i];
            if entry.0 == owned {
                let r = entry.1;
                proof {
                    assert(self@.syms[i as int] == (entry.0@, entry.1.0 as int));
                    lemma_lookup_at(self@.syms, sym@, i as int);
                    assert(sym_entry_ok(self@.nodes, self@.syms[i as int]));
                    assert forall|j: int|
                        0 <= j < old(self)@.nodes.len() implies #[trigger] resolve(self@.nodes, j)
                        == resolve(old(self)@.nodes, j) by {}
                }
                return r;
            }
            i += 1;
        }
        proof {
            lemma_lookup_absent(self@.syms, sym@);
        }
        let key = owned.clone();
        let r = self.alloc_exp(LispExp::Atom(LispAtom::Symbol(owned)));
        self.symbols.push((key, r));
        proof {
            let mid_syms = old(self)@.syms;
            assert(self@.syms =~= mid_syms.push((sym@, r.0 as int)));
            let nnodes = self@.nodes;
            assert forall|k: int| 0 <= k < self@.syms.len() implies #[trigger] sym_entry_ok(
                nnodes,
                self@.syms[k],
            ) by {
                if k < mid_syms.len() {
                    assert(sym_entry_ok(nnodes, mid_syms[k]));
                } else {
                    assert(self@.syms[k] == (sym@, r.0 as int));
                    assert(nnodes[r.0 as int] == NodeV::Atom(AtomV::Symbol(sym@)));
                }
            }
            assert forall|k1: int, k2: int|
                0 <= k1 < k2 < self@.syms.len() implies #[trigger] self@.syms[k1].0
                != #[trigger] self@.syms[k2].0 by {
                if k2 == self@.syms.len() - 1 {
                    assert(self@.syms[k1] == mid_syms[k1]);
                    assert(mid_syms[k1].0 != sym@);
                }
            }
            lemma_lookup_push(mid_syms, (sym@, r.0 as int), sym@);
            assert forall|n: Seq<char>| n != sym@ implies #[trigger] self.sym(n) == old(self).sym(
                n,
            ) by {
                lemma_lookup_push(mid_syms, (sym@, r.0 as int), n);
            }
        }
        r
    }

    /// Materialize a list shape: allocate the cons chain holding `items`
    /// in order, ending in `tail` if one is given, else in the interned
    /// nil symbol. With no items and no tail the result is the interned
    /// nil symbol itself — the same shared handle on every such call, with
    /// the arena left unchanged once nil is interned; with a tail and no
    /// items it is the tail.
    pub fn build(&mut self, items: &Vec<LispRef>, tail: Option<LispRef>) -> (r: LispRef)
        requires
            old(self).wf(),
            forall|k: int| 0 <= k < items@.len() ==> old(self).valid(#[trigger] items@[k]),
            tail matches Some(t) ==> old(self).valid(t),
        ensures
            final(self).wf(),
            final(self).valid(r),
            extends(final(self)@, old(self)@),
            final(self).tree(r) == list_tree(
                trees_of(old(self)@, items@),
                match tail {
                    Some(t) => old(self).tree(t),
                    None => nil_tree(),
                },
            ),
            items@.len() == 0 && tail is None ==> final(self).sym("nil"@) == Some(r.0 as int),
            items@.len() == 0 && tail is None && old(self).sym("nil"@) is Some ==> r.0 as int
                == old(self).sym("nil"@)->Some_0 && final(self)@ == old(self)@,
            items@.len() == 0 && tail is Some ==> r == tail->Some_0 && final(self)@ == old(
                self,
            )@,
    {
        let ghost item_trees = trees_of(old(self)@, items@);
        let ghost tail_tree = match tail {
            Some(t) => old(self).tree(t),
            None => nil_tree(),
        };
        let mut cur: LispRef = match tail {
            Some(t) => t,
            None => self.alloc_symbol("nil"),
        };
        if items.len() == 0 {
            proof {
                assert(item_trees =~= Seq::<Tree>::empty());
                assert(list_tree(item_trees, tail_tree) == tail_tree);
            }
            return cur;
        }
        let mut i: usize = items.len();
        proof {
            assert(item_trees.skip(i as int) =~= Seq::<Tree>::empty());
        }
        while i > 0
            invariant
                self.wf(),
                i <= items@.len(),
                item_trees == trees_of(old(self)@, items@),
                forall|k: int| 0 <= k < items@.len() ==> (#[trigger] items@[k].0 as int)
                    < old(self)@.nodes.len(),
                old(self)@.nodes.len() <= self@.nodes.len(),
                forall|j: int|
                    0 <= j < old(self)@.nodes.len() ==> #[trigger] resolve(self@.nodes, j)
                        == resolve(old(self)@.nodes, j),
                self.valid(cur),
                self.tree(cur) == list_tree(item_trees.skip(i as int), tail_tree),
            decreases i,
        {
            i = i - 1;
            let h = items[i];
            let ghost pre = self@;
            let next = self.alloc_exp(LispExp::Cons { car: h, cdr: cur });
            proof {
                assert forall|j: int|
                    0 <= j < old(self)@.nodes.len() implies #[trigger] resolve(self@.nodes, j)
                    == resolve(old(self)@.nodes, j) by {
                    assert(resolve(self@.nodes, j) == resolve(pre.nodes, j));
                }
                assert(resolve(self@.nodes, h.0 as int) == resolve(old(self)@.nodes, h.0 as int));
                assert(item_trees[i as int] == old(self).tree(items@[i as int]));
                let rest = item_trees.skip(i as int);
                assert(rest.len() > 0);
                assert(rest[0] == item_trees[i as int]);
                assert(rest.drop_first() =~= item_trees.skip(i as int + 1));
                assert(self.tree(next) == Tree::Cons(
                    Box::new(resolve(pre.nodes, h.0 as int)),
                    Box::new(resolve(pre.nodes, cur.0 as int)),
                ));
            }
            cur = next;
        }
        proof {
            assert(item_trees.skip(0) =~= item_trees);
        }
        cur
    }

    /// The payload handles of the list at `h`: the cars along the cons
    /// spine. Walking stops at the first atom in cdr position, whether the
    /// nil terminator or the tail of a dotted list; an atom has no payload.
    pub fn list_elems(&self, h: LispRef) -> (r: Vec<LispRef>)
        requires
            self.wf(),
            self.valid(h),
        ensures
            r@.map_values(|e: LispRef| self.tree(e)) == elems(self.tree(h)),
            forall|k: int|
                0 <= k < r@.len() ==> (#[trigger] r@[k]).0 < h.0 && self.valid(r@[k]),
        decreases h.0,
    {
        let n = self.node(h);
        match n {
            LispExp::Atom(_) => {
                let r: Vec<LispRef> = Vec::new();
                proof {
                    assert(r@.map_values(|e: LispRef| self.tree(e)) =~= elems(self.tree(h)));
                }
                r
            },
            LispExp::Cons { car, cdr } => {
                let car = *car;
                let cdr = *cdr;
                proof {
                    assert(node_below(self@.nodes[h.0 as int], h.0 as int));
                }
                let mut rest = self.list_elems(cdr);
                let ghost rest_snap = rest@;
                let mut r: Vec<LispRef> = Vec::new();
                r.push(car);
                r.append(&mut rest);
                proof {
                    assert(r@ =~= seq![car] + rest_snap);
                    assert(r@.map_values(|e: LispRef| self.tree(e)) =~= seq![self.tree(car)]
                        + rest_snap.map_values(|e: LispRef| self.tree(e)));
                }
                r
            },
        }
    }

    /// Raw text of the tree at `h`, per `print_tree`: atoms by their
    /// canonical text, lists parenthesized, a dotted tail set off by a dot.
    pub fn to_text(&self, h: LispRef) -> (r: String)
        requires
            self.wf(),
            self.valid(h),
        ensures
            r@ == print_tree(self.tree(h)),
        decreases h.0, 1int,
    {
        proof {
            assert(node_below(self@.nodes[h.0 as int], h.0 as int));
        }
        match self.node(h) {
            LispExp::Atom(a) => a.to_text(),
            LispExp::Cons { .. } => {
                let mut s = "(".to_owned();
                let spine = self.to_text_spine(h);
                s.append(spine.as_str());
                s.append(")");
                proof {
                    reveal_strlit("(");
                    reveal_strlit(")");
                    assert(("(")@ =~= seq!['(']);
                    assert((")")@ =~= seq![')']);
                    assert(self.tree(h) is Cons);
                    assert(s@ =~= seq!['('] + print_spine(self.tree(h)) + seq![')']);
                }
                s
            },
        }
    }

    fn to_text_spine(&self, h: LispRef) -> (r: String)
        requires
            self.wf(),
            self.valid(h),
            self@.nodes[h.0 as int] is Cons,
        ensures
            r@ == print_spine(self.tree(h)),
        decreases h.0, 0int,
    {
        proof {
            assert(node_below(self@.nodes[h.0 as int], h.0 as int));
        }
        match self.node(h) {
            LispExp::Atom(_) => unreached(),
            LispExp::Cons { car, cdr } => {
                let car = *car;
                let cdr = *cdr;
                proof {
                    assert(self.tree(h) == Tree::Cons(
                        Box::new(self.tree(car)),
                        Box::new(self.tree(cdr)),
                    ));
                }
                let mut s = self.to_text(car);
                match self.node(cdr) {
                    LispExp::Atom(a) => {
                        proof {
                            assert(self.tree(cdr) == Tree::Atom(a@));
                        }
                        let is_nil = match a {
                            LispAtom::Symbol(name) => *name == "nil".to_owned(),
                            _ => false,
                        };
                        if !is_nil {
                            s.append(" . ");
                            let atext = a.to_text();
                            s.append(atext.as_str());
                            proof {
                                reveal_strlit(" . ");
                                assert((" . ")@ =~= seq![' ', '.', ' ']);
                                assert(a@ != AtomV::Symbol("nil"@));
                                assert(print_spine(self.tree(h)) == print_tree(self.tree(car))
                                    + (seq![' ', '.', ' '] + atom_print(a@)));
                                assert(s@ =~= print_spine(self.tree(h)));
                            }
                        } else {
                            proof {
                                assert(a@ == AtomV::Symbol("nil"@));
                                assert(print_spine(self.tree(h)) == print_tree(self.tree(car))
                                    + Seq::<char>::empty());
                                assert(s@ =~= print_spine(self.tree(h)));
                            }
                        }
                    },
                    LispExp::Cons { .. } => {
                        s.append(" ");
                        let rest = self.to_text_spine(cdr);
                        s.append(rest.as_str());
                        proof {
                            reveal_strlit(" ");
                            assert((" ")@ =~= seq![' ']);
                            assert(node_below(self@.nodes[cdr.0 as int], cdr.0 as int));
                            assert(self.tree(cdr) is Cons);
                            assert(print_spine(self.tree(h)) == print_tree(self.tree(car)) + (seq![
                                ' ',
                            ] + print_spine(self.tree(cdr))));
                            assert(s@ =~= print_spine(self.tree(h)));
                        }
                    },
                }
                s
            },
        }
    }

    /// Structural equality of the trees at two handles: equal atoms, or
    /// cons nodes whose cars and cdrs are structurally equal in turn.
    pub fn exp_eq(&self, a: LispRef, b: LispRef) -> (r: bool)
        requires
            self.wf(),
            self.valid(a),
            self.valid(b),
        ensures
            r == (self.tree(a) == self.tree(b)),
        decreases a.0 + b.0,
    {
        proof {
            assert(node_below(self@.nodes[a.0 as int], a.0 as int));
            assert(node_below(self@.nodes[b.0 as int], b.0 as int));
        }
        match (self.node(a), self.node(b)) {
            (LispExp::Atom(x), LispExp::Atom(y)) => x == y,
            (LispExp::Cons { car: c1, cdr: d1 }, LispExp::Cons { car: c2, cdr: d2 }) => {
                let c1 = *c1;
                let d1 = *d1;
                let c2 = *c2;
                let d2 = *d2;
                self.exp_eq(c1, c2) && self.exp_eq(d1, d2)
            },
            _ => false,
        }
    }

    /// Replace the car of the cons node at `h`. Surgery may only point a
    /// cell at an earlier node: the arena's bottom-up order is what keeps
    /// the node graph acyclic.
    pub fn setcar(&mut self, h: LispRef, car: LispRef)
        requires
            old(self).wf(),
            old(self).valid(h),
            old(self)@.nodes[h.0 as int] is Cons,
            car.0 < h.0,
        ensures
            final(self).wf(),
            final(self)@.syms == old(self)@.syms,
            final(self)@.nodes == old(self)@.nodes.update(
                h.0 as int,
                NodeV::Cons(car.0 as int, old(self)@.nodes[h.0 as int]->Cons_1),
            ),
            forall|j: int|
                0 <= j < h.0 ==> #[trigger] resolve(final(self)@.nodes, j) == resolve(
                    old(self)@.nodes,
                    j,
                ),
            final(self).tree(h) == Tree::Cons(
                Box::new(resolve(old(self)@.nodes, car.0 as int)),
                Box::new(resolve(old(self)@.nodes, old(self)@.nodes[h.0 as int]->Cons_1)),
            ),
    {
        proof {
            assert(node_below(old(self)@.nodes[h.0 as int], h.0 as int));
        }
        let cdr = match self.node(h) {
            LispExp::Cons { car: _, cdr } => *cdr,
            LispExp::Atom(_) => unreached(),
        };
        let idx = h.0;
        self.nodes[idx] = LispExp::Cons { car, cdr };
        proof {
            assert(self@.nodes =~= old(self)@.nodes.update(
                h.0 as int,
                NodeV::Cons(car.0 as int, cdr.0 as int),
            ));
            assert(self@.syms =~= old(self)@.syms);
            self.lemma_after_surgery(*old(self), h, NodeV::Cons(car.0 as int, cdr.0 as int));
        }
    }

    /// Replace the cdr of the cons node at `h`, under the same bottom-up
    /// order as `setcar`.
    pub fn setcdr(&mut self, h: LispRef, cdr: LispRef)
        requires
            old(self).wf(),
            old(self).valid(h),
            old(self)@.nodes[h.0 as int] is Cons,
            cdr.0 < h.0,
        ensures
            final(self).wf(),
            final(self)@.syms == old(self)@.syms,
            final(self)@.nodes == old(self)@.nodes.update(
                h.0 as int,
                NodeV::Cons(old(self)@.nodes[h.0 as int]->Cons_0, cdr.0 as int),
            ),
            forall|j: int|
                0 <= j < h.0 ==> #[trigger] resolve(final(self)@.nodes, j) == resolve(
                    old(self)@.nodes,
                    j,
                ),
            final(self).tree(h) == Tree::Cons(
                Box::new(resolve(old(self)@.nodes, old(self)@.nodes[h.0 as int]->Cons_0)),
                Box::new(resolve(old(self)@.nodes, cdr.0 as int)),
            ),
    {
        proof {
            assert(node_below(old(self)@.nodes[h.0 as int], h.0 as int));
        }
        let car = match self.node(h) {
            LispExp::Cons { car, cdr: _ } => *car,
            LispExp::Atom(_) => unreached(),
        };
        let idx = h.0;
        self.nodes[idx] = LispExp::Cons { car, cdr };
        proof {
            assert(self@.nodes =~= old(self)@.nodes.update(
                h.0 as int,
                NodeV::Cons(car.0 as int, cdr.0 as int),
            ));
            assert(self@.syms =~= old(self)@.syms);
            self.lemma_after_surgery(*old(self), h, NodeV::Cons(car.0 as int, cdr.0 as int));
        }
    }

    /// What one in-place rewrite of the cons node at `h` leaves intact:
    /// well-formedness, the symbol table, and every tree below `h`.
    proof fn lemma_after_surgery(&self, prev: Self, h: LispRef, n: NodeV)
        requires
            prev.wf(),
            prev.valid(h),
            prev@.nodes[h.0 as int] is Cons,
            n matches NodeV::Cons(c, d) && 0 <= c < h.0 && 0 <= d < h.0,
            self@.nodes == prev@.nodes.update(h.0 as int, n),
            self@.syms == prev@.syms,
        ensures
            self.wf(),
            forall|j: int|
                0 <= j < h.0 ==> #[trigger] resolve(self@.nodes, j) == resolve(prev@.nodes, j),
            self.tree(h) == Tree::Cons(
                Box::new(resolve(prev@.nodes, n->Cons_0)),
                Box::new(resolve(prev@.nodes, n->Cons_1)),
            ),
    {
        let onodes = prev@.nodes;
        let nnodes = self@.nodes;
        let hi = h.0 as int;
        assert forall|i: int| 0 <= i < nnodes.len() implies #[trigger] node_below(
            nnodes[i],
            i,
        ) by {
            if i != hi {
                assert(node_below(onodes[i], i));
            }
        }
        assert forall|k: int| 0 <= k < self@.syms.len() implies #[trigger] sym_entry_ok(
            nnodes,
            self@.syms[k],
        ) by {
            assert(sym_entry_ok(onodes, prev@.syms[k]));
        }
        assert forall|j: int| 0 <= j < hi implies #[trigger] resolve(nnodes, j) == resolve(
            onodes,
            j,
        ) by {
            lemma_resolve_agree(onodes, nnodes, j);
        }
        let c = n->Cons_0;
        let d = n->Cons_1;
        assert(resolve(nnodes, hi) == Tree::Cons(
            Box::new(resolve(nnodes, c)),
            Box::new(resolve(nnodes, d)),
        ));
    }

    /// An interned name resolves to exactly its own symbol node: with
    /// `alloc_symbol`'s contract this pins interning down — repeated
    /// requests for one name return one handle to one unchanged node, and
    /// interning distinct names never aliases, since each handle's node
    /// carries its own name.
    pub proof fn lemma_interning_sound(&self, name: Seq<char>)
        requires
            self.wf(),
            self.sym(name) is Some,
        ensures
            0 <= self.sym(name)->Some_0 < self@.nodes.len(),
            resolve(self@.nodes, self.sym(name)->Some_0) == Tree::Atom(AtomV::Symbol(name)),
    {
        let k = lemma_lookup_is_entry(self@.syms, name);
        assert(sym_entry_ok(self@.nodes, self@.syms[k]));
    }

    /// Interning distinct names never aliases: the two handles differ.
    pub proof fn lemma_interning_no_alias(&self, n1: Seq<char>, n2: Seq<char>)
        requires
            self.wf(),
            self.sym(n1) is Some,
            self.sym(n2) is Some,
            n1 != n2,
        ensures
            self.sym(n1)->Some_0 != self.sym(n2)->Some_0,
            resolve(self@.nodes, self.sym(n1)->Some_0) != resolve(
                self@.nodes,
                self.sym(n2)->Some_0,
            ),
    {
        self.lemma_interning_sound(n1);
        self.lemma_interning_sound(n2);
    }

    /// A well-formed cons node resolves to the cons of its children's
    /// trees, and both children sit below it.
    pub proof fn lemma_cons_children(&self, h: LispRef)
        requires
            self.wf(),
            self.valid(h),
            self@.nodes[h.0 as int] is Cons,
        ensures
            0 <= self@.nodes[h.0 as int]->Cons_0 < h.0,
            0 <= self@.nodes[h.0 as int]->Cons_1 < h.0,
            self.tree(h) == Tree::Cons(
                Box::new(resolve(self@.nodes, self@.nodes[h.0 as int]->Cons_0)),
                Box::new(resolve(self@.nodes, self@.nodes[h.0 as int]->Cons_1)),
            ),
    {
        assert(node_below(self@.nodes[h.0 as int], h.0 as int));
    }

    /// Collect the payload elements of the form at `h` when their number
    /// lies between `min` and `max`, padding with `nil_exp` up to `max`;
    /// any other count is a fatal arity error carrying `name`.
    pub fn extract_args(
        &self,
        h: LispRef,
        name: &str,
        min: usize,
        max: usize,
        nil_exp: LispRef,
    ) -> (r: Result<Vec<LispRef>, GenError>)
        requires
            self.wf(),
            self.valid(h),
            self.valid(nil_exp),
            min <= max,
        ensures
            match r {
                Ok(v) => {
                    &&& min <= elems(self.tree(h)).len() <= max
                    &&& v@.len() == max
                    &&& v@.map_values(|e: LispRef| self.tree(e)) == elems(self.tree(h)) + Seq::new(
                        (max - elems(self.tree(h)).len()) as nat,
                        |k: int| self.tree(nil_exp),
                    )
                    &&& forall|k: int| 0 <= k < v@.len() ==> self.valid(#[trigger] v@[k])
                },
                Err(e) => !(min <= elems(self.tree(h)).len() <= max) && e@ == GErr::Arity(name@),
            },
    {
        let mut v = self.list_elems(h);
        let ghost es = elems(self.tree(h));
        if v.len() < min || v.len() > max {
            return Err(GenError::WrongNumberOfArguments(name.to_owned()));
        }
        let ghost got = v@.len() as int;
        while v.len() < max
            invariant
                self.wf(),
                self.valid(h),
                self.valid(nil_exp),
                got <= v@.len() <= max,
                es.len() == got,
                v@.map_values(|e: LispRef| self.tree(e)) == es + Seq::new(
                    (v@.len() - got) as nat,
                    |k: int| self.tree(nil_exp),
                ),
                forall|k: int| 0 <= k < v@.len() ==> self.valid(#[trigger] v@[k]),
            decreases max - v.len(),
        {
            let ghost before = v@;
            v.push(nil_exp);
            proof {
                assert(v@.map_values(|e: LispRef| self.tree(e)) =~= before.map_values(
                    |e: LispRef| self.tree(e),
                ) + seq![self.tree(nil_exp)]);
                assert(es + Seq::new((before.len() - got + 1) as nat, |k: int| self.tree(nil_exp))
                    =~= es + Seq::new((before.len() - got) as nat, |k: int| self.tree(nil_exp))
                    + seq![self.tree(nil_exp)]);
            }
        }
        proof {
            if v@.len() == got {
                assert(v@.map_values(|e: LispRef| self.tree(e)) =~= es + Seq::new(
                    0,
                    |k: int| self.tree(nil_exp),
                ));
            }
        }
        Ok(v)
    }
}

} // verus!
