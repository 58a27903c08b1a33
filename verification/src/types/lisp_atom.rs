use vstd::prelude::*;

verus! {

/// Mathematical value of an atom. Floats are carried by their decimal
/// literal text: the emitter only ever reads a float's spelling.
pub enum AtomV {
    Int(int),
    Float(Seq<char>),
    Str(Seq<char>),
    Symbol(Seq<char>),
    RawText(Seq<char>),
}

/// A leaf value of an expression tree: integer, float (kept as its decimal
/// literal text), double-quoted string, symbol, or raw program text that the
/// emitter copies verbatim.
pub enum LispAtom {
    Int(i64),
    Float(String),
    Str(String),
    Symbol(String),
    RawText(String),
}

impl View for LispAtom {
    type V = AtomV;

    open spec fn view(&self) -> AtomV {
        match self {
            LispAtom::Int(i) => AtomV::Int(*i as int),
            LispAtom::Float(t) => AtomV::Float(t@),
            LispAtom::Str(t) => AtomV::Str(t@),
            LispAtom::Symbol(s) => AtomV::Symbol(s@),
            LispAtom::RawText(t) => AtomV::RawText(t@),
        }
    }
}

impl PartialEq for LispAtom {
    /// Structural equality: same kind, same value.
    fn eq(&self, other: &Self) -> (r: bool) {
        match (self, other) {
            (LispAtom::Int(a), LispAtom::Int(b)) => *a == *b,
            (LispAtom::Float(a), LispAtom::Float(b)) => *a == *b,
            (LispAtom::Str(a), LispAtom::Str(b)) => *a == *b,
            (LispAtom::Symbol(a), LispAtom::Symbol(b)) => *a == *b,
            (LispAtom::RawText(a), LispAtom::RawText(b)) => *a == *b,
            _ => false,
        }
    }
}

impl vstd::std_specs::cmp::PartialEqSpecImpl for LispAtom {
    open spec fn obeys_eq_spec() -> bool {
        true
    }

    open spec fn eq_spec(&self, other: &Self) -> bool {
        self@ == other@
    }
}

pub open spec fn digit_char(d: nat) -> char {
    if d == 0 {
        '0'
    } else if d == 1 {
        '1'
    } else if d == 2 {
        '2'
    } else if d == 3 {
        '3'
    } else if d == 4 {
        '4'
    } else if d == 5 {
        '5'
    } else if d == 6 {
        '6'
    } else if d == 7 {
        '7'
    } else if d == 8 {
        '8'
    } else {
        '9'
    }
}

/// Decimal digits of a natural number, most significant first.
pub open spec fn dec_rep(n: nat) -> Seq<char>
    decreases n,
{
    if n < 10 {
        seq![digit_char(n)]
    } else {
        dec_rep(n / 10) + seq![digit_char(n % 10)]
    }
}

/// Canonical base-10 text of an integer.
pub open spec fn int_text(i: int) -> Seq<char> {
    if i < 0 {
        seq!['-'] + dec_rep((-i) as nat)
    } else {
        dec_rep(i as nat)
    }
}

/// Numeric value of one decimal digit character.
pub open spec fn digit_val(c: char) -> nat {
    if c == '0' {
        0
    } else if c == '1' {
        1
    } else if c == '2' {
        2
    } else if c == '3' {
        3
    } else if c == '4' {
        4
    } else if c == '5' {
        5
    } else if c == '6' {
        6
    } else if c == '7' {
        7
    } else if c == '8' {
        8
    } else {
        9
    }
}

/// Value read back from a run of decimal digits, most significant first.
pub open spec fn dec_value(s: Seq<char>) -> nat
    decreases s.len(),
{
    if s.len() == 0 {
        0
    } else {
        dec_value(s.drop_last()) * 10 + digit_val(s.last())
    }
}

/// Integer read back from decimal text: an optional leading minus sign,
/// then digits.
pub open spec fn int_value(s: Seq<char>) -> int {
    if s.len() > 0 && s[0] == '-' {
        -(dec_value(s.drop_first()) as int)
    } else {
        dec_value(s) as int
    }
}

proof fn lemma_dec_rep_value(n: nat)
    ensures
        dec_value(dec_rep(n)) == n,
        dec_rep(n).len() > 0,
        dec_rep(n)[0] != '-',
    decreases n,
{
    assert(dec_value(Seq::<char>::empty()) == 0);
    if n < 10 {
        assert(seq![digit_char(n)].drop_last() =~= Seq::<char>::empty());
        assert(digit_val(digit_char(n)) == n);
        assert(dec_value(dec_rep(n)) == dec_value(Seq::<char>::empty()) * 10 + digit_val(
            digit_char(n),
        ));
    } else {
        lemma_dec_rep_value(n / 10);
        let s = dec_rep(n);
        assert(s.drop_last() =~= dec_rep(n / 10));
        assert(s.last() == digit_char(n % 10));
        assert(digit_val(digit_char(n % 10)) == n % 10);
        assert(dec_value(s) == dec_value(s.drop_last()) * 10 + digit_val(s.last()));
        assert((n / 10) * 10 + n % 10 == n);
        assert(s[0] == dec_rep(n / 10)[0]);
    }
}

/// Integers round-trip through their canonical decimal text: reading the
/// rendered text back yields exactly the integer rendered.
pub proof fn lemma_int_text_round_trip(i: int)
    ensures
        int_value(int_text(i)) == i,
{
    if i < 0 {
        lemma_dec_rep_value((-i) as nat);
        let s = int_text(i);
        assert(s[0] == '-');
        assert(s.drop_first() =~= dec_rep((-i) as nat));
    } else {
        lemma_dec_rep_value(i as nat);
        assert(int_text(i)[0] != '-');
    }
}

/// Canonical text of an atom: integers in decimal, floats by their stored
/// spelling, strings double-quoted, symbols and raw text verbatim.
pub open spec fn atom_print(a: AtomV) -> Seq<char> {
    match a {
        AtomV::Int(i) => int_text(i),
        AtomV::Float(t) => t,
        AtomV::Str(t) => seq!['"'] + t + seq!['"'],
        AtomV::Symbol(s) => s,
        AtomV::RawText(t) => t,
    }
}

fn digit_str(d: u64) -> (r: &'static str)
    requires
        d < 10,
    ensures
        r@ == seq![digit_char(d as nat)],
{
    let r: &'static str = match d {
        0 => "0",
        1 => "1",
        2 => "2",
        3 => "3",
        4 => "4",
        5 => "5",
        6 => "6",
        7 => "7",
        8 => "8",
        _ => "9",
    };
    proof {
        reveal_strlit("0");
        reveal_strlit("1");
        reveal_strlit("2");
        reveal_strlit("3");
        reveal_strlit("4");
        reveal_strlit("5");
        reveal_strlit("6");
        reveal_strlit("7");
        reveal_strlit("8");
        reveal_strlit("9");
        assert(r@ =~= seq![digit_char(d as nat)]);
    }
    r
}

fn u64_to_text(n: u64) -> (r: String)
    ensures
        r@ == dec_rep(n as nat),
    decreases n,
{
    if n < 10 {
        digit_str(n).to_owned()
    } else {
        let mut s = u64_to_text(n / 10);
        s.append(digit_str(n % 10));
        s
    }
}

/// Base-10 rendering of a signed integer.
pub fn i64_to_text(i: i64) -> (r: String)
    ensures
        r@ == int_text(i as int),
{
    if i < 0 {
        let wide: i128 = -(i as i128);
        assert(0 < wide <= 0x8000_0000_0000_0000);
        let m: u64 = wide as u64;
        let mut s = "-".to_owned();
        proof {
            reveal_strlit("-");
            assert(s@ =~= seq!['-']);
        }
        let digits = u64_to_text(m);
        s.append(digits.as_str());
        s
    } else {
        u64_to_text(i as u64)
    }
}

impl LispAtom {
    /// Make a symbol atom with the given name.
    pub fn new_symbol(s: &str) -> (r: Self)
        ensures
            r@ == AtomV::Symbol(s@),
    {
        LispAtom::Symbol(s.to_owned())
    }

    /// Make a raw-text atom: the emitter copies its contents verbatim,
    /// without quoting or escaping.
    pub fn new_raw_text(s: &str) -> (r: Self)
        ensures
            r@ == AtomV::RawText(s@),
    {
        LispAtom::RawText(s.to_owned())
    }

    /// Canonical text of this atom, per `atom_print`.
    pub fn to_text(&self) -> (r: String)
        ensures
            r@ == atom_print(self@),
    {
        match self {
            LispAtom::Int(i) => i64_to_text(*i),
            LispAtom::Float(t) => t.clone(),
            LispAtom::Str(t) => {
                let mut s = "\"".to_owned();
                proof {
                    reveal_strlit("\"");
                    assert(s@ =~= seq!['"']);
                }
                s.append(t.as_str());
                s.append("\"");
                proof {
                    assert(s@ =~= atom_print(self@));
                }
                s
            },
            LispAtom::Symbol(s) => s.clone(),
            LispAtom::RawText(t) => t.clone(),
        }
    }
}

} // verus!
