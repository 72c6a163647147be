//! Mana symbols and mana costs: the data model, the canonical text rendering
//! of each symbol, the rules-driven mana value, and the colors a cost uses.

use vstd::prelude::*;

use crate::digits::{dec_digits, is_dec_digit, push_decimal};
use crate::strutil::push_char;

verus! {

/// The five colors of mana.
#[derive(Clone, Copy, Debug, PartialEq, Eq, Structural)]
pub enum Color {
    White,
    Blue,
    Black,
    Red,
    Green,
}

/// One symbol of a mana cost, as written between braces in cost text.
#[derive(Clone, Copy, Debug, PartialEq, Eq, Structural)]
pub enum ManaSymbol {
    /// A letter standing for an amount chosen later, such as `X`.
    Placeholder(char),
    Generic(usize),
    Colored(Color),
    Colorless,
    Hybrid(Color, Color),
    HybridColorless(Color),
    HybridGeneric(Color, usize),
    Phyrexian(Color),
    PhyrexianHybrid(Color, Color),
    Snow,
}

/// An ordered sequence of mana symbols. A cost built through
/// `try_from_symbols` or parsed from text is never empty.
#[derive(Clone, Debug, PartialEq)]
pub struct ManaCost(pub Vec<ManaSymbol>);

impl View for ManaCost {
    type V = Seq<ManaSymbol>;

    open spec fn view(&self) -> Seq<ManaSymbol> {
        self.0@
    }
}

/// The numeric mana value of a cost, derived by the fixed reduction of
/// `cost_value`; never stored, always recomputed.
#[derive(Clone, Copy, Debug, PartialEq, Eq, Structural, PartialOrd, Ord)]
pub struct ManaValue(pub usize);

/// Why a mana-cost text failed to parse.
#[derive(Clone, Copy, Debug, PartialEq, Eq, Structural)]
pub enum ParseError {
    /// The input held no symbols at all.
    Empty,
    /// No symbol of the grammar starts at character index `at`.
    BadSymbol { at: usize },
}

/// The letter a color is written as.
pub open spec fn color_char(c: Color) -> char {
    match c {
        Color::White => 'W',
        Color::Blue => 'U',
        Color::Black => 'B',
        Color::Red => 'R',
        Color::Green => 'G',
    }
}

/// Whether `c` is one of the five color letters.
pub open spec fn is_color_char(c: char) -> bool {
    c == 'W' || c == 'U' || c == 'B' || c == 'R' || c == 'G'
}

/// The body of a symbol's canonical text, without the surrounding braces.
pub open spec fn symbol_body(m: ManaSymbol) -> Seq<char> {
    match m {
        ManaSymbol::Placeholder(ch) => seq![ch],
        ManaSymbol::Generic(n) => dec_digits(n as nat),
        ManaSymbol::Colored(c) => seq![color_char(c)],
        ManaSymbol::Colorless => seq!['C'],
        ManaSymbol::Hybrid(a, b) => seq![color_char(a), '/', color_char(b)],
        ManaSymbol::HybridColorless(c) => seq![color_char(c), '/', 'C'],
        ManaSymbol::HybridGeneric(c, n) => seq![color_char(c), '/'] + dec_digits(n as nat),
        ManaSymbol::Phyrexian(c) => seq![color_char(c), '/', 'P'],
        ManaSymbol::PhyrexianHybrid(a, b) => seq![
            color_char(a),
            '/',
            color_char(b),
            '/',
            'P',
        ],
        ManaSymbol::Snow => seq!['S'],
    }
}

/// The canonical text of one symbol: its body between braces.
pub open spec fn symbol_chars(m: ManaSymbol) -> Seq<char> {
    seq!['{'] + symbol_body(m) + seq!['}']
}

/// The canonical text of a whole cost: its symbols' texts concatenated.
pub open spec fn cost_chars(s: Seq<ManaSymbol>) -> Seq<char>
    decreases s.len(),
{
    if s.len() == 0 {
        Seq::empty()
    } else {
        symbol_chars(s[0]) + cost_chars(s.drop_first())
    }
}

/// A symbol the parser can produce: a placeholder letter never collides
/// with a digit, a color letter, `C` or `S`, since text such as `{W}` reads
/// back as the colored symbol, not as a placeholder.
pub open spec fn wf_symbol(m: ManaSymbol) -> bool {
    match m {
        ManaSymbol::Placeholder(ch) => !is_dec_digit(ch) && !is_color_char(ch) && ch != 'C'
            && ch != 'S',
        _ => true,
    }
}

/// A cost the parser can produce: non-empty, all symbols well formed.
pub open spec fn wf_cost(s: Seq<ManaSymbol>) -> bool {
    s.len() >= 1 && forall|i: int| 0 <= i < s.len() ==> wf_symbol(#[trigger] s[i])
}

/// The mana value one symbol contributes: a generic symbol its amount, a
/// placeholder nothing, a hybrid-generic symbol at least one, and every
/// other symbol exactly one.
pub open spec fn symbol_value(m: ManaSymbol) -> nat {
    match m {
        ManaSymbol::Generic(n) => n as nat,
        ManaSymbol::Placeholder(_) => 0,
        ManaSymbol::HybridGeneric(_, n) => if n >= 1 {
            n as nat
        } else {
            1
        },
        _ => 1,
    }
}

/// The mana value of a cost: the sum of its symbols' values.
pub open spec fn cost_value(s: Seq<ManaSymbol>) -> nat
    decreases s.len(),
{
    if s.len() == 0 {
        0
    } else {
        symbol_value(s[0]) + cost_value(s.drop_first())
    }
}

/// The colors one symbol mentions, in writing order; generic, placeholder,
/// colorless and snow symbols mention none.
pub open spec fn symbol_colors(m: ManaSymbol) -> Seq<Color> {
    match m {
        ManaSymbol::Colored(c) => seq![c],
        ManaSymbol::Hybrid(a, b) => seq![a, b],
        ManaSymbol::HybridColorless(c) => seq![c],
        ManaSymbol::HybridGeneric(c, _) => seq![c],
        ManaSymbol::Phyrexian(c) => seq![c],
        ManaSymbol::PhyrexianHybrid(a, b) => seq![a, b],
        _ => Seq::empty(),
    }
}

/// Every color mentioned by any symbol of the cost, duplicates kept.
pub open spec fn cost_colors(s: Seq<ManaSymbol>) -> Seq<Color>
    decreases s.len(),
{
    if s.len() == 0 {
        Seq::empty()
    } else {
        symbol_colors(s[0]) + cost_colors(s.drop_first())
    }
}

/// Rendering, value and colors of a one-symbol sequence.
pub proof fn lemma_singleton_cost(m: ManaSymbol)
    ensures
        cost_chars(seq![m]) == symbol_chars(m),
        cost_value(seq![m]) == symbol_value(m),
        cost_colors(seq![m]) == symbol_colors(m),
{
    let s = seq![m];
    assert(s.len() == 1);
    assert(s[0] == m);
    assert(s.drop_first() =~= Seq::<ManaSymbol>::empty());
    assert(cost_chars(s.drop_first()) =~= Seq::<char>::empty());
    assert(cost_chars(s) =~= symbol_chars(m));
    assert(cost_value(s.drop_first()) == 0);
    assert(cost_colors(s.drop_first()) =~= Seq::<Color>::empty());
    assert(cost_colors(s) =~= symbol_colors(m));
}

/// Rendering distributes over concatenation of symbol sequences.
pub proof fn lemma_cost_chars_add(a: Seq<ManaSymbol>, b: Seq<ManaSymbol>)
    ensures
        cost_chars(a + b) == cost_chars(a) + cost_chars(b),
    decreases a.len(),
{
    if a.len() == 0 {
        assert(a + b =~= b);
        assert(cost_chars(a) + cost_chars(b) =~= cost_chars(b));
    } else {
        assert((a + b).drop_first() =~= a.drop_first() + b);
        lemma_cost_chars_add(a.drop_first(), b);
        assert((a + b)[0] == a[0]);
        assert(symbol_chars(a[0]) + (cost_chars(a.drop_first()) + cost_chars(b)) =~= (symbol_chars(
            a[0],
        ) + cost_chars(a.drop_first())) + cost_chars(b));
    }
}

/// Value distributes over concatenation of symbol sequences.
pub proof fn lemma_cost_value_add(a: Seq<ManaSymbol>, b: Seq<ManaSymbol>)
    ensures
        cost_value(a + b) == cost_value(a) + cost_value(b),
    decreases a.len(),
{
    if a.len() == 0 {
        assert(a + b =~= b);
    } else {
        assert((a + b).drop_first() =~= a.drop_first() + b);
        lemma_cost_value_add(a.drop_first(), b);
        assert((a + b)[0] == a[0]);
    }
}

/// Colors distribute over concatenation of symbol sequences.
pub proof fn lemma_cost_colors_add(a: Seq<ManaSymbol>, b: Seq<ManaSymbol>)
    ensures
        cost_colors(a + b) == cost_colors(a) + cost_colors(b),
    decreases a.len(),
{
    if a.len() == 0 {
        assert(a + b =~= b);
        assert(cost_colors(a) + cost_colors(b) =~= cost_colors(b));
    } else {
        assert((a + b).drop_first() =~= a.drop_first() + b);
        lemma_cost_colors_add(a.drop_first(), b);
        assert((a + b)[0] == a[0]);
        assert(symbol_colors(a[0]) + (cost_colors(a.drop_first()) + cost_colors(b)) =~= (
        symbol_colors(a[0]) + cost_colors(a.drop_first())) + cost_colors(b));
    }
}

/// The letter a color is written as, executable form.
pub fn color_char_exec(c: Color) -> (r: char)
    ensures
        r == color_char(c),
{
    match c {
        Color::White => 'W',
        Color::Blue => 'U',
        Color::Black => 'B',
        Color::Red => 'R',
        Color::Green => 'G',
    }
}

/// Appends the canonical text of one symbol to `out`.
fn push_symbol(out: &mut String, m: &ManaSymbol)
    ensures
        final(out)@ == old(out)@ + symbol_chars(*m),
{
    push_char(out, '{');
    match m {
        ManaSymbol::Placeholder(ch) => push_char(out, *ch),
        ManaSymbol::Generic(n) => push_decimal(out, *n),
        ManaSymbol::Colored(c) => push_char(out, color_char_exec(*c)),
        ManaSymbol::Colorless => push_char(out, 'C'),
        ManaSymbol::Hybrid(a, b) => {
            push_char(out, color_char_exec(*a));
            push_char(out, '/');
            push_char(out, color_char_exec(*b));
        },
        ManaSymbol::HybridColorless(c) => {
            push_char(out, color_char_exec(*c));
            push_char(out, '/');
            push_char(out, 'C');
        },
        ManaSymbol::HybridGeneric(c, n) => {
            push_char(out, color_char_exec(*c));
            push_char(out, '/');
            push_decimal(out, *n);
        },
        ManaSymbol::Phyrexian(c) => {
            push_char(out, color_char_exec(*c));
            push_char(out, '/');
            push_char(out, 'P');
        },
        ManaSymbol::PhyrexianHybrid(a, b) => {
            push_char(out, color_char_exec(*a));
            push_char(out, '/');
            push_char(out, color_char_exec(*b));
            push_char(out, '/');
            push_char(out, 'P');
        },
        ManaSymbol::Snow => push_char(out, 'S'),
    }
    push_char(out, '}');
    proof {
        assert(final(out)@ =~= old(out)@ + symbol_chars(*m));
    }
}

impl ManaCost {
    /// Builds a cost from a symbol list; an empty list is rejected.
    pub fn try_from_symbols(symbols: Vec<ManaSymbol>) -> (r: Result<ManaCost, ParseError>)
        ensures
            match r {
                Ok(c) => c@ == symbols@ && symbols@.len() >= 1,
                Err(e) => e == ParseError::Empty && symbols@.len() == 0,
            },
    {
        if symbols.len() == 0 {
            Err(ParseError::Empty)
        } else {
            Ok(ManaCost(symbols))
        }
    }

    /// The number of symbols in the cost.
    pub fn len(&self) -> (r: usize)
        ensures
            r == self@.len(),
    {
        self.0.len()
    }

    /// Renders the cost to its canonical bracketed text.
    pub fn to_text(&self) -> (r: String)
        ensures
            r@ == cost_chars(self@),
    {
        let mut out = String::new();
        let n = self.0.len();
        let mut i: usize = 0;
        while i < n
            invariant
                i <= n,
                n == self@.len(),
                out@ == cost_chars(self@.take(i as int)),
            decreases n - i,
        {
            proof {
                assert(self@.take(i as int + 1) =~= self@.take(i as int) + seq![self@[i as int]]);
                lemma_cost_chars_add(self@.take(i as int), seq![self@[i as int]]);
                lemma_singleton_cost(self@[i as int]);
            }
            push_symbol(&mut out, &self.0[i]);
            i += 1;
        }
        proof {
            assert(self@.take(n as int) =~= self@);
        }
        out
    }

    /// Every color mentioned by any symbol, in writing order, duplicates kept.
    pub fn get_colors(&self) -> (r: Vec<Color>)
        ensures
            r@ == cost_colors(self@),
    {
        let mut out: Vec<Color> = Vec::new();
        let n = self.0.len();
        let mut i: usize = 0;
        while i < n
            invariant
                i <= n,
                n == self@.len(),
                out@ == cost_colors(self@.take(i as int)),
            decreases n - i,
        {
            proof {
                assert(self@.take(i as int + 1) =~= self@.take(i as int) + seq![self@[i as int]]);
                lemma_cost_colors_add(self@.take(i as int), seq![self@[i as int]]);
                lemma_singleton_cost(self@[i as int]);
            }
            let ghost pre = out@;
            match &self.0[i] {
                ManaSymbol::Colored(c) => out.push(*c),
                ManaSymbol::Hybrid(a, b) => {
                    out.push(*a);
                    out.push(*b);
                },
                ManaSymbol::HybridColorless(c) => out.push(*c),
                ManaSymbol::HybridGeneric(c, _) => out.push(*c),
                ManaSymbol::Phyrexian(c) => out.push(*c),
                ManaSymbol::PhyrexianHybrid(a, b) => {
                    out.push(*a);
                    out.push(*b);
                },
                _ => {},
            }
            proof {
                assert(out@ =~= pre + symbol_colors(self@[i as int]));
            }
            i += 1;
        }
        proof {
            assert(self@.take(n as int) =~= self@);
        }
        out
    }
}

/// The value one symbol contributes, executable form.
fn symbol_value_exec(m: &ManaSymbol) -> (r: usize)
    requires
        symbol_value(*m) <= usize::MAX,
    ensures
        r == symbol_value(*m),
{
    match m {
        ManaSymbol::Generic(n) => *n,
        ManaSymbol::Placeholder(_) => 0,
        ManaSymbol::HybridGeneric(_, n) => if *n >= 1 {
            *n
        } else {
            1
        },
        _ => 1,
    }
}

impl ManaValue {
    /// The mana value of a cost: the sum of its symbols' contributions.
    /// The sum must fit in a machine word.
    pub fn from_cost(cost: &ManaCost) -> (r: ManaValue)
        requires
            cost_value(cost@) <= usize::MAX,
        ensures
            r.0 == cost_value(cost@),
    {
        let mut total: usize = 0;
        let n = cost.0.len();
        let mut i: usize = 0;
        while i < n
            invariant
                i <= n,
                n == cost@.len(),
                total == cost_value(cost@.take(i as int)),
                cost_value(cost@) <= usize::MAX,
            decreases n - i,
        {
            proof {
                assert(cost@.take(i as int + 1) =~= cost@.take(i as int) + seq![cost@[i as int]]);
                lemma_cost_value_add(cost@.take(i as int), seq![cost@[i as int]]);
                lemma_singleton_cost(cost@[i as int]);
                assert(cost@ =~= cost@.take(i as int + 1) + cost@.skip(i as int + 1));
                lemma_cost_value_add(cost@.take(i as int + 1), cost@.skip(i as int + 1));
            }
            total = total + symbol_value_exec(&cost.0[i]);
            i += 1;
        }
        proof {
            assert(cost@.take(n as int) =~= cost@);
        }
        ManaValue(total)
    }
}

} // verus!
