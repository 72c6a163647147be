//! The mana-cost round-trip law: parsing the canonical text of any
//! well-formed cost yields that cost back.

use vstd::prelude::*;

use crate::digits::{is_dec_digit, digits_val, lemma_dec_digits};
use crate::mana::{
    color_char, cost_chars, is_color_char, symbol_body, symbol_chars, wf_cost, wf_symbol,
    ManaSymbol,
};
use crate::mana_parse::{
    color_of_char, lemma_digit_run_end_is, parse_symbol_at, parse_symbols_from, spec_parse_cost,
};

verus! {

/// Each symbol's text is the body between two braces, at least three
/// characters in all.
proof fn lemma_symbol_chars_len(m: ManaSymbol)
    ensures
        symbol_chars(m).len() == symbol_body(m).len() + 2,
        symbol_body(m).len() >= 1,
{
    match m {
        ManaSymbol::Generic(n) => lemma_dec_digits(n as nat),
        ManaSymbol::HybridGeneric(_, n) => lemma_dec_digits(n as nat),
        _ => {},
    }
}

/// A color letter turned into a color and back is the same letter, and a
/// color's letter is never mistaken for a digit or another marker.
proof fn lemma_color_char_facts(c: crate::mana::Color)
    ensures
        color_of_char(color_char(c)) == c,
        is_color_char(color_char(c)),
        !is_dec_digit(color_char(c)),
        color_char(c) != 'C' && color_char(c) != 'S' && color_char(c) != '/' && color_char(c)
            != '}' && color_char(c) != '{' && color_char(c) != 'P',
{
}

/// One character of a window of `s` known by its subrange.
proof fn lemma_window_index(s: Seq<char>, i: int, w: Seq<char>, k: int)
    requires
        0 <= i,
        0 <= k < w.len(),
        i + w.len() <= s.len(),
        s.subrange(i, i + w.len() as int) == w,
    ensures
        s[i + k] == w[k],
{
    assert(s.subrange(i, i + w.len() as int)[k] == s[i + k]);
}

/// If the characters of `s` from `i` on spell the canonical text of a
/// well-formed symbol, the parser reads exactly that symbol there.
proof fn lemma_parse_symbol_of_chars(s: Seq<char>, i: int, sym: ManaSymbol)
    requires
        wf_symbol(sym),
        0 <= i,
        i + symbol_chars(sym).len() <= s.len(),
        s.subrange(i, i + symbol_chars(sym).len() as int) == symbol_chars(sym),
    ensures
        parse_symbol_at(s, i) == Some((sym, i + symbol_chars(sym).len() as int)),
{
    lemma_symbol_chars_len(sym);
    let body = symbol_body(sym);
    let bl = body.len() as int;
    let total = symbol_chars(sym);
    let tl = bl + 2;
    assert(total.len() == tl);
    assert forall|k: int| 0 <= k < tl implies s[i + k] == total[k] by {
        lemma_window_index(s, i, total, k);
    }
    assert(total[0] == '{');
    assert(total[tl - 1] == '}');
    assert forall|k: int| 0 <= k < bl implies total[1 + k] == body[k] by {}
    lemma_window_index(s, i, total, 0);
    assert(s[i] == '{');
    lemma_window_index(s, i, total, tl - 1);
    assert(s[i + tl - 1] == '}');
    lemma_window_index(s, i, total, 1);
    assert(s[i + 1] == body[0]);
    match sym {
        ManaSymbol::Generic(n) => {
            lemma_dec_digits(n as nat);
            assert(is_dec_digit(body[0]));
            assert forall|k: int| i + 1 <= k < i + 1 + bl implies is_dec_digit(#[trigger] s[k]) by {
                lemma_window_index(s, i, total, k - i);
                assert(s[k] == body[k - i - 1]);
            }
            lemma_window_index(s, i, total, 1 + bl);
            assert(s[i + 1 + bl] == '}');
            assert(!is_dec_digit('}'));
            lemma_digit_run_end_is(s, i + 1, i + 1 + bl);
            assert(s.subrange(i + 1, i + 1 + bl) =~= body);
            if body[0] == '0' {
                assert(n < 10 ==> body == seq![crate::digits::digit_char(n as nat)]);
                assert(n == 0);
                assert(bl == 1);
                lemma_window_index(s, i, total, 2);
                assert(s[i + 2] == '}');
                assert(digits_val(body) == n);
            } else {
                assert(digits_val(body) == n);
            }
        },
        ManaSymbol::Colored(c) => {
            lemma_color_char_facts(c);
            lemma_window_index(s, i, total, 2);
            assert(s[i + 2] == '}');
        },
        ManaSymbol::Colorless => {
            lemma_window_index(s, i, total, 2);
            assert(s[i + 2] == '}');
        },
        ManaSymbol::Snow => {
            lemma_window_index(s, i, total, 2);
            assert(s[i + 2] == '}');
        },
        ManaSymbol::Hybrid(a, b) => {
            lemma_color_char_facts(a);
            lemma_color_char_facts(b);
            lemma_window_index(s, i, total, 2);
            lemma_window_index(s, i, total, 3);
            lemma_window_index(s, i, total, 4);
            assert(s[i + 2] == '/');
            assert(s[i + 3] == color_char(b));
            assert(s[i + 4] == '}');
        },
        ManaSymbol::HybridColorless(c) => {
            lemma_color_char_facts(c);
            lemma_window_index(s, i, total, 2);
            lemma_window_index(s, i, total, 3);
            lemma_window_index(s, i, total, 4);
            assert(s[i + 2] == '/');
            assert(s[i + 3] == 'C');
            assert(s[i + 4] == '}');
        },
        ManaSymbol::HybridGeneric(c, n) => {
            lemma_color_char_facts(c);
            lemma_dec_digits(n as nat);
            lemma_window_index(s, i, total, 2);
            let digits = crate::digits::dec_digits(n as nat);
            let dl = digits.len() as int;
            assert(bl == dl + 2);
            assert(s[i + 2] == '/');
            assert forall|k: int| 0 <= k < dl implies s[i + 3 + k] == digits[k] by {
                lemma_window_index(s, i, total, 3 + k);
                assert(body[2 + k] == digits[k]);
            }
            lemma_window_index(s, i, total, 3);
            assert(s[i + 3] == digits[0]);
            assert(is_dec_digit(digits[0]));
            assert forall|k: int| i + 3 <= k < i + 3 + dl implies is_dec_digit(
                #[trigger] s[k],
            ) by {
                lemma_window_index(s, i, total, k - i);
                assert(s[k] == digits[k - i - 3]);
            }
            lemma_window_index(s, i, total, 3 + dl);
            assert(s[i + 3 + dl] == '}');
            assert(!is_dec_digit('}'));
            lemma_digit_run_end_is(s, i + 3, i + 3 + dl);
            assert(s.subrange(i + 3, i + 3 + dl) =~= digits);
            if digits[0] == '0' {
                assert(n < 10 ==> digits == seq![crate::digits::digit_char(n as nat)]);
                assert(n == 0);
                assert(dl == 1);
                lemma_window_index(s, i, total, 4);
                assert(s[i + 4] == '}');
                assert(digits_val(digits) == n);
            } else {
                assert(digits_val(digits) == n);
            }
        },
        ManaSymbol::Phyrexian(c) => {
            lemma_color_char_facts(c);
            lemma_window_index(s, i, total, 2);
            lemma_window_index(s, i, total, 3);
            lemma_window_index(s, i, total, 4);
            assert(s[i + 2] == '/');
            assert(s[i + 3] == 'P');
            assert(s[i + 4] == '}');
        },
        ManaSymbol::PhyrexianHybrid(a, b) => {
            lemma_color_char_facts(a);
            lemma_color_char_facts(b);
            lemma_window_index(s, i, total, 2);
            lemma_window_index(s, i, total, 3);
            lemma_window_index(s, i, total, 4);
            lemma_window_index(s, i, total, 5);
            lemma_window_index(s, i, total, 6);
            assert(s[i + 2] == '/');
            assert(s[i + 3] == color_char(b));
            assert(s[i + 4] == '/');
            assert(s[i + 5] == 'P');
            assert(s[i + 6] == '}');
        },
        ManaSymbol::Placeholder(_) => {
            lemma_window_index(s, i, total, 2);
            assert(s[i + 2] == '}');
        },
    }
}

/// If the characters of `s` from `i` to the end spell the canonical text
/// of a sequence of well-formed symbols, parsing from `i` yields exactly
/// that sequence.
proof fn lemma_parse_chars_from(s: Seq<char>, i: int, ms: Seq<ManaSymbol>)
    requires
        0 <= i <= s.len(),
        s.subrange(i, s.len() as int) == cost_chars(ms),
        forall|k: int| 0 <= k < ms.len() ==> wf_symbol(#[trigger] ms[k]),
    ensures
        parse_symbols_from(s, i) == Some(ms),
    decreases ms.len(),
{
    if ms.len() == 0 {
        assert(cost_chars(ms).len() == 0);
        assert(s.subrange(i, s.len() as int).len() == s.len() - i);
        assert(i == s.len());
        assert(ms =~= Seq::<ManaSymbol>::empty());
    } else {
        let head = ms[0];
        let tail = ms.drop_first();
        assert(cost_chars(ms) == symbol_chars(head) + cost_chars(tail));
        lemma_symbol_chars_len(head);
        let hl = symbol_chars(head).len() as int;
        assert(s.len() - i == hl + cost_chars(tail).len());
        assert(s.subrange(i, i + hl) =~= symbol_chars(head)) by {
            assert forall|k: int| 0 <= k < hl implies s.subrange(i, i + hl)[k] == symbol_chars(
                head,
            )[k] by {
                assert(s.subrange(i, s.len() as int)[k] == s[i + k]);
                assert(cost_chars(ms)[k] == symbol_chars(head)[k]);
            }
        }
        lemma_parse_symbol_of_chars(s, i, head);
        assert(s.subrange(i + hl, s.len() as int) =~= cost_chars(tail)) by {
            assert forall|k: int| 0 <= k < s.len() - i - hl implies s.subrange(
                i + hl,
                s.len() as int,
            )[k] == cost_chars(tail)[k] by {
                assert(s.subrange(i, s.len() as int)[hl + k] == s[i + hl + k]);
                assert(cost_chars(ms)[hl + k] == cost_chars(tail)[k]);
            }
        }
        assert forall|k: int| 0 <= k < tail.len() implies wf_symbol(#[trigger] tail[k]) by {
            assert(tail[k] == ms[k + 1]);
        }
        lemma_parse_chars_from(s, i + hl, tail);
        assert(seq![head] + tail =~= ms);
    }
}

/// Round trip: for every well-formed mana cost, parsing its canonical text
/// yields exactly that cost. A cost outside the well-formed set can break
/// this: a placeholder written with a reserved letter, such as a
/// placeholder `W`, renders as `{W}`, which reads back as white mana.
pub proof fn lemma_mana_cost_round_trip(ms: Seq<ManaSymbol>)
    requires
        wf_cost(ms),
    ensures
        spec_parse_cost(cost_chars(ms)) == Some(ms),
{
    let s = cost_chars(ms);
    assert(s == symbol_chars(ms[0]) + cost_chars(ms.drop_first()));
    lemma_symbol_chars_len(ms[0]);
    assert(s.len() >= 3);
    assert(s.subrange(0, s.len() as int) =~= s);
    lemma_parse_chars_from(s, 0, ms);
}

} // verus!
