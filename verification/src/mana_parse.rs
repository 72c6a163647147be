//! The mana-cost grammar: a cost is one or more `{SYMBOL}` groups. The
//! specification-level parser fixes the meaning of every input; the
//! executable parser is proved to agree with it exactly.
//!
//! Inside the braces the alternatives are tried in priority order: decimal
//! digits, `C`, `S`, color/color/P, color/P, color/digits, color/C,
//! color/color, a single color letter, then any single character as a
//! placeholder. A chosen alternative is committed to: if the closing brace
//! does not follow, the symbol fails rather than a later alternative being
//! tried. Digits follow the usual integer shape: no leading zero unless the
//! number is the single digit zero.

use vstd::prelude::*;

use crate::digits::{digit_val_exec, digits_val, is_dec_digit, is_dec_digit_exec};
use crate::digits::{lemma_digits_val_monotone, lemma_digits_val_push};
use crate::mana::{is_color_char, color_char, Color, ManaCost, ManaSymbol, ParseError};

verus! {

/// The color a color letter denotes (meaningful only for color letters).
pub open spec fn color_of_char(c: char) -> Color {
    if c == 'W' {
        Color::White
    } else if c == 'U' {
        Color::Blue
    } else if c == 'B' {
        Color::Black
    } else if c == 'R' {
        Color::Red
    } else {
        Color::Green
    }
}

/// The first position at or after `i` that is not a decimal digit.
pub open spec fn digit_run_end(s: Seq<char>, i: int) -> int
    decreases s.len() - i,
{
    if i < 0 || i >= s.len() || !is_dec_digit(s[i]) {
        i
    } else {
        digit_run_end(s, i + 1)
    }
}

/// Everything before the run's end is a digit, and the run ends at the
/// string's end or at a non-digit.
pub proof fn lemma_digit_run_end(s: Seq<char>, i: int)
    requires
        0 <= i <= s.len(),
    ensures
        i <= digit_run_end(s, i) <= s.len(),
        forall|k: int| i <= k < digit_run_end(s, i) ==> is_dec_digit(#[trigger] s[k]),
        digit_run_end(s, i) < s.len() ==> !is_dec_digit(s[digit_run_end(s, i)]),
    decreases s.len() - i,
{
    if i < s.len() && is_dec_digit(s[i]) {
        lemma_digit_run_end(s, i + 1);
    }
}

/// A position that closes a digit run is the run's end.
pub proof fn lemma_digit_run_end_is(s: Seq<char>, i: int, j: int)
    requires
        0 <= i <= j <= s.len(),
        forall|k: int| i <= k < j ==> is_dec_digit(#[trigger] s[k]),
        j < s.len() ==> !is_dec_digit(s[j]),
    ensures
        digit_run_end(s, i) == j,
    decreases j - i,
{
    if i < j {
        assert(is_dec_digit(s[i]));
        lemma_digit_run_end_is(s, i + 1, j);
    }
}

/// The symbol that starts at position `i` of `s`, with the position just
/// after it, or nothing if no symbol of the grammar starts there.
pub open spec fn parse_symbol_at(s: Seq<char>, i: int) -> Option<(ManaSymbol, int)> {
    if i < 0 || s.len() < i + 3 {
        None
    } else if s[i] != '{' {
        None
    } else {
        let c0 = s[i + 1];
        if is_dec_digit(c0) {
            let j = digit_run_end(s, i + 1);
            let e = if c0 == '0' {
                i + 2
            } else {
                j
            };
            if e < s.len() && s[e] == '}' && digits_val(s.subrange(i + 1, e)) <= usize::MAX {
                Some((ManaSymbol::Generic(digits_val(s.subrange(i + 1, e)) as usize), e + 1))
            } else {
                None
            }
        } else if c0 == 'C' {
            if s[i + 2] == '}' {
                Some((ManaSymbol::Colorless, i + 3))
            } else {
                None
            }
        } else if c0 == 'S' {
            if s[i + 2] == '}' {
                Some((ManaSymbol::Snow, i + 3))
            } else {
                None
            }
        } else if is_color_char(c0) {
            let ca = color_of_char(c0);
            if s[i + 2] == '/' {
                if s.len() < i + 5 {
                    None
                } else {
                    let c3 = s[i + 3];
                    if is_color_char(c3) {
                        let cb = color_of_char(c3);
                        if i + 7 <= s.len() && s[i + 4] == '/' && s[i + 5] == 'P' && s[i + 6]
                            == '}' {
                            Some((ManaSymbol::PhyrexianHybrid(ca, cb), i + 7))
                        } else if s[i + 4] == '}' {
                            Some((ManaSymbol::Hybrid(ca, cb), i + 5))
                        } else {
                            None
                        }
                    } else if c3 == 'P' {
                        if s[i + 4] == '}' {
                            Some((ManaSymbol::Phyrexian(ca), i + 5))
                        } else {
                            None
                        }
                    } else if c3 == 'C' {
                        if s[i + 4] == '}' {
                            Some((ManaSymbol::HybridColorless(ca), i + 5))
                        } else {
                            None
                        }
                    } else if is_dec_digit(c3) {
                        let j = digit_run_end(s, i + 3);
                        let e = if c3 == '0' {
                            i + 4
                        } else {
                            j
                        };
                        if e < s.len() && s[e] == '}' && digits_val(s.subrange(i + 3, e))
                            <= usize::MAX {
                            Some(
                                (
                                    ManaSymbol::HybridGeneric(
                                        ca,
                                        digits_val(s.subrange(i + 3, e)) as usize,
                                    ),
                                    e + 1,
                                ),
                            )
                        } else {
                            None
                        }
                    } else {
                        None
                    }
                }
            } else if s[i + 2] == '}' {
                Some((ManaSymbol::Colored(ca), i + 3))
            } else {
                None
            }
        } else {
            if s[i + 2] == '}' {
                Some((ManaSymbol::Placeholder(c0), i + 3))
            } else {
                None
            }
        }
    }
}

/// A successful symbol parse always advances, and never past the end.
pub proof fn lemma_parse_symbol_at_advances(s: Seq<char>, i: int)
    requires
        parse_symbol_at(s, i) is Some,
    ensures
        i < parse_symbol_at(s, i)->Some_0.1 <= s.len(),
{
    if 0 <= i && i + 3 <= s.len() && s[i] == '{' {
        let c0 = s[i + 1];
        if is_dec_digit(c0) {
            lemma_digit_run_end(s, i + 1);
        } else if is_color_char(c0) && s[i + 2] == '/' && i + 5 <= s.len() && is_dec_digit(
            s[i + 3],
        ) {
            lemma_digit_run_end(s, i + 3);
        }
    }
}

/// The symbols from position `i` to the end of `s`, or nothing if the rest
/// of the string is not a sequence of symbols.
pub open spec fn parse_symbols_from(s: Seq<char>, i: int) -> Option<Seq<ManaSymbol>>
    decreases s.len() - i,
{
    if i < 0 || i > s.len() {
        None
    } else if i == s.len() {
        Some(Seq::empty())
    } else {
        match parse_symbol_at(s, i) {
            Some((sym, j)) => if i < j <= s.len() {
                match parse_symbols_from(s, j) {
                    Some(rest) => Some(seq![sym] + rest),
                    None => None,
                }
            } else {
                None
            },
            None => None,
        }
    }
}

/// The meaning of a whole mana-cost text: its symbol sequence, or nothing
/// if the text is empty or not a sequence of symbols.
pub open spec fn spec_parse_cost(s: Seq<char>) -> Option<Seq<ManaSymbol>> {
    if s.len() == 0 {
        None
    } else {
        parse_symbols_from(s, 0)
    }
}

/// Scans the digit run starting at `start`; returns the run's end and the
/// run's value, or `None` for the value when it exceeds a machine word.
fn scan_digits(s: &str, start: usize, len: usize) -> (r: (usize, Option<usize>))
    requires
        len == s@.len(),
        start <= len,
    ensures
        r.0 == digit_run_end(s@, start as int),
        start <= r.0 <= len,
        match r.1 {
            Some(v) => v == digits_val(s@.subrange(start as int, r.0 as int)),
            None => digits_val(s@.subrange(start as int, r.0 as int)) > usize::MAX,
        },
{
    let mut j = start;
    let mut val: Option<usize> = Some(0);
    proof {
        assert(s@.subrange(start as int, start as int) =~= Seq::<char>::empty());
    }
    while j < len && is_dec_digit_exec(s.get_char(j))
        invariant
            len == s@.len(),
            start <= j <= len,
            forall|k: int| start <= k < j ==> is_dec_digit(#[trigger] s@[k]),
            match val {
                Some(v) => v == digits_val(s@.subrange(start as int, j as int)),
                None => digits_val(s@.subrange(start as int, j as int)) > usize::MAX,
            },
        decreases len - j,
    {
        let c = s.get_char(j);
        let d = digit_val_exec(c);
        proof {
            assert(s@.subrange(start as int, j as int + 1) =~= s@.subrange(
                start as int,
                j as int,
            ).push(s@[j as int]));
            lemma_digits_val_push(s@.subrange(start as int, j as int), s@[j as int]);
        }
        val = match val {
            Some(v) => {
                if v <= (usize::MAX - d) / 10 {
                    proof {
                        assert(v * 10 <= ((usize::MAX - d) / 10) * 10) by (nonlinear_arith)
                            requires
                                v <= (usize::MAX - d) / 10,
                        ;
                        assert(((usize::MAX - d) / 10) * 10 <= usize::MAX - d) by (nonlinear_arith);
                    }
                    Some(v * 10 + d)
                } else {
                    proof {
                        assert(v >= (usize::MAX - d) / 10 + 1);
                        assert(((usize::MAX - d) / 10 + 1) * 10 == ((usize::MAX - d) / 10) * 10
                            + 10) by (nonlinear_arith);
                        assert(((usize::MAX - d) / 10) * 10 + 10 > usize::MAX - d) by (nonlinear_arith);
                        assert(v * 10 >= ((usize::MAX - d) / 10 + 1) * 10) by (nonlinear_arith)
                            requires
                                v >= (usize::MAX - d) / 10 + 1,
                        ;
                    }
                    None
                }
            },
            None => {
                proof {
                    let pre = digits_val(s@.subrange(start as int, j as int));
                    assert(pre * 10 >= pre) by (nonlinear_arith);
                }
                None
            },
        };
        j += 1;
    }
    proof {
        lemma_digit_run_end_is(s@, start as int, j as int);
    }
    (j, val)
}

/// Whether `c` is a color letter, executable form.
fn is_color_char_exec(c: char) -> (r: bool)
    ensures
        r == is_color_char(c),
{
    c == 'W' || c == 'U' || c == 'B' || c == 'R' || c == 'G'
}

/// The color a color letter denotes, executable form.
fn color_of_char_exec(c: char) -> (r: Color)
    ensures
        r == color_of_char(c),
{
    if c == 'W' {
        Color::White
    } else if c == 'U' {
        Color::Blue
    } else if c == 'B' {
        Color::Black
    } else if c == 'R' {
        Color::Red
    } else {
        Color::Green
    }
}

/// The value of a one-digit string.
proof fn lemma_digits_val_single(s: Seq<char>, i: int)
    requires
        0 <= i < s.len(),
    ensures
        digits_val(s.subrange(i, i + 1)) == crate::digits::digit_val(s[i]),
{
    let sub = s.subrange(i, i + 1);
    assert(sub.len() == 1);
    assert(sub.last() == s[i]);
    assert(sub.drop_last() =~= Seq::<char>::empty());
    assert(digits_val(Seq::<char>::empty()) == 0);
    assert(digits_val(sub) == digits_val(sub.drop_last()) * 10 + crate::digits::digit_val(
        sub.last(),
    ));
}

/// Parses the symbol starting at position `i`, in exact agreement with
/// `parse_symbol_at`.
fn parse_symbol(s: &str, i: usize, len: usize) -> (r: Option<(ManaSymbol, usize)>)
    requires
        len == s@.len(),
        i <= len,
    ensures
        match r {
            Some((sym, j)) => parse_symbol_at(s@, i as int) == Some((sym, j as int)) && i < j
                <= len,
            None => parse_symbol_at(s@, i as int) is None,
        },
{
    if len - i < 3 {
        return None;
    }
    if s.get_char(i) != '{' {
        return None;
    }
    let c0 = s.get_char(i + 1);
    if is_dec_digit_exec(c0) {
        if c0 == '0' {
            if s.get_char(i + 2) == '}' {
                proof {
                    lemma_digits_val_single(s@, i as int + 1);
                }
                Some((ManaSymbol::Generic(0), i + 3))
            } else {
                None
            }
        } else {
            let (e, val) = scan_digits(s, i + 1, len);
            if e < len && s.get_char(e) == '}' {
                match val {
                    Some(v) => Some((ManaSymbol::Generic(v), e + 1)),
                    None => None,
                }
            } else {
                None
            }
        }
    } else if c0 == 'C' {
        if s.get_char(i + 2) == '}' {
            Some((ManaSymbol::Colorless, i + 3))
        } else {
            None
        }
    } else if c0 == 'S' {
        if s.get_char(i + 2) == '}' {
            Some((ManaSymbol::Snow, i + 3))
        } else {
            None
        }
    } else if is_color_char_exec(c0) {
        let ca = color_of_char_exec(c0);
        let c2 = s.get_char(i + 2);
        if c2 == '/' {
            if len - i < 5 {
                return None;
            }
            let c3 = s.get_char(i + 3);
            if is_color_char_exec(c3) {
                let cb = color_of_char_exec(c3);
                if len - i >= 7 && s.get_char(i + 4) == '/' && s.get_char(i + 5) == 'P'
                    && s.get_char(i + 6) == '}' {
                    Some((ManaSymbol::PhyrexianHybrid(ca, cb), i + 7))
                } else if s.get_char(i + 4) == '}' {
                    Some((ManaSymbol::Hybrid(ca, cb), i + 5))
                } else {
                    None
                }
            } else if c3 == 'P' {
                if s.get_char(i + 4) == '}' {
                    Some((ManaSymbol::Phyrexian(ca), i + 5))
                } else {
                    None
                }
            } else if c3 == 'C' {
                if s.get_char(i + 4) == '}' {
                    Some((ManaSymbol::HybridColorless(ca), i + 5))
                } else {
                    None
                }
            } else if is_dec_digit_exec(c3) {
                if c3 == '0' {
                    if s.get_char(i + 4) == '}' {
                        proof {
                            lemma_digits_val_single(s@, i as int + 3);
                        }
                        Some((ManaSymbol::HybridGeneric(ca, 0), i + 5))
                    } else {
                        None
                    }
                } else {
                    let (e, val) = scan_digits(s, i + 3, len);
                    if e < len && s.get_char(e) == '}' {
                        match val {
                            Some(v) => Some((ManaSymbol::HybridGeneric(ca, v), e + 1)),
                            None => None,
                        }
                    } else {
                        None
                    }
                }
            } else {
                None
            }
        } else if c2 == '}' {
            Some((ManaSymbol::Colored(ca), i + 3))
        } else {
            None
        }
    } else {
        if s.get_char(i + 2) == '}' {
            Some((ManaSymbol::Placeholder(c0), i + 3))
        } else {
            None
        }
    }
}

impl ManaCost {
    /// Parses a mana-cost text, in exact agreement with `spec_parse_cost`:
    /// the text must be a non-empty sequence of symbol groups.
    pub fn from_str(s: &str) -> (r: Result<ManaCost, ParseError>)
        ensures
            match r {
                Ok(c) => spec_parse_cost(s@) == Some(c@) && c@.len() >= 1,
                Err(e) => spec_parse_cost(s@) is None && match e {
                    ParseError::Empty => s@.len() == 0,
                    ParseError::BadSymbol { at } => s@.len() > 0 && at < s@.len()
                        && parse_symbol_at(s@, at as int) is None,
                },
            },
    {
        let len = s.unicode_len();
        if len == 0 {
            return Err(ParseError::Empty);
        }
        let mut symbols: Vec<ManaSymbol> = Vec::new();
        let mut i: usize = 0;
        while i < len
            invariant
                len == s@.len(),
                i <= len,
                i == 0 ==> symbols@.len() == 0,
                i > 0 ==> symbols@.len() >= 1,
                parse_symbols_from(s@, 0) == match parse_symbols_from(s@, i as int) {
                    Some(rest) => Some(symbols@ + rest),
                    None => None::<Seq<ManaSymbol>>,
                },
            decreases len - i,
        {
            match parse_symbol(s, i, len) {
                Some((sym, j)) => {
                    proof {
                        let rest_opt = parse_symbols_from(s@, j as int);
                        match rest_opt {
                            Some(rest) => {
                                assert(parse_symbols_from(s@, i as int) == Some(
                                    seq![sym] + rest,
                                ));
                                assert(symbols@ + (seq![sym] + rest) =~= (symbols@ + seq![sym])
                                    + rest);
                                assert((symbols@ + seq![sym]) =~= symbols@.push(sym));
                            },
                            None => {
                                assert(parse_symbols_from(s@, i as int) is None);
                            },
                        }
                    }
                    symbols.push(sym);
                    i = j;
                },
                None => {
                    proof {
                        assert(parse_symbols_from(s@, i as int) is None);
                    }
                    return Err(ParseError::BadSymbol { at: i });
                },
            }
        }
        proof {
            assert(parse_symbols_from(s@, len as int) == Some(Seq::<ManaSymbol>::empty()));
            assert(symbols@ + Seq::<ManaSymbol>::empty() =~= symbols@);
        }
        Ok(ManaCost(symbols))
    }
}

} // verus!
