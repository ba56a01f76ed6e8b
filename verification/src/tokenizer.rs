//! The lexer: whitespace-delimited, punctuation-aware tokenization.
//!
//! Recognized tokens are integer literals (optionally signed), keywords
//! and identifiers, and the symbols `+ - * < = | ( ) [] :: ->`. The
//! executable tokenizer returns exactly the tokens that [`tokenize_spec`]
//! describes.

use std::collections::VecDeque;

use vstd::prelude::*;

use crate::text::chars_to_string;
use crate::types::names_view;

verus! {

/// Whitespace between tokens.
pub open spec fn is_space(c: char) -> bool {
    c == ' ' || c == '\t' || c == '\n' || c == '\r'
}

/// A decimal digit.
pub open spec fn is_digit(c: char) -> bool {
    48 <= c as u32 <= 57
}

/// A lowercase letter, which may start an identifier.
pub open spec fn is_lower(c: char) -> bool {
    97 <= c as u32 <= 122
}

/// A character that may continue an identifier: a letter, a digit or an
/// underscore.
pub open spec fn is_ident_char(c: char) -> bool {
    is_lower(c) || is_digit(c) || (65 <= c as u32 <= 90) || c == '_'
}

/// A single-character operator.
pub open spec fn is_op_char(c: char) -> bool {
    c == '|' || c == '=' || c == '*' || c == '<'
}

/// The first position at or after `i` that does not hold a digit.
pub open spec fn digits_end(s: Seq<char>, i: nat) -> nat
    decreases s.len() - i when i <= s.len()
{
    if i >= s.len() || !is_digit(s[i as int]) {
        i
    } else {
        digits_end(s, i + 1)
    }
}

/// The first position at or after `i` that does not continue an
/// identifier.
pub open spec fn ident_end(s: Seq<char>, i: nat) -> nat
    decreases s.len() - i when i <= s.len()
{
    if i >= s.len() || !is_ident_char(s[i as int]) {
        i
    } else {
        ident_end(s, i + 1)
    }
}

/// A digit run neither moves backwards nor leaves the string.
pub proof fn lemma_digits_end_bounds(s: Seq<char>, i: nat)
    requires
        i <= s.len(),
    ensures
        i <= digits_end(s, i) <= s.len(),
    decreases s.len() - i,
{
    if i < s.len() && is_digit(s[i as int]) {
        lemma_digits_end_bounds(s, i + 1);
    }
}

/// An identifier run neither moves backwards nor leaves the string.
pub proof fn lemma_ident_end_bounds(s: Seq<char>, i: nat)
    requires
        i <= s.len(),
    ensures
        i <= ident_end(s, i) <= s.len(),
    decreases s.len() - i,
{
    if i < s.len() && is_ident_char(s[i as int]) {
        lemma_ident_end_bounds(s, i + 1);
    }
}

/// The tokens of `s` from position `i` on. Whitespace separates; `::`,
/// `[]` and `->` are two-character symbols; `-` and `+` absorb a following
/// digit run; an unrecognized character stands alone.
pub open spec fn tokenize_spec(s: Seq<char>, i: nat) -> Seq<Seq<char>>
    decreases s.len() - i when i <= s.len()
    via tokenize_spec_dec
{
    if i >= s.len() {
        Seq::empty()
    } else {
        let c = s[i as int];
        if is_space(c) {
            tokenize_spec(s, i + 1)
        } else if c == ':' && i + 1 < s.len() && s[i as int + 1] == ':' {
            seq![s.subrange(i as int, i as int + 2)] + tokenize_spec(s, i + 2)
        } else if c == '[' && i + 1 < s.len() && s[i as int + 1] == ']' {
            seq![s.subrange(i as int, i as int + 2)] + tokenize_spec(s, i + 2)
        } else if c == '(' || c == ')' {
            seq![s.subrange(i as int, i as int + 1)] + tokenize_spec(s, i + 1)
        } else if c == '-' && i + 1 < s.len() && s[i as int + 1] == '>' {
            seq![s.subrange(i as int, i as int + 2)] + tokenize_spec(s, i + 2)
        } else if c == '-' || c == '+' {
            seq![s.subrange(i as int, digits_end(s, i + 1) as int)] + tokenize_spec(
                s,
                digits_end(s, i + 1),
            )
        } else if is_op_char(c) {
            seq![s.subrange(i as int, i as int + 1)] + tokenize_spec(s, i + 1)
        } else if is_digit(c) {
            seq![s.subrange(i as int, digits_end(s, i) as int)] + tokenize_spec(s, digits_end(s, i))
        } else if is_lower(c) {
            seq![s.subrange(i as int, ident_end(s, i) as int)] + tokenize_spec(s, ident_end(s, i))
        } else {
            seq![s.subrange(i as int, i as int + 1)] + tokenize_spec(s, i + 1)
        }
    }
}

#[via_fn]
proof fn tokenize_spec_dec(s: Seq<char>, i: nat) {
    if i < s.len() {
        lemma_digits_end_bounds(s, i + 1);
        lemma_digits_end_bounds(s, i);
        lemma_ident_end_bounds(s, i + 1);
        lemma_ident_end_bounds(s, i);
    }
}

/// The characters of `v` from `start` to `end`, as an owned string.
fn substring(v: &Vec<char>, start: usize, end: usize) -> (r: String)
    requires
        start <= end <= v@.len(),
    ensures
        r@ == v@.subrange(start as int, end as int),
{
    let mut out: Vec<char> = Vec::new();
    let mut j = start;
    while j < end
        invariant
            start <= j <= end <= v@.len(),
            out@ == v@.subrange(start as int, j as int),
        decreases end - j,
    {
        out.push(v[j]);
        proof {
            assert(out@ =~= v@.subrange(start as int, j + 1));
        }
        j += 1;
    }
    chars_to_string(&out)
}

/// Whether `c` is a decimal digit.
fn digit_char_exec(c: char) -> (r: bool)
    ensures
        r == is_digit(c),
{
    let u = c as u32;
    48 <= u && u <= 57
}

/// The end of the digit run starting at `i`.
fn scan_digits(v: &Vec<char>, i: usize) -> (r: usize)
    requires
        i <= v@.len(),
    ensures
        r == digits_end(v@, i as nat),
        i <= r <= v@.len(),
    decreases v@.len() - i,
{
    if i < v.len() && digit_char_exec(v[i]) {
        scan_digits(v, i + 1)
    } else {
        i
    }
}

/// The end of the identifier run starting at `i`.
fn scan_ident(v: &Vec<char>, i: usize) -> (r: usize)
    requires
        i <= v@.len(),
    ensures
        r == ident_end(v@, i as nat),
        i <= r <= v@.len(),
    decreases v@.len() - i,
{
    if i < v.len() {
        let c = v[i];
        let u = c as u32;
        let ident = (97 <= u && u <= 122) || (48 <= u && u <= 57) || (65 <= u && u <= 90) || c
            == '_';
        if ident {
            return scan_ident(v, i + 1);
        }
    }
    i
}

/// Splits the input into tokens, exactly as [`tokenize_spec`] lists them.
pub fn tokenize(input: String) -> (r: VecDeque<String>)
    ensures
        names_view(r@) == tokenize_spec(input@, 0),
{
    let chars = crate::text::string_to_chars(input.as_str());
    let ghost s = input@;
    let n = chars.len();
    let mut out: VecDeque<String> = VecDeque::new();
    let mut i: usize = 0;
    proof {
        assert(names_view(out@) =~= Seq::<Seq<char>>::empty());
    }
    while i < n
        invariant
            chars@ == s,
            n == s.len(),
            i <= n,
            names_view(out@) + tokenize_spec(s, i as nat) == tokenize_spec(s, 0),
        decreases n - i,
    {
        let ghost before = names_view(out@);
        let c = chars[i];
        if c == ' ' || c == '\t' || c == '\n' || c == '\r' {
            i += 1;
        } else if c == ':' && i + 1 < n && chars[i + 1] == ':' {
            let token = substring(&chars, i, i + 2);
            out.push_back(token);
            proof {
                assert(names_view(out@) =~= before.push(s.subrange(i as int, i + 2)));
                assert(before + tokenize_spec(s, i as nat) =~= names_view(out@) + tokenize_spec(
                    s,
                    i as nat + 2,
                ));
            }
            i += 2;
        } else if c == '[' && i + 1 < n && chars[i + 1] == ']' {
            let token = substring(&chars, i, i + 2);
            out.push_back(token);
            proof {
                assert(names_view(out@) =~= before.push(s.subrange(i as int, i + 2)));
                assert(before + tokenize_spec(s, i as nat) =~= names_view(out@) + tokenize_spec(
                    s,
                    i as nat + 2,
                ));
            }
            i += 2;
        } else if c == '(' || c == ')' {
            let token = substring(&chars, i, i + 1);
            out.push_back(token);
            proof {
                assert(names_view(out@) =~= before.push(s.subrange(i as int, i + 1)));
                assert(before + tokenize_spec(s, i as nat) =~= names_view(out@) + tokenize_spec(
                    s,
                    i as nat + 1,
                ));
            }
            i += 1;
        } else if c == '-' && i + 1 < n && chars[i + 1] == '>' {
            let token = substring(&chars, i, i + 2);
            out.push_back(token);
            proof {
                assert(names_view(out@) =~= before.push(s.subrange(i as int, i + 2)));
                assert(before + tokenize_spec(s, i as nat) =~= names_view(out@) + tokenize_spec(
                    s,
                    i as nat + 2,
                ));
            }
            i += 2;
        } else if c == '-' || c == '+' {
            let end = scan_digits(&chars, i + 1);
            let token = substring(&chars, i, end);
            out.push_back(token);
            proof {
                assert(names_view(out@) =~= before.push(
                    s.subrange(i as int, digits_end(s, i as nat + 1) as int),
                ));
                assert(before + tokenize_spec(s, i as nat) =~= names_view(out@) + tokenize_spec(
                    s,
                    digits_end(s, i as nat + 1),
                ));
            }
            i = end;
        } else if c == '|' || c == '=' || c == '*' || c == '<' {
            let token = substring(&chars, i, i + 1);
            out.push_back(token);
            proof {
                assert(names_view(out@) =~= before.push(s.subrange(i as int, i + 1)));
                assert(before + tokenize_spec(s, i as nat) =~= names_view(out@) + tokenize_spec(
                    s,
                    i as nat + 1,
                ));
            }
            i += 1;
        } else if digit_char_exec(c) {
            let end = scan_digits(&chars, i);
            let token = substring(&chars, i, end);
            out.push_back(token);
            proof {
                assert(digits_end(s, i as nat) >= i + 1);
                assert(names_view(out@) =~= before.push(
                    s.subrange(i as int, digits_end(s, i as nat) as int),
                ));
                assert(before + tokenize_spec(s, i as nat) =~= names_view(out@) + tokenize_spec(
                    s,
                    digits_end(s, i as nat),
                ));
            }
            i = end;
        } else {
            let u = c as u32;
            if 97 <= u && u <= 122 {
                let end = scan_ident(&chars, i);
                let token = substring(&chars, i, end);
                out.push_back(token);
                proof {
                    assert(ident_end(s, i as nat) >= i + 1);
                    assert(names_view(out@) =~= before.push(
                        s.subrange(i as int, ident_end(s, i as nat) as int),
                    ));
                    assert(before + tokenize_spec(s, i as nat) =~= names_view(out@)
                        + tokenize_spec(s, ident_end(s, i as nat)));
                }
                i = end;
            } else {
                let token = substring(&chars, i, i + 1);
                out.push_back(token);
                proof {
                    assert(names_view(out@) =~= before.push(s.subrange(i as int, i + 1)));
                    assert(before + tokenize_spec(s, i as nat) =~= names_view(out@)
                        + tokenize_spec(s, i as nat + 1));
                }
                i += 1;
            }
        }
    }
    proof {
        assert(tokenize_spec(s, n as nat) =~= Seq::<Seq<char>>::empty());
        assert(names_view(out@) =~= names_view(out@) + tokenize_spec(s, n as nat));
    }
    out
}

} // verus!
