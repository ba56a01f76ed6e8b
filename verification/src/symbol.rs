//! The symbol generator: a source of type-variable names that never
//! repeats a name while its counter has room to grow.

use vstd::prelude::*;

use crate::text::chars_to_string;

verus! {

/// The decimal digit character for `d`.
pub open spec fn digit_char(d: nat) -> char {
    if d == 0 {
        '0'
    } else if d == 1 {
        '1'
    } else if d == 2 {
        '2'
    } else if d == 3 {
        '3'
    } else if d == 4 {
        '4'
    } else if d == 5 {
        '5'
    } else if d == 6 {
        '6'
    } else if d == 7 {
        '7'
    } else if d == 8 {
        '8'
    } else {
        '9'
    }
}

/// The decimal digits of `n`, most significant first.
pub open spec fn dec_digits(n: nat) -> Seq<char>
    decreases n,
{
    if n < 10 {
        seq![digit_char(n)]
    } else {
        dec_digits(n / 10).push(digit_char(n % 10))
    }
}

/// The name of the `n`-th generated symbol. The leading apostrophe keeps
/// generated names apart from every identifier of the object language.
pub open spec fn symbol_name(n: nat) -> Seq<char> {
    seq!['\'', 't'] + dec_digits(n)
}

/// Digit characters of distinct digits differ.
proof fn lemma_digit_char_injective(d1: nat, d2: nat)
    requires
        d1 < 10,
        d2 < 10,
        d1 != d2,
    ensures
        digit_char(d1) != digit_char(d2),
{
}

/// Numbers at least ten have at least two digits.
proof fn lemma_dec_digits_len(n: nat)
    ensures
        dec_digits(n).len() >= 1,
        n >= 10 ==> dec_digits(n).len() >= 2,
    decreases n,
{
    if n >= 10 {
        lemma_dec_digits_len(n / 10);
    }
}

/// Distinct numbers have distinct decimal digit strings.
pub proof fn lemma_dec_digits_injective(n1: nat, n2: nat)
    requires
        n1 != n2,
    ensures
        dec_digits(n1) != dec_digits(n2),
    decreases n1 + n2,
{
    if n1 < 10 && n2 < 10 {
        lemma_digit_char_injective(n1, n2);
        assert(dec_digits(n1)[0] != dec_digits(n2)[0]);
    } else if n1 < 10 {
        lemma_dec_digits_len(n2);
        assert(dec_digits(n1).len() == 1 && dec_digits(n2).len() >= 2);
    } else if n2 < 10 {
        lemma_dec_digits_len(n1);
        assert(dec_digits(n2).len() == 1 && dec_digits(n1).len() >= 2);
    } else {
        let s1 = dec_digits(n1);
        let s2 = dec_digits(n2);
        if n1 % 10 != n2 % 10 {
            lemma_digit_char_injective(n1 % 10, n2 % 10);
            assert(s1.last() != s2.last());
        } else {
            lemma_dec_digits_injective(n1 / 10, n2 / 10);
            if s1 == s2 {
                assert(s1.drop_last() == s2.drop_last());
                assert(s1.drop_last() =~= dec_digits(n1 / 10));
                assert(s2.drop_last() =~= dec_digits(n2 / 10));
            }
        }
    }
}

/// Two symbols with distinct numbers have distinct names.
pub proof fn lemma_symbol_names_distinct(n1: nat, n2: nat)
    requires
        n1 != n2,
    ensures
        symbol_name(n1) != symbol_name(n2),
{
    lemma_dec_digits_injective(n1, n2);
    if symbol_name(n1) == symbol_name(n2) {
        assert(symbol_name(n1).subrange(2, symbol_name(n1).len() as int) =~= dec_digits(n1));
        assert(symbol_name(n2).subrange(2, symbol_name(n2).len() as int) =~= dec_digits(n2));
    }
}

/// What the counter advances to after `count` draws: it grows by one per
/// draw and stops at its cap.
pub open spec fn advance(k: nat, count: nat) -> nat {
    if k + count <= u64::MAX {
        k + count
    } else {
        u64::MAX as nat
    }
}

/// A source of fresh type-variable names: a monotonic counter. Two draws
/// made while the counter is below its cap never return equal names.
#[derive(Debug, Clone, Copy, PartialEq, Eq, Structural)]
pub struct SymbolGenerator {
    pub next: u64,
}

impl SymbolGenerator {
    /// A generator that has issued no names.
    pub fn new() -> (r: Self)
        ensures
            r.next == 0,
    {
        SymbolGenerator { next: 0 }
    }

    /// Draws the next name.
    pub fn fresh(&mut self) -> (r: String)
        ensures
            r@ == symbol_name(old(self).next as nat),
            final(self).next as nat == advance(old(self).next as nat, 1),
    {
        let name = render_symbol(self.next);
        if self.next < u64::MAX {
            self.next = self.next + 1;
        }
        name
    }
}

/// Renders the name of symbol number `n`.
fn render_symbol(n: u64) -> (r: String)
    ensures
        r@ == symbol_name(n as nat),
{
    let mut digits: Vec<char> = Vec::new();
    push_digits(n, &mut digits);
    let mut chars: Vec<char> = Vec::new();
    chars.push('\'');
    chars.push('t');
    let mut i: usize = 0;
    let count = digits.len();
    while i < count
        invariant
            count == digits@.len(),
            i <= count,
            chars@ == seq!['\'', 't'] + digits@.subrange(0, i as int),
        decreases count - i,
    {
        proof {
            assert(digits@.subrange(0, i as int + 1) =~= digits@.subrange(0, i as int).push(
                digits@[i as int],
            ));
        }
        chars.push(digits[i]);
        i += 1;
    }
    proof {
        assert(digits@.subrange(0, count as int) =~= digits@);
    }
    chars_to_string(&chars)
}

/// Appends the decimal digits of `n` to `out`, most significant first.
fn push_digits(n: u64, out: &mut Vec<char>)
    ensures
        final(out)@ == old(out)@ + dec_digits(n as nat),
    decreases n,
{
    let ghost prefix = out@;
    if n < 10 {
        let c = digit_of(n);
        out.push(c);
        proof {
            assert(out@ =~= prefix + dec_digits(n as nat));
        }
    } else {
        push_digits(n / 10, out);
        let c = digit_of(n % 10);
        out.push(c);
        proof {
            assert(out@ =~= prefix + dec_digits(n as nat));
        }
    }
}

/// The digit character for `d`, which must be below ten.
fn digit_of(d: u64) -> (r: char)
    requires
        d < 10,
    ensures
        r == digit_char(d as nat),
{
    match d {
        0 => '0',
        1 => '1',
        2 => '2',
        3 => '3',
        4 => '4',
        5 => '5',
        6 => '6',
        7 => '7',
        8 => '8',
        _ => '9',
    }
}

} // verus!
