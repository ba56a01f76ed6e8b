//! The parser: recursive descent with precedence climbing over the token
//! sequence. Precedence and associativity, high to low: `*` left; `+ -`
//! left; `<` left; `::` right. Application is left-associative and binds
//! tighter than all operators; `if`, `let`, `fun` and `match` start prefix
//! forms.
//!
//! The grammar is given by the specification function [`parse_spec`]; the
//! executable entry point [`parse`] and each production return exactly
//! what it says. Every function consumes tokens from the front and
//! terminates; a parse that succeeds consumes at least one token.

use std::collections::VecDeque;

use vstd::prelude::*;
use vstd::string::StringExecFns;

use crate::ast::{Expr, Expression};
use crate::text::string_to_chars;
use crate::tokenizer::{is_digit, is_ident_char, is_lower};
use crate::types::names_view;

verus! {

/// Model of a parse error.
pub ghost enum ParseErr {
    Empty,
    Unexpected(Seq<char>),
    InvalidSyntax(Seq<char>),
    Unclosed,
}

/// An error raised by the parser.
#[derive(Debug)]
pub enum ParseError {
    Empty,
    Unexpected(String),
    InvalidSyntax(String),
    Unclosed,
}

impl View for ParseError {
    type V = ParseErr;

    open spec fn view(&self) -> ParseErr {
        match self {
            ParseError::Empty => ParseErr::Empty,
            ParseError::Unexpected(t) => ParseErr::Unexpected(t@),
            ParseError::InvalidSyntax(t) => ParseErr::InvalidSyntax(t@),
            ParseError::Unclosed => ParseErr::Unclosed,
        }
    }
}

/// Operator associativity.
#[derive(Debug, Clone, Copy, PartialEq, Eq, Structural)]
pub enum Assoc {
    Left,
    Right,
}

/// The numeric value of a digit string, most significant digit first.
pub open spec fn digits_value(s: Seq<char>) -> int
    decreases s.len(),
{
    if s.len() == 0 {
        0
    } else {
        digits_value(s.drop_last()) * 10 + (s.last() as u32 as int - 48)
    }
}

/// Whether every character is a decimal digit.
pub open spec fn all_digits(s: Seq<char>) -> bool {
    forall|j: int| 0 <= j < s.len() ==> is_digit(s[j])
}

/// The literal with an optional leading sign removed.
pub open spec fn int_literal_body(s: Seq<char>) -> Seq<char> {
    if s.len() > 0 && (s[0] == '+' || s[0] == '-') {
        s.subrange(1, s.len() as int)
    } else {
        s
    }
}

/// The signed value a literal denotes.
pub open spec fn int_token_value(s: Seq<char>) -> int {
    if s.len() > 0 && s[0] == '-' {
        -digits_value(int_literal_body(s))
    } else {
        digits_value(int_literal_body(s))
    }
}

/// Whether `s` is an integer literal whose value fits the machine
/// integer: an optional sign, then at least one digit.
pub open spec fn is_int_literal(s: Seq<char>) -> bool {
    &&& int_literal_body(s).len() > 0
    &&& all_digits(int_literal_body(s))
    &&& isize::MIN as int <= int_token_value(s) <= isize::MAX as int
}

/// A digit string's value is nonnegative and no prefix exceeds it.
proof fn lemma_digits_value_prefix(s: Seq<char>, i: int)
    requires
        all_digits(s),
        0 <= i <= s.len(),
    ensures
        0 <= digits_value(s.subrange(0, i)) <= digits_value(s),
    decreases s.len() - i,
{
    if i == s.len() {
        assert(s.subrange(0, i) =~= s);
        lemma_digits_value_nonneg(s);
    } else {
        lemma_digits_value_prefix(s, i + 1);
        let shorter = s.subrange(0, i);
        let longer = s.subrange(0, i + 1);
        assert(longer.drop_last() =~= shorter);
        assert(longer.last() == s[i]);
        assert(is_digit(s[i]));
        lemma_digits_value_nonneg(shorter);
    }
}

/// A digit string's value is nonnegative.
proof fn lemma_digits_value_nonneg(s: Seq<char>)
    requires
        all_digits(s),
    ensures
        digits_value(s) >= 0,
    decreases s.len(),
{
    if s.len() > 0 {
        assert(all_digits(s.drop_last()));
        lemma_digits_value_nonneg(s.drop_last());
        assert(is_digit(s.last()));
    }
}

/// Reads `t` as a machine integer: the value when `t` is an integer
/// literal in range, nothing otherwise.
#[verifier::loop_isolation(false)]
pub fn parse_isize(t: &String) -> (r: Option<isize>)
    ensures
        match r {
            Some(v) => is_int_literal(t@) && v as int == int_token_value(t@),
            None => !is_int_literal(t@),
        },
{
    let chars = string_to_chars(t.as_str());
    let ghost s = t@;
    let n = chars.len();
    let mut start: usize = 0;
    let mut negative = false;
    if n > 0 && (chars[0] == '+' || chars[0] == '-') {
        start = 1;
        negative = chars[0] == '-';
    }
    let ghost body = int_literal_body(s);
    proof {
        if start == 1 {
            assert(body =~= s.subrange(1, n as int));
        } else {
            assert(body =~= s);
        }
    }
    if start >= n {
        return None;
    }
    let bound: u128 = if negative {
        (isize::MAX as u128) + 1
    } else {
        isize::MAX as u128
    };
    let mut acc: u128 = 0;
    let mut j = start;
    while j < n
        invariant
            chars@ == s,
            n == s.len(),
            body == int_literal_body(s),
            start <= 1,
            start <= j <= n,
            start == 1 ==> body =~= s.subrange(1, n as int),
            start == 0 ==> body == s,
            start == 1 <==> (n > 0 && (s[0] == '+' || s[0] == '-')),
            negative <==> (n > 0 && s[0] == '-'),
            bound as int == if negative {
                isize::MAX as int + 1
            } else {
                isize::MAX as int
            },
            acc as int == digits_value(s.subrange(start as int, j as int)),
            all_digits(s.subrange(start as int, j as int)),
            acc <= bound,
        decreases n - j,
    {
        let c = chars[j];
        let u = c as u32;
        let ghost prefix = s.subrange(start as int, j as int);
        if !(48 <= u && u <= 57) {
            proof {
                assert(body[j - start] == s[j as int]);
                assert(!is_digit(body[j - start]));
            }
            return None;
        }
        proof {
            assert(s.subrange(start as int, j + 1).drop_last() =~= prefix);
            assert(s.subrange(start as int, j + 1).last() == s[j as int]);
        }
        acc = acc * 10 + ((u - 48) as u128);
        if acc > bound {
            proof {
                let upto = s.subrange(start as int, j + 1);
                if all_digits(body) {
                    assert(upto =~= body.subrange(0, j + 1 - start));
                    lemma_digits_value_prefix(body, j + 1 - start);
                }
            }
            return None;
        }
        j += 1;
    }
    proof {
        assert(s.subrange(start as int, n as int) =~= body);
    }
    if negative {
        if acc == (isize::MAX as u128) + 1 {
            Some(isize::MIN)
        } else {
            Some(-(acc as isize))
        }
    } else {
        Some(acc as isize)
    }
}

/// Whether `tok` is an identifier: a lowercase letter followed by
/// letters, digits and underscores.
pub open spec fn is_identifier_spec(s: Seq<char>) -> bool {
    s.len() > 0 && is_lower(s[0]) && (forall|j: int| 1 <= j < s.len() ==> is_ident_char(s[j]))
}

/// The binding power and associativity an operator token denotes: `*` at
/// 70, `+` and `-` at 60, `<` at 50, all left; `::` at 40, right.
pub open spec fn spec_precedence(op: Seq<char>) -> Option<(int, Assoc)> {
    if op == "*"@ {
        Some((70int, Assoc::Left))
    } else if op == "+"@ || op == "-"@ {
        Some((60int, Assoc::Left))
    } else if op == "<"@ {
        Some((50int, Assoc::Left))
    } else if op == "::"@ {
        Some((40int, Assoc::Right))
    } else {
        None
    }
}

/// The node an infix operator builds from its operands.
pub open spec fn binop_spec(op: Seq<char>, lhs: Expr, rhs: Expr) -> Result<Expr, ParseErr> {
    if op == "+"@ {
        Ok(Expr::Plus(Box::new(lhs), Box::new(rhs)))
    } else if op == "-"@ {
        Ok(Expr::Minus(Box::new(lhs), Box::new(rhs)))
    } else if op == "*"@ {
        Ok(Expr::Times(Box::new(lhs), Box::new(rhs)))
    } else if op == "<"@ {
        Ok(Expr::LessThan(Box::new(lhs), Box::new(rhs)))
    } else if op == "::"@ {
        Ok(Expr::Cons { car: Box::new(lhs), cdr: Box::new(rhs) })
    } else {
        Err(ParseErr::InvalidSyntax(op))
    }
}

/// Taking one expected token off the front.
pub open spec fn expect_spec(tokens: Seq<Seq<char>>, expected: Seq<char>) -> Result<
    Seq<Seq<char>>,
    ParseErr,
> {
    if tokens.len() == 0 {
        Err(ParseErr::Empty)
    } else if tokens[0] == expected {
        Ok(tokens.drop_first())
    } else {
        Err(ParseErr::Unexpected(tokens[0]))
    }
}

/// A token that ends an application chain.
pub open spec fn application_stop(t: Seq<char>) -> bool {
    t == "then"@ || t == "else"@ || t == "in"@ || t == "|"@ || t == "->"@ || t == "with"@
}

/// Whether the coming token can start an atom: a parenthesis, the empty
/// list, a boolean, an integer literal, or an identifier.
pub open spec fn starts_primary_spec(tokens: Seq<Seq<char>>) -> bool {
    tokens.len() > 0 && (tokens[0] == "("@ || tokens[0] == "[]"@ || tokens[0] == "true"@
        || tokens[0] == "false"@ || is_int_literal(tokens[0]) || is_identifier_spec(tokens[0]))
}

/// What the parser is at work on: a production of the grammar, or the
/// state in the middle of an operator or application chain.
pub ghost enum ParseMode {
    Expr(int),
    ExprOps(Expr, int),
    If,
    Let,
    Fun,
    Match,
    Application,
    AppArgs(Expr),
    Atom,
}

/// Orders the productions entered on the same tokens, outermost highest.
pub open spec fn mode_rank(mode: ParseMode) -> int {
    match mode {
        ParseMode::Expr(_) => 3,
        ParseMode::ExprOps(_, _) => 0,
        ParseMode::If => 2,
        ParseMode::Let => 2,
        ParseMode::Fun => 2,
        ParseMode::Match => 2,
        ParseMode::Application => 2,
        ParseMode::AppArgs(_) => 1,
        ParseMode::Atom => 0,
    }
}

/// The grammar, one production per mode: precedence climbing over the
/// operator table of [`spec_precedence`]; application binds tighter than
/// every operator and associates to the left; `if`, `let`, `fun` and
/// `match` start prefix forms, and `let rec name = fun p -> body in k` is
/// the only form that yields a `LetRec` node. The result is the parsed
/// expression together with the remaining tokens. Each recursion into a
/// suffix that a subparse returned is guarded by the progress measure
/// (every successful subparse consumes a token; the executable code
/// proves the guard at every step).
pub open spec fn parse_spec_at(tokens: Seq<Seq<char>>, mode: ParseMode) -> Result<
    (Expr, Seq<Seq<char>>),
    ParseErr,
>
    decreases tokens.len(), mode_rank(mode),
{
    match mode {
        ParseMode::Expr(min_bp) => {
            let prefix = if tokens.len() > 0 && tokens[0] == "if"@ {
                ParseMode::If
            } else if tokens.len() > 0 && tokens[0] == "let"@ {
                ParseMode::Let
            } else if tokens.len() > 0 && tokens[0] == "fun"@ {
                ParseMode::Fun
            } else if tokens.len() > 0 && tokens[0] == "match"@ {
                ParseMode::Match
            } else {
                ParseMode::Application
            };
            match parse_spec_at(tokens, prefix) {
                Ok((lhs, rest)) => if rest.len() < tokens.len() {
                    parse_spec_at(rest, ParseMode::ExprOps(lhs, min_bp))
                } else {
                    Err(ParseErr::Empty)
                },
                Err(e) => Err(e),
            }
        },
        ParseMode::ExprOps(lhs, min_bp) => {
            if tokens.len() == 0 {
                Ok((lhs, tokens))
            } else {
                match spec_precedence(tokens[0]) {
                    None => Ok((lhs, tokens)),
                    Some((bp, assoc)) => if bp < min_bp {
                        Ok((lhs, tokens))
                    } else {
                        let next_min = if assoc == Assoc::Left {
                            bp + 1
                        } else {
                            bp
                        };
                        match parse_spec_at(tokens.drop_first(), ParseMode::Expr(next_min)) {
                            Ok((rhs, rest)) => match binop_spec(tokens[0], lhs, rhs) {
                                Ok(combined) => if rest.len() < tokens.len() {
                                    parse_spec_at(rest, ParseMode::ExprOps(combined, min_bp))
                                } else {
                                    Err(ParseErr::Empty)
                                },
                                Err(e) => Err(e),
                            },
                            Err(e) => Err(e),
                        }
                    },
                }
            }
        },
        ParseMode::If => match expect_spec(tokens, "if"@) {
            Ok(r0) => match parse_spec_at(r0, ParseMode::Expr(0)) {
                Ok((predicate, r1)) => match expect_spec(r1, "then"@) {
                    Ok(r2) => if r2.len() < tokens.len() {
                        match parse_spec_at(r2, ParseMode::Expr(0)) {
                            Ok((consequent, r3)) => match expect_spec(r3, "else"@) {
                                Ok(r4) => if r4.len() < tokens.len() {
                                    match parse_spec_at(r4, ParseMode::Expr(0)) {
                                        Ok((alternative, r5)) => Ok(
                                            (
                                                Expr::If {
                                                    predicate: Box::new(predicate),
                                                    consequent: Box::new(consequent),
                                                    alternative: Box::new(alternative),
                                                },
                                                r5,
                                            ),
                                        ),
                                        Err(e) => Err(e),
                                    }
                                } else {
                                    Err(ParseErr::Empty)
                                },
                                Err(e) => Err(e),
                            },
                            Err(e) => Err(e),
                        }
                    } else {
                        Err(ParseErr::Empty)
                    },
                    Err(e) => Err(e),
                },
                Err(e) => Err(e),
            },
            Err(e) => Err(e),
        },
        ParseMode::Let => match expect_spec(tokens, "let"@) {
            Ok(r0) => if r0.len() > 0 && r0[0] == "rec"@ {
                let r1 = r0.drop_first();
                if r1.len() == 0 {
                    Err(ParseErr::Empty)
                } else {
                    let name = r1[0];
                    let r2 = r1.drop_first();
                    if !is_identifier_spec(name) {
                        Err(ParseErr::InvalidSyntax(name))
                    } else {
                        match expect_spec(r2, "="@) {
                            Ok(r3) => match expect_spec(r3, "fun"@) {
                                Ok(r4) => if r4.len() == 0 {
                                    Err(ParseErr::Empty)
                                } else {
                                    let parameter = r4[0];
                                    let r5 = r4.drop_first();
                                    if !is_identifier_spec(parameter) {
                                        Err(ParseErr::InvalidSyntax(parameter))
                                    } else {
                                        match expect_spec(r5, "->"@) {
                                            Ok(r6) => match parse_spec_at(
                                                r6,
                                                ParseMode::Expr(0),
                                            ) {
                                                Ok((function_body, r7)) => match expect_spec(
                                                    r7,
                                                    "in"@,
                                                ) {
                                                    Ok(r8) => if r8.len() < tokens.len() {
                                                        match parse_spec_at(
                                                            r8,
                                                            ParseMode::Expr(0),
                                                        ) {
                                                            Ok((body, r9)) => Ok(
                                                                (
                                                                    Expr::LetRec {
                                                                        variable: name,
                                                                        bound_function: Box::new(
                                                                            Expr::Fun {
                                                                                parameter,
                                                                                body: Box::new(
                                                                                    function_body,
                                                                                ),
                                                                            },
                                                                        ),
                                                                        body: Box::new(body),
                                                                    },
                                                                    r9,
                                                                ),
                                                            ),
                                                            Err(e) => Err(e),
                                                        }
                                                    } else {
                                                        Err(ParseErr::Empty)
                                                    },
                                                    Err(e) => Err(e),
                                                },
                                                Err(e) => Err(e),
                                            },
                                            Err(e) => Err(e),
                                        }
                                    }
                                },
                                Err(e) => Err(e),
                            },
                            Err(e) => Err(e),
                        }
                    }
                }
            } else {
                if r0.len() == 0 {
                    Err(ParseErr::Empty)
                } else {
                    let name = r0[0];
                    let rb0 = r0.drop_first();
                    if !is_identifier_spec(name) {
                        Err(ParseErr::InvalidSyntax(name))
                    } else {
                        match expect_spec(rb0, "="@) {
                            Ok(rb1) => match parse_spec_at(rb1, ParseMode::Expr(0)) {
                                Ok((bound, rb2)) => match expect_spec(rb2, "in"@) {
                                    Ok(rb3) => if rb3.len() < tokens.len() {
                                        match parse_spec_at(rb3, ParseMode::Expr(0)) {
                                            Ok((body, rb4)) => Ok(
                                                (
                                                    Expr::Let {
                                                        variable: name,
                                                        bound: Box::new(bound),
                                                        body: Box::new(body),
                                                    },
                                                    rb4,
                                                ),
                                            ),
                                            Err(e) => Err(e),
                                        }
                                    } else {
                                        Err(ParseErr::Empty)
                                    },
                                    Err(e) => Err(e),
                                },
                                Err(e) => Err(e),
                            },
                            Err(e) => Err(e),
                        }
                    }
                }
            },
            Err(e) => Err(e),
        },
        ParseMode::Fun => match expect_spec(tokens, "fun"@) {
            Ok(r0) => if r0.len() == 0 {
                Err(ParseErr::Empty)
            } else {
                let parameter = r0[0];
                let r1 = r0.drop_first();
                if !is_identifier_spec(parameter) {
                    Err(ParseErr::InvalidSyntax(parameter))
                } else {
                    match expect_spec(r1, "->"@) {
                        Ok(r2) => match parse_spec_at(r2, ParseMode::Expr(0)) {
                            Ok((body, r3)) => Ok(
                                (Expr::Fun { parameter, body: Box::new(body) }, r3),
                            ),
                            Err(e) => Err(e),
                        },
                        Err(e) => Err(e),
                    }
                }
            },
            Err(e) => Err(e),
        },
        ParseMode::Match => match expect_spec(tokens, "match"@) {
            Ok(r0) => match parse_spec_at(r0, ParseMode::Expr(0)) {
                Ok((scrutinee, r1)) => match expect_spec(r1, "with"@) {
                    Ok(r2) => match expect_spec(r2, "[]"@) {
                        Ok(r3) => match expect_spec(r3, "->"@) {
                            Ok(r4) => if r4.len() < tokens.len() {
                                match parse_spec_at(r4, ParseMode::Expr(0)) {
                                    Ok((nil_case, r5)) => match expect_spec(r5, "|"@) {
                                        Ok(r6) => if r6.len() == 0 {
                                            Err(ParseErr::Empty)
                                        } else {
                                            let head = r6[0];
                                            let r7 = r6.drop_first();
                                            if !is_identifier_spec(head) {
                                                Err(ParseErr::InvalidSyntax(head))
                                            } else {
                                                match expect_spec(r7, "::"@) {
                                                    Ok(r8) => if r8.len() == 0 {
                                                        Err(ParseErr::Empty)
                                                    } else {
                                                        let tail = r8[0];
                                                        let r9 = r8.drop_first();
                                                        if !is_identifier_spec(tail) {
                                                            Err(ParseErr::InvalidSyntax(tail))
                                                        } else {
                                                            match expect_spec(r9, "->"@) {
                                                                Ok(r10) => if r10.len()
                                                                    < tokens.len() {
                                                                    match parse_spec_at(
                                                                        r10,
                                                                        ParseMode::Expr(0),
                                                                    ) {
                                                                        Ok((cons_body, r11)) => Ok(
                                                                            (
                                                                                Expr::Match {
                                                                                    scrutinee:
                                                                                        Box::new(
                                                                                        scrutinee,
                                                                                    ),
                                                                                    nil_case:
                                                                                        Box::new(
                                                                                        nil_case,
                                                                                    ),
                                                                                    car_name: head,
                                                                                    cdr_name: tail,
                                                                                    cons_case:
                                                                                        Box::new(
                                                                                        cons_body,
                                                                                    ),
                                                                                },
                                                                                r11,
                                                                            ),
                                                                        ),
                                                                        Err(e) => Err(e),
                                                                    }
                                                                } else {
                                                                    Err(ParseErr::Empty)
                                                                },
                                                                Err(e) => Err(e),
                                                            }
                                                        }
                                                    },
                                                    Err(e) => Err(e),
                                                }
                                            }
                                        },
                                        Err(e) => Err(e),
                                    },
                                    Err(e) => Err(e),
                                }
                            } else {
                                Err(ParseErr::Empty)
                            },
                            Err(e) => Err(e),
                        },
                        Err(e) => Err(e),
                    },
                    Err(e) => Err(e),
                },
                Err(e) => Err(e),
            },
            Err(e) => Err(e),
        },
        ParseMode::Application => match parse_spec_at(tokens, ParseMode::Atom) {
            Ok((func, rest)) => if rest.len() < tokens.len() {
                parse_spec_at(rest, ParseMode::AppArgs(func))
            } else {
                Err(ParseErr::Empty)
            },
            Err(e) => Err(e),
        },
        ParseMode::AppArgs(func) => {
            if tokens.len() == 0 {
                Ok((func, tokens))
            } else if application_stop(tokens[0]) {
                Ok((func, tokens))
            } else if spec_precedence(tokens[0]) is Some {
                Ok((func, tokens))
            } else if !starts_primary_spec(tokens) {
                Ok((func, tokens))
            } else {
                match parse_spec_at(tokens, ParseMode::Atom) {
                    Ok((argument, rest)) => if rest.len() < tokens.len() {
                        parse_spec_at(
                            rest,
                            ParseMode::AppArgs(
                                Expr::App {
                                    function: Box::new(func),
                                    argument: Box::new(argument),
                                },
                            ),
                        )
                    } else {
                        Err(ParseErr::Empty)
                    },
                    Err(e) => Err(e),
                }
            }
        },
        ParseMode::Atom => {
            if tokens.len() == 0 {
                Err(ParseErr::Empty)
            } else {
                let t = tokens[0];
                let rest = tokens.drop_first();
                if is_int_literal(t) {
                    Ok((Expr::Integer(int_token_value(t)), rest))
                } else if t == "true"@ {
                    Ok((Expr::Bool(true), rest))
                } else if t == "false"@ {
                    Ok((Expr::Bool(false), rest))
                } else if t == "("@ {
                    match parse_spec_at(rest, ParseMode::Expr(0)) {
                        Ok((inner, r1)) => if r1.len() == 0 {
                            Err(ParseErr::Unclosed)
                        } else if r1[0] == ")"@ {
                            Ok((inner, r1.drop_first()))
                        } else {
                            Err(ParseErr::Unexpected(r1[0]))
                        },
                        Err(e) => Err(e),
                    }
                } else if t == "[]"@ {
                    Ok((Expr::Nil, rest))
                } else if is_identifier_spec(t) {
                    Ok((Expr::Variable(t), rest))
                } else {
                    Err(ParseErr::Unexpected(t))
                }
            }
        },
    }
}

/// One whole expression, with every token consumed.
pub open spec fn parse_spec(tokens: Seq<Seq<char>>) -> Result<Expr, ParseErr> {
    match parse_spec_at(tokens, ParseMode::Expr(0)) {
        Ok((expression, rest)) => if rest.len() == 0 {
            Ok(expression)
        } else {
            Err(ParseErr::Unexpected(rest[0]))
        },
        Err(e) => Err(e),
    }
}

/// Dropping the front symbol commutes with taking the names.
proof fn lemma_names_view_drop_first(s: Seq<String>)
    requires
        s.len() > 0,
    ensures
        names_view(s.subrange(1, s.len() as int)) =~= names_view(s).drop_first(),
{
}

/// Whether `tok` is an identifier.
fn is_identifier(tok: &String) -> (r: bool)
    ensures
        r == is_identifier_spec(tok@),
{
    let chars = string_to_chars(tok.as_str());
    let n = chars.len();
    if n == 0 {
        return false;
    }
    let first = chars[0] as u32;
    if !(97 <= first && first <= 122) {
        return false;
    }
    let mut j: usize = 1;
    while j < n
        invariant
            chars@ == tok@,
            n == tok@.len(),
            1 <= j <= n,
            forall|i: int| 1 <= i < j ==> is_ident_char(tok@[i]),
        decreases n - j,
    {
        let c = chars[j];
        let u = c as u32;
        let ident = (97 <= u && u <= 122) || (48 <= u && u <= 57) || (65 <= u && u <= 90) || c
            == '_';
        if !ident {
            return false;
        }
        j += 1;
    }
    true
}

/// Whether the token equals the given keyword or symbol.
fn token_is(t: &String, keyword: &str) -> (r: bool)
    ensures
        r == (t@ == keyword@),
{
    let kw = String::from_str(keyword);
    *t == kw
}

/// The next token, left in place.
fn peek(tokens: &VecDeque<String>) -> (r: Option<&String>)
    ensures
        match r {
            Some(t) => tokens@.len() > 0 && *t == tokens@[0],
            None => tokens@.len() == 0,
        },
{
    if tokens.len() > 0 {
        Some(&tokens[0])
    } else {
        None
    }
}

/// Takes the next token.
fn next(tokens: &mut VecDeque<String>) -> (r: Option<String>)
    ensures
        match r {
            Some(t) => old(tokens)@.len() > 0 && t == old(tokens)@[0] && final(tokens)@
                == old(tokens)@.subrange(1, old(tokens)@.len() as int),
            None => old(tokens)@.len() == 0 && final(tokens)@ == old(tokens)@,
        },
{
    tokens.pop_front()
}

/// Takes the next token, which must equal `expected`.
fn expect(tokens: &mut VecDeque<String>, expected: &str) -> (r: Result<(), ParseError>)
    ensures
        final(tokens)@.len() <= old(tokens)@.len(),
        match r {
            Ok(()) => final(tokens)@.len() < old(tokens)@.len() && expect_spec(
                names_view(old(tokens)@),
                expected@,
            ) == Ok::<Seq<Seq<char>>, ParseErr>(names_view(final(tokens)@)),
            Err(e) => expect_spec(names_view(old(tokens)@), expected@) == Err::<
                Seq<Seq<char>>,
                ParseErr,
            >(e@),
        },
{
    let t = match next(tokens) {
        Some(t) => t,
        None => {
            return Err(ParseError::Empty);
        },
    };
    proof {
        assert(names_view(old(tokens)@)[0] == t@);
        lemma_names_view_drop_first(old(tokens)@);
    }
    if !token_is(&t, expected) {
        return Err(ParseError::Unexpected(t));
    }
    Ok(())
}

/// Whether the coming token can start an atom: a parenthesis, the empty
/// list, a boolean, an integer literal, or an identifier.
fn starts_primary(tokens: &VecDeque<String>) -> (r: bool)
    ensures
        r == starts_primary_spec(names_view(tokens@)),
{
    proof {
        if tokens@.len() > 0 {
            assert(names_view(tokens@)[0] == tokens@[0]@);
        }
    }
    match peek(tokens) {
        Some(t) => {
            if token_is(t, "(") || token_is(t, "[]") || token_is(t, "true") || token_is(
                t,
                "false",
            ) {
                return true;
            }
            if parse_isize(t).is_some() {
                return true;
            }
            is_identifier(t)
        },
        None => false,
    }
}

/// The binding power and associativity of an operator token.
fn precedence(op: &String) -> (r: Option<(i32, Assoc)>)
    ensures
        match r {
            Some(p) => 0 <= p.0 <= 100 && spec_precedence(op@) == Some((p.0 as int, p.1)),
            None => spec_precedence(op@) is None,
        },
{
    if token_is(op, "*") {
        Some((70, Assoc::Left))
    } else if token_is(op, "+") || token_is(op, "-") {
        Some((60, Assoc::Left))
    } else if token_is(op, "<") {
        Some((50, Assoc::Left))
    } else if token_is(op, "::") {
        Some((40, Assoc::Right))
    } else {
        None
    }
}

/// The expression an infix operator builds from its operands.
fn build_binop(op: &String, lhs: Expression, rhs: Expression) -> (r: Result<
    Expression,
    ParseError,
>)
    ensures
        match r {
            Ok(e) => binop_spec(op@, lhs@, rhs@) == Ok::<Expr, ParseErr>(e@),
            Err(err) => binop_spec(op@, lhs@, rhs@) == Err::<Expr, ParseErr>(err@),
        },
{
    if token_is(op, "+") {
        Ok(Expression::Plus { expression1: Box::new(lhs), expression2: Box::new(rhs) })
    } else if token_is(op, "-") {
        Ok(Expression::Minus { expression1: Box::new(lhs), expression2: Box::new(rhs) })
    } else if token_is(op, "*") {
        Ok(Expression::Times { expression1: Box::new(lhs), expression2: Box::new(rhs) })
    } else if token_is(op, "<") {
        Ok(Expression::LessThan { expression1: Box::new(lhs), expression2: Box::new(rhs) })
    } else if token_is(op, "::") {
        Ok(Expression::Cons { car: Box::new(lhs), cdr: Box::new(rhs) })
    } else {
        Err(ParseError::InvalidSyntax(op.clone()))
    }
}

/// Parses one whole expression, which must consume every token: the tree
/// and the error are exactly those of [`parse_spec`].
pub fn parse(tokens: VecDeque<String>) -> (r: Result<Expression, ParseError>)
    ensures
        match r {
            Ok(e) => parse_spec(names_view(tokens@)) == Ok::<Expr, ParseErr>(e@),
            Err(err) => parse_spec(names_view(tokens@)) == Err::<Expr, ParseErr>(err@),
        },
{
    let mut tokens = tokens;
    let ghost t0 = names_view(tokens@);
    let expr = parse_expr(&mut tokens, 0)?;
    if tokens.len() != 0 {
        proof {
            assert(names_view(tokens@)[0] == tokens@[0]@);
        }
        let t = match next(&mut tokens) {
            Some(t) => t,
            None => {
                return Err(ParseError::Empty);
            },
        };
        return Err(ParseError::Unexpected(t));
    }
    Ok(expr)
}

/// Precedence climbing: a prefix form or an application, then operators of
/// at least `min_bp`.
#[verifier::loop_isolation(false)]
fn parse_expr(tokens: &mut VecDeque<String>, min_bp: i32) -> (r: Result<Expression, ParseError>)
    ensures
        final(tokens)@.len() <= old(tokens)@.len(),
        match r {
            Ok(e) => final(tokens)@.len() < old(tokens)@.len() && parse_spec_at(
                names_view(old(tokens)@),
                ParseMode::Expr(min_bp as int),
            ) == Ok::<(Expr, Seq<Seq<char>>), ParseErr>((e@, names_view(final(tokens)@))),
            Err(err) => parse_spec_at(names_view(old(tokens)@), ParseMode::Expr(min_bp as int))
                == Err::<(Expr, Seq<Seq<char>>), ParseErr>(err@),
        },
    decreases old(tokens)@.len(), 2int,
{
    let ghost entry_len = tokens@.len();
    let ghost t0 = names_view(tokens@);
    proof {
        if tokens@.len() > 0 {
            assert(t0[0] == tokens@[0]@);
        }
    }
    let starts_if = match peek(tokens) {
        Some(t) => token_is(t, "if"),
        None => false,
    };
    let starts_let = match peek(tokens) {
        Some(t) => token_is(t, "let"),
        None => false,
    };
    let starts_fun = match peek(tokens) {
        Some(t) => token_is(t, "fun"),
        None => false,
    };
    let starts_match = match peek(tokens) {
        Some(t) => token_is(t, "match"),
        None => false,
    };
    let mut lhs = if starts_if {
        parse_if(tokens)?
    } else if starts_let {
        parse_let(tokens)?
    } else if starts_fun {
        parse_fun(tokens)?
    } else if starts_match {
        parse_match(tokens)?
    } else {
        parse_application(tokens)?
    };
    loop
        invariant
            tokens@.len() < entry_len,
            parse_spec_at(t0, ParseMode::Expr(min_bp as int)) == parse_spec_at(
                names_view(tokens@),
                ParseMode::ExprOps(lhs@, min_bp as int),
            ),
        decreases tokens@.len(),
    {
        proof {
            if tokens@.len() > 0 {
                assert(names_view(tokens@)[0] == tokens@[0]@);
            }
        }
        let op = match peek(tokens) {
            Some(t) => {
                match precedence(t) {
                    Some(_) => t.clone(),
                    None => {
                        break ;
                    },
                }
            },
            None => {
                break ;
            },
        };
        let (bp, assoc) = match precedence(&op) {
            Some(p) => p,
            None => {
                break ;
            },
        };
        if bp < min_bp {
            break ;
        }
        let next_min: i32 = if assoc == Assoc::Left {
            bp + 1
        } else {
            bp
        };
        let ghost before_op = tokens@;
        let _ = next(tokens);
        proof {
            lemma_names_view_drop_first(before_op);
        }
        let rhs = match parse_expr(tokens, next_min) {
            Ok(e) => e,
            Err(e) => {
                return Err(e);
            },
        };
        lhs = match build_binop(&op, lhs, rhs) {
            Ok(e) => e,
            Err(e) => {
                return Err(e);
            },
        };
    }
    Ok(lhs)
}

/// `if` ... `then` ... `else` ... .
fn parse_if(tokens: &mut VecDeque<String>) -> (r: Result<Expression, ParseError>)
    ensures
        final(tokens)@.len() <= old(tokens)@.len(),
        match r {
            Ok(e) => final(tokens)@.len() < old(tokens)@.len() && parse_spec_at(
                names_view(old(tokens)@),
                ParseMode::If,
            ) == Ok::<(Expr, Seq<Seq<char>>), ParseErr>((e@, names_view(final(tokens)@))),
            Err(err) => parse_spec_at(names_view(old(tokens)@), ParseMode::If) == Err::<
                (Expr, Seq<Seq<char>>),
                ParseErr,
            >(err@),
        },
    decreases old(tokens)@.len(), 1int,
{
    expect(tokens, "if")?;
    let predicate = parse_expr(tokens, 0)?;
    expect(tokens, "then")?;
    let consequent = parse_expr(tokens, 0)?;
    expect(tokens, "else")?;
    let alternative = parse_expr(tokens, 0)?;
    let ghost pv = predicate@;
    let ghost cv = consequent@;
    let ghost av = alternative@;
    let result = Expression::If {
        predicate: Box::new(predicate),
        consequent: Box::new(consequent),
        alternative: Box::new(alternative),
    };
    proof {
        assert(result@ == (Expr::If {
            predicate: Box::new(pv),
            consequent: Box::new(cv),
            alternative: Box::new(av),
        }));
    }
    Ok(result)
}

/// `let` name `=` bound `in` body, or
/// `let rec` name `= fun` parameter `->` body `in` body: the only form
/// that yields a `LetRec` node.
fn parse_let(tokens: &mut VecDeque<String>) -> (r: Result<Expression, ParseError>)
    ensures
        final(tokens)@.len() <= old(tokens)@.len(),
        match r {
            Ok(e) => final(tokens)@.len() < old(tokens)@.len() && parse_spec_at(
                names_view(old(tokens)@),
                ParseMode::Let,
            ) == Ok::<(Expr, Seq<Seq<char>>), ParseErr>((e@, names_view(final(tokens)@))),
            Err(err) => parse_spec_at(names_view(old(tokens)@), ParseMode::Let) == Err::<
                (Expr, Seq<Seq<char>>),
                ParseErr,
            >(err@),
        },
    decreases old(tokens)@.len(), 1int,
{
    expect(tokens, "let")?;

    proof {
        if tokens@.len() > 0 {
            assert(names_view(tokens@)[0] == tokens@[0]@);
        }
    }
    let is_rec = match peek(tokens) {
        Some(t) => token_is(t, "rec"),
        None => false,
    };
    if is_rec {
        let ghost before_rec = tokens@;
        let _ = next(tokens);
        proof {
            lemma_names_view_drop_first(before_rec);
            if tokens@.len() > 0 {
                assert(names_view(tokens@)[0] == tokens@[0]@);
            }
        }

        let ghost before_name = tokens@;
        let name = match next(tokens) {
            Some(t) => t,
            None => {
                return Err(ParseError::Empty);
            },
        };
        proof {
            lemma_names_view_drop_first(before_name);
        }
        if !is_identifier(&name) {
            return Err(ParseError::InvalidSyntax(name));
        }
        expect(tokens, "=")?;

        expect(tokens, "fun")?;
        let ghost before_param = tokens@;
        let parameter = match next(tokens) {
            Some(t) => t,
            None => {
                return Err(ParseError::Empty);
            },
        };
        proof {
            lemma_names_view_drop_first(before_param);
        }
        if !is_identifier(&parameter) {
            return Err(ParseError::InvalidSyntax(parameter));
        }
        expect(tokens, "->")?;
        let function_body = parse_expr(tokens, 0)?;
        let ghost paramv = parameter@;
        let ghost fbv = function_body@;
        let fun_expr = Expression::Fun { parameter, body: Box::new(function_body) };
        proof {
            assert(fun_expr@ == (Expr::Fun { parameter: paramv, body: Box::new(fbv) }));
        }

        expect(tokens, "in")?;
        let body = parse_expr(tokens, 0)?;
        let ghost nv = name@;
        let ghost fev = fun_expr@;
        let ghost bv = body@;
        let result = Expression::LetRec {
            variable: name,
            bound_function: Box::new(fun_expr),
            body: Box::new(body),
        };
        proof {
            assert(result@ == (Expr::LetRec {
                variable: nv,
                bound_function: Box::new(fev),
                body: Box::new(bv),
            }));
        }
        return Ok(result);
    }

    let ghost before_name = tokens@;
    let name = match next(tokens) {
        Some(t) => t,
        None => {
            return Err(ParseError::Empty);
        },
    };
    proof {
        lemma_names_view_drop_first(before_name);
    }
    if !is_identifier(&name) {
        return Err(ParseError::InvalidSyntax(name));
    }
    expect(tokens, "=")?;
    let bound = parse_expr(tokens, 0)?;
    expect(tokens, "in")?;
    let body = parse_expr(tokens, 0)?;
    let ghost nv = name@;
    let ghost bdv = bound@;
    let ghost bv = body@;
    let result = Expression::Let { variable: name, bound: Box::new(bound), body: Box::new(body) };
    proof {
        assert(result@ == (Expr::Let { variable: nv, bound: Box::new(bdv), body: Box::new(bv) }));
    }
    Ok(result)
}

/// `fun` parameter `->` body.
fn parse_fun(tokens: &mut VecDeque<String>) -> (r: Result<Expression, ParseError>)
    ensures
        final(tokens)@.len() <= old(tokens)@.len(),
        match r {
            Ok(e) => final(tokens)@.len() < old(tokens)@.len() && parse_spec_at(
                names_view(old(tokens)@),
                ParseMode::Fun,
            ) == Ok::<(Expr, Seq<Seq<char>>), ParseErr>((e@, names_view(final(tokens)@))),
            Err(err) => parse_spec_at(names_view(old(tokens)@), ParseMode::Fun) == Err::<
                (Expr, Seq<Seq<char>>),
                ParseErr,
            >(err@),
        },
    decreases old(tokens)@.len(), 1int,
{
    expect(tokens, "fun")?;
    let ghost before_param = tokens@;
    let parameter = match next(tokens) {
        Some(t) => t,
        None => {
            return Err(ParseError::Empty);
        },
    };
    proof {
        lemma_names_view_drop_first(before_param);
    }
    if !is_identifier(&parameter) {
        return Err(ParseError::InvalidSyntax(parameter));
    }
    expect(tokens, "->")?;
    let body = parse_expr(tokens, 0)?;
    let ghost paramv = parameter@;
    let ghost bv = body@;
    let result = Expression::Fun { parameter, body: Box::new(body) };
    proof {
        assert(result@ == (Expr::Fun { parameter: paramv, body: Box::new(bv) }));
    }
    Ok(result)
}

/// `match` scrutinee `with [] ->` nil case `|` head `::` tail `->` cons
/// case.
fn parse_match(tokens: &mut VecDeque<String>) -> (r: Result<Expression, ParseError>)
    ensures
        final(tokens)@.len() <= old(tokens)@.len(),
        match r {
            Ok(e) => final(tokens)@.len() < old(tokens)@.len() && parse_spec_at(
                names_view(old(tokens)@),
                ParseMode::Match,
            ) == Ok::<(Expr, Seq<Seq<char>>), ParseErr>((e@, names_view(final(tokens)@))),
            Err(err) => parse_spec_at(names_view(old(tokens)@), ParseMode::Match) == Err::<
                (Expr, Seq<Seq<char>>),
                ParseErr,
            >(err@),
        },
    decreases old(tokens)@.len(), 1int,
{
    expect(tokens, "match")?;
    let scrutinee = parse_expr(tokens, 0)?;
    expect(tokens, "with")?;

    expect(tokens, "[]")?;
    expect(tokens, "->")?;
    let nil_case = parse_expr(tokens, 0)?;
    expect(tokens, "|")?;
    let ghost before_head = tokens@;
    let head = match next(tokens) {
        Some(t) => t,
        None => {
            return Err(ParseError::Empty);
        },
    };
    proof {
        lemma_names_view_drop_first(before_head);
    }
    if !is_identifier(&head) {
        return Err(ParseError::InvalidSyntax(head));
    }
    expect(tokens, "::")?;
    let ghost before_tail = tokens@;
    let tail = match next(tokens) {
        Some(t) => t,
        None => {
            return Err(ParseError::Empty);
        },
    };
    proof {
        lemma_names_view_drop_first(before_tail);
    }
    if !is_identifier(&tail) {
        return Err(ParseError::InvalidSyntax(tail));
    }
    expect(tokens, "->")?;
    let cons_body = parse_expr(tokens, 0)?;
    let ghost sv = scrutinee@;
    let ghost niv = nil_case@;
    let ghost hv = head@;
    let ghost tv = tail@;
    let ghost cbv = cons_body@;
    let result = Expression::Match {
        scrutinee: Box::new(scrutinee),
        nil_case: Box::new(nil_case),
        cons_pattern: (head, tail, Box::new(cons_body)),
    };
    proof {
        assert(result@ == (Expr::Match {
            scrutinee: Box::new(sv),
            nil_case: Box::new(niv),
            car_name: hv,
            cdr_name: tv,
            cons_case: Box::new(cbv),
        }));
    }
    Ok(result)
}

/// A chain of juxtaposed atoms, associated to the left.
#[verifier::loop_isolation(false)]
fn parse_application(tokens: &mut VecDeque<String>) -> (r: Result<Expression, ParseError>)
    ensures
        final(tokens)@.len() <= old(tokens)@.len(),
        match r {
            Ok(e) => final(tokens)@.len() < old(tokens)@.len() && parse_spec_at(
                names_view(old(tokens)@),
                ParseMode::Application,
            ) == Ok::<(Expr, Seq<Seq<char>>), ParseErr>((e@, names_view(final(tokens)@))),
            Err(err) => parse_spec_at(names_view(old(tokens)@), ParseMode::Application) == Err::<
                (Expr, Seq<Seq<char>>),
                ParseErr,
            >(err@),
        },
    decreases old(tokens)@.len(), 1int,
{
    let ghost entry_len = tokens@.len();
    let ghost t0 = names_view(tokens@);
    let mut func = parse_atom(tokens)?;
    loop
        invariant
            tokens@.len() < entry_len,
            parse_spec_at(t0, ParseMode::Application) == parse_spec_at(
                names_view(tokens@),
                ParseMode::AppArgs(func@),
            ),
        decreases tokens@.len(),
    {
        proof {
            if tokens@.len() > 0 {
                assert(names_view(tokens@)[0] == tokens@[0]@);
            }
        }
        let stop = match peek(tokens) {
            Some(t) => {
                if token_is(t, "then") || token_is(t, "else") || token_is(t, "in") || token_is(
                    t,
                    "|",
                ) || token_is(t, "->") || token_is(t, "with") {
                    true
                } else if precedence(t).is_some() {
                    true
                } else {
                    false
                }
            },
            None => true,
        };
        if stop {
            break ;
        }
        if !starts_primary(tokens) {
            break ;
        }
        let argument = match parse_atom(tokens) {
            Ok(e) => e,
            Err(e) => {
                return Err(e);
            },
        };
        let ghost fv = func@;
        let ghost argv = argument@;
        func = Expression::App { function: Box::new(func), argument: Box::new(argument) };
        proof {
            assert(func@ == (Expr::App { function: Box::new(fv), argument: Box::new(argv) }));
        }
    }
    Ok(func)
}

/// An atom: an integer or boolean literal, the empty list, a
/// parenthesized expression, or a variable.
fn parse_atom(tokens: &mut VecDeque<String>) -> (r: Result<Expression, ParseError>)
    ensures
        final(tokens)@.len() <= old(tokens)@.len(),
        match r {
            Ok(e) => final(tokens)@.len() < old(tokens)@.len() && parse_spec_at(
                names_view(old(tokens)@),
                ParseMode::Atom,
            ) == Ok::<(Expr, Seq<Seq<char>>), ParseErr>((e@, names_view(final(tokens)@))),
            Err(err) => parse_spec_at(names_view(old(tokens)@), ParseMode::Atom) == Err::<
                (Expr, Seq<Seq<char>>),
                ParseErr,
            >(err@),
        },
    decreases old(tokens)@.len(), 0int,
{
    let ghost before = tokens@;
    let t = match next(tokens) {
        Some(t) => t,
        None => {
            return Err(ParseError::Empty);
        },
    };
    proof {
        assert(names_view(before)[0] == t@);
        lemma_names_view_drop_first(before);
    }
    if let Some(n) = parse_isize(&t) {
        return Ok(Expression::Integer(n));
    }
    if token_is(&t, "true") {
        return Ok(Expression::Bool(true));
    }
    if token_is(&t, "false") {
        return Ok(Expression::Bool(false));
    }
    if token_is(&t, "(") {
        let inner = parse_expr(tokens, 0)?;
        let ghost before_close = tokens@;
        let closing = match next(tokens) {
            Some(s) => s,
            None => {
                return Err(ParseError::Unclosed);
            },
        };
        proof {
            assert(names_view(before_close)[0] == closing@);
            lemma_names_view_drop_first(before_close);
        }
        if !token_is(&closing, ")") {
            return Err(ParseError::Unexpected(closing));
        }
        return Ok(inner);
    }
    if token_is(&t, "[]") {
        return Ok(Expression::Nil);
    }
    if is_identifier(&t) {
        return Ok(Expression::Variable(t));
    }
    Err(ParseError::Unexpected(t))
}

/// A worked scenario: the token sequence of `3 + 5 * 2` parses to
/// `3 + (5 * 2)`, because `*` binds tighter than `+`.
#[verifier::rlimit(100)]
#[verifier::spinoff_prover]
pub proof fn lemma_parse_arithmetic_scenario()
    ensures
        parse_spec(seq!["3"@, "+"@, "5"@, "*"@, "2"@]) == Ok::<Expr, ParseErr>(
            Expr::Plus(
                Box::new(Expr::Integer(3)),
                Box::new(Expr::Times(Box::new(Expr::Integer(5)), Box::new(Expr::Integer(2)))),
            ),
        ),
{
    reveal_strlit("3");
    reveal_strlit("+");
    reveal_strlit("5");
    reveal_strlit("*");
    reveal_strlit("2");
    reveal_strlit("if");
    reveal_strlit("let");
    reveal_strlit("fun");
    reveal_strlit("match");
    reveal_strlit("then");
    reveal_strlit("else");
    reveal_strlit("in");
    reveal_strlit("|");
    reveal_strlit("->");
    reveal_strlit("with");
    reveal_strlit("-");
    reveal_strlit("<");
    reveal_strlit("::");
    let s0 = seq!["3"@, "+"@, "5"@, "*"@, "2"@];
    let s1 = seq!["+"@, "5"@, "*"@, "2"@];
    let s2 = seq!["5"@, "*"@, "2"@];
    let s3 = seq!["*"@, "2"@];
    let s4 = seq!["2"@];
    let s5 = Seq::<Seq<char>>::empty();
    assert(s0.drop_first() =~= s1);
    assert(s1.drop_first() =~= s2);
    assert(s2.drop_first() =~= s3);
    assert(s3.drop_first() =~= s4);
    assert(s4.drop_first() =~= s5);

    // The three integer literals.
    assert("3"@ =~= seq!['3']);
    assert("5"@ =~= seq!['5']);
    assert("2"@ =~= seq!['2']);
    assert(digits_value(seq!['3']) == 3) by {
        assert(seq!['3'].len() == 1);
        assert(seq!['3'].last() == '3');
        assert('3' as u32 == 51);
        assert(seq!['3'].drop_last() =~= Seq::<char>::empty());
        assert(digits_value(Seq::<char>::empty()) == 0);
    }
    assert(digits_value(seq!['5']) == 5) by {
        assert(seq!['5'].drop_last() =~= Seq::<char>::empty());
    }
    assert(digits_value(seq!['2']) == 2) by {
        assert(seq!['2'].drop_last() =~= Seq::<char>::empty());
    }
    assert(digits_value("3"@) == 3);
    assert(digits_value("5"@) == 5);
    assert(digits_value("2"@) == 2);
    assert(int_literal_body("3"@) == "3"@ && int_token_value("3"@) == 3);
    assert(int_literal_body("5"@) == "5"@ && int_token_value("5"@) == 5);
    assert(int_literal_body("2"@) == "2"@ && int_token_value("2"@) == 2);
    assert(is_int_literal("3"@) && is_int_literal("5"@) && is_int_literal("2"@));
    let e3 = Expr::Integer(3);
    let e5 = Expr::Integer(5);
    let e2 = Expr::Integer(2);
    let times = Expr::Times(Box::new(e5), Box::new(e2));
    let plus = Expr::Plus(Box::new(e3), Box::new(times));

    // Atoms.
    assert(parse_spec_at(s0, ParseMode::Atom) == Ok::<(Expr, Seq<Seq<char>>), ParseErr>(
        (e3, s1),
    ));
    assert(parse_spec_at(s2, ParseMode::Atom) == Ok::<(Expr, Seq<Seq<char>>), ParseErr>(
        (e5, s3),
    ));
    assert(parse_spec_at(s4, ParseMode::Atom) == Ok::<(Expr, Seq<Seq<char>>), ParseErr>(
        (e2, s5),
    ));

    // Application chains stop at the operators and at the end.
    assert(!application_stop("+"@) && spec_precedence("+"@) == Some((60int, Assoc::Left)));
    assert(!application_stop("*"@) && spec_precedence("*"@) == Some((70int, Assoc::Left)));
    assert(parse_spec_at(s1, ParseMode::AppArgs(e3)) == Ok::<(Expr, Seq<Seq<char>>), ParseErr>(
        (e3, s1),
    ));
    assert(parse_spec_at(s3, ParseMode::AppArgs(e5)) == Ok::<(Expr, Seq<Seq<char>>), ParseErr>(
        (e5, s3),
    ));
    assert(parse_spec_at(s5, ParseMode::AppArgs(e2)) == Ok::<(Expr, Seq<Seq<char>>), ParseErr>(
        (e2, s5),
    ));
    assert(parse_spec_at(s0, ParseMode::Application) == Ok::<(Expr, Seq<Seq<char>>), ParseErr>(
        (e3, s1),
    ));
    assert(parse_spec_at(s2, ParseMode::Application) == Ok::<(Expr, Seq<Seq<char>>), ParseErr>(
        (e5, s3),
    ));
    assert(parse_spec_at(s4, ParseMode::Application) == Ok::<(Expr, Seq<Seq<char>>), ParseErr>(
        (e2, s5),
    ));

    // Climbing: `2` alone, then `5 * 2`, then the whole sum.
    assert(parse_spec_at(s5, ParseMode::ExprOps(e2, 71)) == Ok::<
        (Expr, Seq<Seq<char>>),
        ParseErr,
    >((e2, s5)));
    assert(parse_spec_at(s4, ParseMode::Expr(71)) == Ok::<(Expr, Seq<Seq<char>>), ParseErr>(
        (e2, s5),
    ));
    assert(binop_spec("*"@, e5, e2) == Ok::<Expr, ParseErr>(times));
    assert(parse_spec_at(s5, ParseMode::ExprOps(times, 61)) == Ok::<
        (Expr, Seq<Seq<char>>),
        ParseErr,
    >((times, s5)));
    assert(parse_spec_at(s3, ParseMode::ExprOps(e5, 61)) == Ok::<
        (Expr, Seq<Seq<char>>),
        ParseErr,
    >((times, s5)));
    assert(parse_spec_at(s2, ParseMode::Expr(61)) == Ok::<(Expr, Seq<Seq<char>>), ParseErr>(
        (times, s5),
    ));
    assert(binop_spec("+"@, e3, times) == Ok::<Expr, ParseErr>(plus));
    assert(parse_spec_at(s5, ParseMode::ExprOps(plus, 0)) == Ok::<
        (Expr, Seq<Seq<char>>),
        ParseErr,
    >((plus, s5)));
    assert(parse_spec_at(s1, ParseMode::ExprOps(e3, 0)) == Ok::<
        (Expr, Seq<Seq<char>>),
        ParseErr,
    >((plus, s5)));
    assert(parse_spec_at(s0, ParseMode::Expr(0)) == Ok::<(Expr, Seq<Seq<char>>), ParseErr>(
        (plus, s5),
    ));
}

} // verus!
