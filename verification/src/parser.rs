//! The verified parser: a recursive-descent implementation of the grammar
//! in `grammar`, proved to return exactly what the grammar's specification
//! functions describe.

use vstd::prelude::*;

use crate::errors::ParseError;
use crate::expression::{Comparison, Expression};
use crate::grammar::{
    digits_to, digits_val, is_digit, neg_signs, p_base_term, p_die, p_expression, p_number,
    p_parens, p_parse, p_sum, p_sum_rest, p_term, p_term_rest, p_unsigned, signs_to, ws_to,
};
use vstd::string::StringSliceAdditionalSpecFns;

verus! {

/// Step past whitespace.
fn skip_ws(s: &[u8], i: usize) -> (r: usize)
    requires
        i <= s@.len(),
    ensures
        r == ws_to(s@, i as int),
        i <= r <= s@.len(),
{
    let mut j = i;
    while j < s.len() && (s[j] == 32 || s[j] == 9 || s[j] == 10 || s[j] == 13)  // whitespace
        invariant
            i <= j <= s@.len(),
            ws_to(s@, i as int) == ws_to(s@, j as int),
        decreases s@.len() - j,
    {
        j = j + 1;
    }
    j
}

/// Step past decimal digits.
fn scan_digits(s: &[u8], i: usize) -> (r: usize)
    requires
        i <= s@.len(),
    ensures
        r == digits_to(s@, i as int),
        i <= r <= s@.len(),
        forall|k: int| i <= k < r ==> is_digit(s@[k]),
{
    let mut j = i;
    while j < s.len() && 48 <= s[j] && s[j] <= 57  // '0' through '9'
        invariant
            i <= j <= s@.len(),
            digits_to(s@, i as int) == digits_to(s@, j as int),
            forall|k: int| i <= k < j ==> is_digit(s@[k]),
        decreases s@.len() - j,
    {
        j = j + 1;
    }
    j
}

/// Digit runs weakly grow in value as they extend.
proof fn lemma_digits_val_grows(s: Seq<u8>, i: int, k: int, j: int)
    requires
        i <= k <= j <= s.len(),
        forall|m: int| i <= m < j ==> is_digit(s[m]),
    ensures
        0 <= digits_val(s, i, k) <= digits_val(s, i, j),
    decreases j - k,
{
    if k == j {
        lemma_digits_val_nonneg(s, i, k);
    } else {
        lemma_digits_val_grows(s, i, k, j - 1);
        assert(is_digit(s[j - 1]));
        assert(digits_val(s, i, j - 1) * 10 >= digits_val(s, i, j - 1)) by (nonlinear_arith)
            requires
                digits_val(s, i, j - 1) >= 0,
        ;
    }
}

/// The value of a digit run is never negative.
proof fn lemma_digits_val_nonneg(s: Seq<u8>, i: int, j: int)
    requires
        i <= j <= s.len(),
        forall|m: int| i <= m < j ==> is_digit(s[m]),
    ensures
        digits_val(s, i, j) >= 0,
    decreases j - i,
{
    if i < j {
        lemma_digits_val_nonneg(s, i, j - 1);
        assert(is_digit(s[j - 1]));
        assert(digits_val(s, i, j - 1) * 10 >= 0) by (nonlinear_arith)
            requires
                digits_val(s, i, j - 1) >= 0,
        ;
    }
}

/// Parse an unsigned number: one or more decimal digits.
fn parse_unsigned(s: &[u8], i: usize) -> (r: Result<(u32, usize), ParseError>)
    requires
        i <= s@.len(),
    ensures
        (match (r, p_unsigned(s@, i as int)) {
            (Ok((v, j)), Ok((sv, sj))) => v == sv && j == sj,
            (Err(a), Err(b)) => a == b,
            _ => false,
        }),
        r matches Ok(t) ==> i < t.1 <= s@.len(),
{
    let je = scan_digits(s, i);
    if je == i {
        return Err(ParseError::Malformed);
    }
    let mut val: u64 = 0;
    let mut k = i;
    while k < je
        invariant
            i <= k <= je <= s@.len(),
            je == digits_to(s@, i as int),
            forall|m: int| i <= m < je ==> is_digit(s@[m]),
            val == digits_val(s@, i as int, k as int),
            val <= u32::MAX,
        decreases je - k,
    {
        let d = s[k];
        proof {
            assert(is_digit(s@[k as int]));
        }
        let step = val * 10 + ((d - 48) as u64);
        proof {
            assert(step == digits_val(s@, i as int, k as int + 1));
        }
        if step > 0xffff_ffffu64 {
            proof {
                lemma_digits_val_grows(s@, i as int, k as int + 1, je as int);
            }
            return Err(ParseError::InvalidNumber);
        }
        val = step;
        k = k + 1;
    }
    Ok((val as u32, je))
}

/// Parse a signed number: an optional contiguous run of signs whose net
/// sign is the parity of its `-` count, then an unsigned number.
pub fn parse_number(s: &[u8], i: usize) -> (r: Result<(i32, usize), ParseError>)
    requires
        i <= s@.len(),
    ensures
        (match (r, p_number(s@, i as int)) {
            (Ok((v, j)), Ok((sv, sj))) => v == sv && j == sj,
            (Err(a), Err(b)) => a == b,
            _ => false,
        }),
        r matches Ok(t) ==> i < t.1 <= s@.len(),
{
    let i1 = skip_ws(s, i);
    let mut k = i1;
    let mut neg = false;
    while k < s.len() && (s[k] == 43 || s[k] == 45)  // '+' or '-'
        invariant
            i1 <= k <= s@.len(),
            signs_to(s@, i1 as int) == signs_to(s@, k as int),
            neg == (neg_signs(s@, i1 as int, k as int) % 2 == 1),
        decreases s@.len() - k,
    {
        if s[k] == 45 {  // '-'
            neg = !neg;
        }
        proof {
            assert(neg_signs(s@, i1 as int, k as int + 1) == neg_signs(s@, i1 as int, k as int)
                + if s@[k as int] == 45 {
                1nat
            } else {
                0nat
            });
        }
        k = k + 1;
    }
    let i2 = skip_ws(s, k);
    match parse_unsigned(s, i2) {
        Ok((v, j)) => {
            if neg {
                if v > 0x8000_0000u32 {
                    Err(ParseError::InvalidNumber)
                } else if v == 0x8000_0000u32 {
                    Ok((i32::MIN, j))
                } else {
                    Ok((-(v as i32), j))
                }
            } else {
                if v > 0x7fff_ffffu32 {
                    Err(ParseError::InvalidNumber)
                } else {
                    Ok((v as i32, j))
                }
            }
        },
        Err(e) => Err(e),
    }
}

/// Parse a constant: a signed number.
pub fn parse_constant(s: &[u8], i: usize) -> (r: Result<(Expression, usize), ParseError>)
    requires
        i <= s@.len(),
    ensures
        (match (r, p_number(s@, i as int)) {
            (Ok((e, j)), Ok((sv, sj))) => e == Expression::Constant(sv) && j == sj,
            (Err(a), Err(b)) => a == b,
            _ => false,
        }),
        r matches Ok(t) ==> i < t.1 <= s@.len(),
{
    match parse_number(s, i) {
        Ok((n, j)) => Ok((Expression::Constant(n), j)),
        Err(e) => Err(e),
    }
}

/// Parse a die: `d` then its side count.
pub fn parse_die(s: &[u8], i: usize) -> (r: Result<(Expression, usize), ParseError>)
    requires
        i <= s@.len(),
    ensures
        (match (r, p_die(s@, i as int)) {
            (Ok((e, j)), Ok((se, sj))) => e == se && j == sj,
            (Err(a), Err(b)) => a == b,
            _ => false,
        }),
        r matches Ok(t) ==> i < t.1 <= s@.len(),
{
    let j = skip_ws(s, i);
    if j < s.len() && s[j] == 100 {  // 'd'
        let j2 = skip_ws(s, j + 1);
        match parse_unsigned(s, j2) {
            Ok((v, j3)) => Ok((Expression::Die(v), j3)),
            Err(e) => Err(e),
        }
    } else {
        Err(ParseError::Malformed)
    }
}

/// Parse a parenthesized expression.
pub fn parse_parens(s: &[u8], i: usize) -> (r: Result<(Expression, usize), ParseError>)
    requires
        i <= s@.len(),
    ensures
        (match (r, p_parens(s@, i as int)) {
            (Ok((e, j)), Ok((se, sj))) => e == se && j == sj,
            (Err(a), Err(b)) => a == b,
            _ => false,
        }),
        r matches Ok(t) ==> i < t.1 <= s@.len(),
    decreases s@.len() - i, 0int,
{
    let j = skip_ws(s, i);
    if j < s.len() && s[j] == 40 {  // '('
        match parse_expression(s, j + 1) {
            Ok((e, j2)) => {
                let j3 = skip_ws(s, j2);
                if j3 < s.len() && s[j3] == 41 {  // ')'
                    Ok((e, j3 + 1))
                } else {
                    Err(ParseError::Malformed)
                }
            },
            Err(e) => Err(e),
        }
    } else {
        Err(ParseError::Malformed)
    }
}

/// Parse a tightest-binding term: a unary function, a parenthesized
/// expression, a die or a signed constant.
pub fn parse_base_term(s: &[u8], i: usize) -> (r: Result<(Expression, usize), ParseError>)
    requires
        i <= s@.len(),
    ensures
        (match (r, p_base_term(s@, i as int)) {
            (Ok((e, j)), Ok((se, sj))) => e == se && j == sj,
            (Err(a), Err(b)) => a == b,
            _ => false,
        }),
        r matches Ok(t) ==> i < t.1 <= s@.len(),
    decreases s@.len() - i, 1int,
{
    let j = skip_ws(s, i);
    if j < s.len() && s.len() - j >= 3 && s[j] == 97 && s[j + 1] == 100 && s[j + 2] == 118 {  // "adv"
        match parse_parens(s, j + 3) {
            Ok((e, j2)) => Ok((Expression::Advantage(Box::new(e)), j2)),
            Err(e) => Err(e),
        }
    } else if j < s.len() && s.len() - j >= 3 && s[j] == 100 && s[j + 1] == 105 && s[j + 2]
        == 115 {  // "dis"
        match parse_parens(s, j + 3) {
            Ok((e, j2)) => Ok((Expression::Disadvantage(Box::new(e)), j2)),
            Err(e) => Err(e),
        }
    } else if j < s.len() && s[j] == 40 {
        parse_parens(s, j)
    } else if j < s.len() && s[j] == 100 {  // 'd'
        parse_die(s, j)
    } else if j < s.len() && (48 <= s[j] && s[j] <= 57 || s[j] == 43 || s[j] == 45) {  // digit or sign
        match parse_number(s, j) {
            Ok((n, j2)) => Ok((Expression::Constant(n), j2)),
            Err(e) => Err(e),
        }
    } else {
        Err(ParseError::Malformed)
    }
}

/// Parse a multiplication level term: base terms folded to the left under
/// `*` and `/`.
pub fn parse_term(s: &[u8], i: usize) -> (r: Result<(Expression, usize), ParseError>)
    requires
        i <= s@.len(),
    ensures
        (match (r, p_term(s@, i as int)) {
            (Ok((e, j)), Ok((se, sj))) => e == se && j == sj,
            (Err(a), Err(b)) => a == b,
            _ => false,
        }),
        r matches Ok(t) ==> i < t.1 <= s@.len(),
    decreases s@.len() - i, 3int,
{
    let first = match parse_base_term(s, i) {
        Ok(t) => t,
        Err(e) => {
            return Err(e);
        },
    };
    let mut acc = first.0;
    let mut pos = first.1;
    loop
        invariant
            i < pos <= s@.len(),
            p_term(s@, i as int) == p_term_rest(s@, acc, pos as int),
        decreases s@.len() - pos,
    {
        let j = skip_ws(s, pos);
        if !(j < s.len() && (s[j] == 42 || s[j] == 47)) {  // '*' or '/'
            proof {
                assert(p_term_rest(s@, acc, pos as int) == Ok::<(Expression, int), ParseError>(
                    (acc, pos as int),
                ));
            }
            return Ok((acc, pos));
        }
        let mul = s[j] == 42;  // '*'
        match parse_base_term(s, j + 1) {
            Ok((e2, i2)) => {
                acc = if mul {
                    Expression::Multiply(Box::new(acc), Box::new(e2))
                } else {
                    Expression::Divide(Box::new(acc), Box::new(e2))
                };
                pos = i2;
            },
            Err(e) => {
                return Err(e);
            },
        }
    }
}

/// Parse an addition level expression: terms folded to the left under `+`
/// and `-`.
pub fn parse_sum(s: &[u8], i: usize) -> (r: Result<(Expression, usize), ParseError>)
    requires
        i <= s@.len(),
    ensures
        (match (r, p_sum(s@, i as int)) {
            (Ok((e, j)), Ok((se, sj))) => e == se && j == sj,
            (Err(a), Err(b)) => a == b,
            _ => false,
        }),
        r matches Ok(t) ==> i < t.1 <= s@.len(),
    decreases s@.len() - i, 5int,
{
    let first = match parse_term(s, i) {
        Ok(t) => t,
        Err(e) => {
            return Err(e);
        },
    };
    let mut acc = first.0;
    let mut pos = first.1;
    loop
        invariant
            i < pos <= s@.len(),
            p_sum(s@, i as int) == p_sum_rest(s@, acc, pos as int),
        decreases s@.len() - pos,
    {
        let j = skip_ws(s, pos);
        if !(j < s.len() && (s[j] == 43 || s[j] == 45)) {  // '+' or '-'
            proof {
                assert(p_sum_rest(s@, acc, pos as int) == Ok::<(Expression, int), ParseError>(
                    (acc, pos as int),
                ));
            }
            return Ok((acc, pos));
        }
        let plus = s[j] == 43;  // '+'
        match parse_term(s, j + 1) {
            Ok((e2, i2)) => {
                acc = if plus {
                    Expression::Sum(Box::new(acc), Box::new(e2))
                } else {
                    Expression::Diff(Box::new(acc), Box::new(e2))
                };
                pos = i2;
            },
            Err(e) => {
                return Err(e);
            },
        }
    }
}

/// Parse a full expression: a sum, optionally compared against a second
/// sum.
pub fn parse_expression(s: &[u8], i: usize) -> (r: Result<(Expression, usize), ParseError>)
    requires
        i <= s@.len(),
    ensures
        (match (r, p_expression(s@, i as int)) {
            (Ok((e, j)), Ok((se, sj))) => e == se && j == sj,
            (Err(a), Err(b)) => a == b,
            _ => false,
        }),
        r matches Ok(t) ==> i < t.1 <= s@.len(),
    decreases s@.len() - i, 6int,
{
    let (l, i1) = match parse_sum(s, i) {
        Ok(t) => t,
        Err(e) => {
            return Err(e);
        },
    };
    let j = skip_ws(s, i1);
    if j < s.len() && (s[j] == 62 || s[j] == 60 || s[j] == 61) {  // '>', '<' or '='
        let two = j + 1 < s.len() && s[j + 1] == 61 && (s[j] == 62 || s[j] == 60);  // ">=" or "<="
        let cmp = if s[j] == 62 {  // '>'
            if two {
                Comparison::GreaterThanOrEqualTo
            } else {
                Comparison::GreaterThan
            }
        } else if s[j] == 60 {  // '<'
            if two {
                Comparison::LessThanOrEqualTo
            } else {
                Comparison::LessThan
            }
        } else {
            Comparison::EqualTo
        };
        let j2 = if two {
            j + 2
        } else {
            j + 1
        };
        match parse_sum(s, j2) {
            Ok((rr, i2)) => Ok((Expression::Compare(Box::new(l), Box::new(rr), cmp), i2)),
            Err(e) => Err(e),
        }
    } else {
        Ok((l, i1))
    }
}

/// Parse an input string into an `Expression` and report errors: the
/// whole input must be one expression of the dice grammar, up to trailing
/// whitespace.
pub fn parse(input: &str) -> (res: Result<Expression, ParseError>)
    ensures
        res == p_parse(input.spec_bytes()),
{
    let s = input.as_bytes();
    match parse_expression(s, 0) {
        Ok((e, i)) => {
            let j = skip_ws(s, i);
            if j == s.len() {
                Ok(e)
            } else {
                Err(ParseError::TrailingInput)
            }
        },
        Err(e) => Err(e),
    }
}

} // verus!
