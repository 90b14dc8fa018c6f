//! The dice-notation grammar, stated as specification functions over the
//! raw bytes of an input string.
//!
//! Each function consumes from a position and yields the parsed value with
//! the position just past it, or the reason the input was rejected.  The
//! grammar is the classic precedence-climbing one: unary functions,
//! parentheses, dice and signed constants bind tightest, then `*` and `/`
//! folded to the left, then `+` and `-` folded to the left, then at most
//! one comparison; whitespace may stand between any two tokens.  The
//! public `parse` function is proved to return exactly what `p_parse`
//! describes.

use vstd::prelude::*;

use crate::errors::ParseError;
use crate::expression::{Comparison, Expression};

verus! {

/// Whitespace: space, tab, line feed or carriage return.
pub open spec fn is_ws(c: u8) -> bool {
    c == 32 || c == 9 || c == 10 || c == 13  // space, tab, line feed, carriage return
}

/// A decimal digit.
pub open spec fn is_digit(c: u8) -> bool {
    48 <= c <= 57  // '0' through '9'
}

/// A sign: `+` or `-`.
pub open spec fn is_sign(c: u8) -> bool {
    c == 43 || c == 45  // '+' or '-'
}

/// The first position at or after `i` not holding whitespace.
pub open spec fn ws_to(s: Seq<u8>, i: int) -> int
    decreases s.len() - i,
{
    if i < s.len() && is_ws(s[i]) {
        ws_to(s, i + 1)
    } else {
        i
    }
}

/// The first position at or after `i` not holding a sign.
pub open spec fn signs_to(s: Seq<u8>, i: int) -> int
    decreases s.len() - i,
{
    if i < s.len() && is_sign(s[i]) {
        signs_to(s, i + 1)
    } else {
        i
    }
}

/// The number of `-` signs among `s[i..j)`.
pub open spec fn neg_signs(s: Seq<u8>, i: int, j: int) -> nat
    decreases j - i,
{
    if i < j {
        neg_signs(s, i, j - 1) + if s[j - 1] == 45 {  // '-'
            1nat
        } else {
            0nat
        }
    } else {
        0
    }
}

/// The first position at or after `i` not holding a digit.
pub open spec fn digits_to(s: Seq<u8>, i: int) -> int
    decreases s.len() - i,
{
    if i < s.len() && is_digit(s[i]) {
        digits_to(s, i + 1)
    } else {
        i
    }
}

/// The value of the digit run `s[i..j)`.
pub open spec fn digits_val(s: Seq<u8>, i: int, j: int) -> int
    decreases j - i,
{
    if i < j {
        digits_val(s, i, j - 1) * 10 + (s[j - 1] - 48)
    } else {
        0
    }
}

/// `unsigned-number := one-or-more decimal digits`, valued in the width of
/// a die's side count; a longer run is an invalid numeric literal.
pub open spec fn p_unsigned(s: Seq<u8>, i: int) -> Result<(u32, int), ParseError> {
    let j = digits_to(s, i);
    if j == i {
        Err(ParseError::Malformed)
    } else if digits_val(s, i, j) > u32::MAX {
        Err(ParseError::InvalidNumber)
    } else {
        Ok((digits_val(s, i, j) as u32, j))
    }
}

/// `number := optional run of signs, then unsigned-number`; the run's net
/// sign is negative exactly when it holds an odd count of `-`, and the
/// signed value must fit a roll result.
pub open spec fn p_number(s: Seq<u8>, i: int) -> Result<(i32, int), ParseError> {
    let i1 = ws_to(s, i);
    let k = signs_to(s, i1);
    let neg = neg_signs(s, i1, k) % 2 == 1;
    let i2 = ws_to(s, k);
    match p_unsigned(s, i2) {
        Ok((v, j)) => if neg {
            if v > 0x8000_0000u32 {
                Err(ParseError::InvalidNumber)
            } else {
                Ok(((-(v as int)) as i32, j))
            }
        } else {
            if v > 0x7fff_ffffu32 {
                Err(ParseError::InvalidNumber)
            } else {
                Ok((v as i32, j))
            }
        },
        Err(e) => Err(e),
    }
}

/// `die := 'd' unsigned-number`.
pub open spec fn p_die(s: Seq<u8>, i: int) -> Result<(Expression, int), ParseError> {
    let j = ws_to(s, i);
    if j < s.len() && s[j] == 100 {  // 'd'
        let j2 = ws_to(s, j + 1);
        match p_unsigned(s, j2) {
            Ok((v, j3)) => Ok((Expression::Die(v), j3)),
            Err(e) => Err(e),
        }
    } else {
        Err(ParseError::Malformed)
    }
}

/// `base-term := ('adv' | 'dis') parens | parens | die | constant`; the
/// alternatives are told apart by their first byte after the whitespace.
pub open spec fn p_base_term(s: Seq<u8>, i: int) -> Result<(Expression, int), ParseError>
    decreases s.len() - i, 1int,
{
    let j = ws_to(s, i);
    if j >= i && j + 3 <= s.len() && s[j] == 97 && s[j + 1] == 100 && s[j + 2] == 118 {  // "adv"
        match p_parens(s, j + 3) {
            Ok((e, j2)) => Ok((Expression::Advantage(Box::new(e)), j2)),
            Err(e) => Err(e),
        }
    } else if j >= i && j + 3 <= s.len() && s[j] == 100 && s[j + 1] == 105 && s[j + 2] == 115 {  // "dis"
        match p_parens(s, j + 3) {
            Ok((e, j2)) => Ok((Expression::Disadvantage(Box::new(e)), j2)),
            Err(e) => Err(e),
        }
    } else if j >= i && j < s.len() && s[j] == 40 {  // '('
        p_parens(s, j)
    } else if j < s.len() && s[j] == 100 {  // 'd'
        p_die(s, j)
    } else if j < s.len() && (is_digit(s[j]) || is_sign(s[j])) {
        match p_number(s, j) {
            Ok((n, j2)) => Ok((Expression::Constant(n), j2)),
            Err(e) => Err(e),
        }
    } else {
        Err(ParseError::Malformed)
    }
}

/// `parens := '(' expression ')'`.
pub open spec fn p_parens(s: Seq<u8>, i: int) -> Result<(Expression, int), ParseError>
    decreases s.len() - i, 0int,
{
    let j = ws_to(s, i);
    if j >= i && j < s.len() && s[j] == 40 {  // '('
        match p_expression(s, j + 1) {
            Ok((e, j2)) => {
                let j3 = ws_to(s, j2);
                if j3 < s.len() && s[j3] == 41 {  // ')'
                    Ok((e, j3 + 1))
                } else {
                    Err(ParseError::Malformed)
                }
            },
            Err(e) => Err(e),
        }
    } else {
        Err(ParseError::Malformed)
    }
}

/// The left fold of `term := base-term (('*' | '/') base-term)*` from an
/// already-parsed left operand.
pub open spec fn p_term_rest(s: Seq<u8>, acc: Expression, i: int) -> Result<
    (Expression, int),
    ParseError,
>
    decreases s.len() - i, 2int,
{
    let j = ws_to(s, i);
    if j >= i && j < s.len() && (s[j] == 42 || s[j] == 47) {  // '*' or '/'
        match p_base_term(s, j + 1) {
            Ok((e2, i2)) => {
                let node = if s[j] == 42 {  // '*'
                    Expression::Multiply(Box::new(acc), Box::new(e2))
                } else {
                    Expression::Divide(Box::new(acc), Box::new(e2))
                };
                if i < i2 <= s.len() {
                    p_term_rest(s, node, i2)
                } else {
                    Err(ParseError::Malformed)
                }
            },
            Err(e) => Err(e),
        }
    } else {
        Ok((acc, i))
    }
}

/// `term := base-term (('*' | '/') base-term)*`, folded to the left.
pub open spec fn p_term(s: Seq<u8>, i: int) -> Result<(Expression, int), ParseError>
    decreases s.len() - i, 3int,
{
    match p_base_term(s, i) {
        Ok((e, i1)) => if i <= i1 <= s.len() {
            p_term_rest(s, e, i1)
        } else {
            Err(ParseError::Malformed)
        },
        Err(e) => Err(e),
    }
}

/// The left fold of `sum-expr := term (('+' | '-') term)*` from an
/// already-parsed left operand.
pub open spec fn p_sum_rest(s: Seq<u8>, acc: Expression, i: int) -> Result<
    (Expression, int),
    ParseError,
>
    decreases s.len() - i, 4int,
{
    let j = ws_to(s, i);
    if j >= i && j < s.len() && (s[j] == 43 || s[j] == 45) {  // '+' or '-'
        match p_term(s, j + 1) {
            Ok((e2, i2)) => {
                let node = if s[j] == 43 {  // '+'
                    Expression::Sum(Box::new(acc), Box::new(e2))
                } else {
                    Expression::Diff(Box::new(acc), Box::new(e2))
                };
                if i < i2 <= s.len() {
                    p_sum_rest(s, node, i2)
                } else {
                    Err(ParseError::Malformed)
                }
            },
            Err(e) => Err(e),
        }
    } else {
        Ok((acc, i))
    }
}

/// `sum-expr := term (('+' | '-') term)*`, folded to the left.
pub open spec fn p_sum(s: Seq<u8>, i: int) -> Result<(Expression, int), ParseError>
    decreases s.len() - i, 5int,
{
    match p_term(s, i) {
        Ok((e, i1)) => if i <= i1 <= s.len() {
            p_sum_rest(s, e, i1)
        } else {
            Err(ParseError::Malformed)
        },
        Err(e) => Err(e),
    }
}

/// `expression := sum-expr (('>' | '>=' | '<' | '<=' | '=') sum-expr)?`;
/// at most one comparison, so a second one is left unconsumed and rejected
/// by the full parse.
pub open spec fn p_expression(s: Seq<u8>, i: int) -> Result<(Expression, int), ParseError>
    decreases s.len() - i, 6int,
{
    match p_sum(s, i) {
        Ok((l, i1)) => {
            let j = ws_to(s, i1);
            if j < s.len() && (s[j] == 62 || s[j] == 60 || s[j] == 61) {  // '>', '<' or '='
                let two = j + 1 < s.len() && s[j + 1] == 61 && (s[j] == 62 || s[j] == 60);  // ">=" or "<="
                let cmp = if s[j] == 62 && two {  // '>'
                    Comparison::GreaterThanOrEqualTo
                } else if s[j] == 62 {
                    Comparison::GreaterThan
                } else if s[j] == 60 && two {  // '<'
                    Comparison::LessThanOrEqualTo
                } else if s[j] == 60 {
                    Comparison::LessThan
                } else {
                    Comparison::EqualTo
                };
                let j2 = if two {
                    j + 2
                } else {
                    j + 1
                };
                if i < j2 <= s.len() {
                    match p_sum(s, j2) {
                        Ok((r, i2)) => Ok(
                            (Expression::Compare(Box::new(l), Box::new(r), cmp), i2),
                        ),
                        Err(e) => Err(e),
                    }
                } else {
                    Err(ParseError::Malformed)
                }
            } else {
                Ok((l, i1))
            }
        },
        Err(e) => Err(e),
    }
}

/// `full-parse := expression, end of input`; trailing whitespace is
/// allowed, anything else left over is rejected.
pub open spec fn p_parse(s: Seq<u8>) -> Result<Expression, ParseError> {
    match p_expression(s, 0) {
        Ok((e, i)) => {
            let j = ws_to(s, i);
            if j == s.len() {
                Ok(e)
            } else {
                Err(ParseError::TrailingInput)
            }
        },
        Err(e) => Err(e),
    }
}

} // verus!
