use pips::expression::Comparison;
use pips::expression::Expression;
use pips::expression::Expression::{Advantage, Compare, Constant, Diff, Die, Disadvantage, Multiply, Sum};
use pips::parse;
use pips::parser::{parse_base_term, parse_constant, parse_die, parse_expression, parse_number, parse_parens, parse_sum};
use pips::ParseError;

fn b(e: Expression) -> Box<Expression> {
    Box::new(e)
}

#[test]
fn test_parse_number_success() {
    let cases = vec![
        ("-999999999", -999999999),
        ("-1234", -1234),
        ("---10", -10),
        ("-10", -10),
        ("-1", -1),
        ("0", 0),
        ("1", 1),
        ("+++--1", 1),
        ("10", 10),
        ("1234", 1234),
        ("--1234", 1234),
        ("999999999", 999999999),
    ];
    for (input, expected) in cases {
        let (actual, _) = parse_number(input.as_bytes(), 0).unwrap();
        assert_eq!(actual, expected, "input: {:?}", input);
    }
}

#[test]
fn test_parse_constant() {
    let cases = vec![
        ("4", Constant(4)),
        ("  5  ", Constant(5)),
        ("\n\t --10  ", Constant(10)),
        ("\n\t ---10  ", Constant(-10)),
    ];
    for (input, expected) in cases {
        let (actual, _) = parse_constant(input.as_bytes(), 0).unwrap();
        assert_eq!(actual, expected, "input: {:?}", input);
    }
}

#[test]
fn test_parse_die() {
    let cases = vec![
        ("d4", Die(4)),
        ("  d6", Die(6)),
        (" d10", Die(10)),
        ("\nd12", Die(12)),
        ("\td20  ", Die(20)),
    ];
    for (input, expected) in cases {
        let (actual, _) = parse_die(input.as_bytes(), 0).unwrap();
        assert_eq!(actual, expected, "input: {:?}", input);
    }
}

#[test]
fn test_parse_parens() {
    let cases = vec![
        ("(d4)", Die(4)),
        ("\t(\n--12)", Constant(12)),
        ("  (  ---+20)  ", Constant(-20)),
        (" ( d20 ) ", Die(20)),
        (" ( ( d20 ) ) ", Die(20)),
        (" ( ( ( d20 ) ) ) ", Die(20)),
    ];
    for (input, expected) in cases {
        let (actual, _) = parse_parens(input.as_bytes(), 0).unwrap();
        assert_eq!(actual, expected, "input: {:?}", input);
    }
}

#[test]
fn test_parse_unary_function() {
    let cases = vec![
        ("dis(d4)", Disadvantage(b(Die(4)))),
        (" dis ( d4 ) ", Disadvantage(b(Die(4)))),
        ("adv(d4)", Advantage(b(Die(4)))),
        (" adv( d4 ) ", Advantage(b(Die(4)))),
        (" adv ( d20 + d4 ) ", Advantage(b(Sum(b(Die(20)), b(Die(4)))))),
        (
            " adv ( d20 * d10 + d4 * 5 ) ",
            Advantage(b(Sum(
                b(Multiply(b(Die(20)), b(Die(10)))),
                b(Multiply(b(Die(4)), b(Constant(5)))),
            ))),
        ),
    ];
    for (input, expected) in cases {
        let (actual, _) = parse_base_term(input.as_bytes(), 0).unwrap();
        assert_eq!(actual, expected, "input: {:?}", input);
    }
}

#[test]
fn test_parse_sum() {
    let cases = vec![
        ("d4+d4", Sum(b(Die(4)), b(Die(4)))),
        (" d20\t\n + d4 ", Sum(b(Die(20)), b(Die(4)))),
        ("d20 + 4", Sum(b(Die(20)), b(Constant(4)))),
        (
            "d20 + d10 + d4 + 4",
            Sum(
                b(Sum(b(Sum(b(Die(20)), b(Die(10)))), b(Die(4)))),
                b(Constant(4)),
            ),
        ),
        ("d4-1", Diff(b(Die(4)), b(Constant(1)))),
        (" d12 - d4 ", Diff(b(Die(12)), b(Die(4)))),
        (
            "d20 + d10 - d4 + 4",
            Sum(
                b(Diff(b(Sum(b(Die(20)), b(Die(10)))), b(Die(4)))),
                b(Constant(4)),
            ),
        ),
        (
            "d20 + d10 - d4 + -4 ",
            Sum(
                b(Diff(b(Sum(b(Die(20)), b(Die(10)))), b(Die(4)))),
                b(Constant(-4)),
            ),
        ),
        (" d20 ", Die(20)),
    ];
    for (input, expected) in cases {
        let (actual, _) = parse_sum(input.as_bytes(), 0).unwrap();
        assert_eq!(actual, expected, "input: {:?}", input);
    }
}

#[test]
fn test_parse_compare() {
    let cases = vec![
        ("d4 > d4", Compare(b(Die(4)), b(Die(4)), Comparison::GreaterThan)),
        (
            "d4 >= d4",
            Compare(b(Die(4)), b(Die(4)), Comparison::GreaterThanOrEqualTo),
        ),
        ("d4 < d4", Compare(b(Die(4)), b(Die(4)), Comparison::LessThan)),
        (
            "d4 <= d4",
            Compare(b(Die(4)), b(Die(4)), Comparison::LessThanOrEqualTo),
        ),
        ("d4 = d4", Compare(b(Die(4)), b(Die(4)), Comparison::EqualTo)),
    ];
    for (input, expected) in cases {
        let (actual, _) = parse_expression(input.as_bytes(), 0).unwrap();
        assert_eq!(actual, expected, "input: {:?}", input);
    }
}

#[test]
fn test_parse_expression() {
    let cases = vec![
        ("d4", Die(4)),
        ("4", Constant(4)),
        ("\t\n ---12", Constant(-12)),
        ("\t\n d20", Die(20)),
        (" ( d20 ) ", Die(20)),
        (" d20\t\n + d4 ", Sum(b(Die(20)), b(Die(4)))),
        (
            " 2 * d10 + d4 ",
            Sum(b(Multiply(b(Constant(2)), b(Die(10)))), b(Die(4))),
        ),
        (
            " 2 + d10 * d4 ",
            Sum(b(Constant(2)), b(Multiply(b(Die(10)), b(Die(4))))),
        ),
        (
            "(adv(d20)) + 2",
            Sum(b(Advantage(b(Die(20)))), b(Constant(2))),
        ),
        ("adv(d20) + 2", Sum(b(Advantage(b(Die(20)))), b(Constant(2)))),
        ("2+adv(d20)", Sum(b(Constant(2)), b(Advantage(b(Die(20)))))),
        (
            "2*d10+adv(d20)",
            Sum(
                b(Multiply(b(Constant(2)), b(Die(10)))),
                b(Advantage(b(Die(20)))),
            ),
        ),
        (
            "2*d10+adv(d20)-d4",
            Diff(
                b(Sum(
                    b(Multiply(b(Constant(2)), b(Die(10)))),
                    b(Advantage(b(Die(20)))),
                )),
                b(Die(4)),
            ),
        ),
        (
            "2*d10+(adv(d20)-d4)*d4",
            Sum(
                b(Multiply(b(Constant(2)), b(Die(10)))),
                b(Multiply(
                    b(Diff(b(Advantage(b(Die(20)))), b(Die(4)))),
                    b(Die(4)),
                )),
            ),
        ),
        (
            " adv ( d20 * d10 + d4 ) + 5 ",
            Sum(
                b(Advantage(b(Sum(
                    b(Multiply(b(Die(20)), b(Die(10)))),
                    b(Die(4)),
                )))),
                b(Constant(5)),
            ),
        ),
        (
            " adv ( d20 * d10 + d4 ) + adv ( d20 * d10 + d4 ) ",
            Sum(
                b(Advantage(b(Sum(
                    b(Multiply(b(Die(20)), b(Die(10)))),
                    b(Die(4)),
                )))),
                b(Advantage(b(Sum(
                    b(Multiply(b(Die(20)), b(Die(10)))),
                    b(Die(4)),
                )))),
            ),
        ),
        ("d4 > d4", Compare(b(Die(4)), b(Die(4)), Comparison::GreaterThan)),
        (
            "d4 >= d4",
            Compare(b(Die(4)), b(Die(4)), Comparison::GreaterThanOrEqualTo),
        ),
        ("d4 < d4", Compare(b(Die(4)), b(Die(4)), Comparison::LessThan)),
        (
            "d4 <= d4",
            Compare(b(Die(4)), b(Die(4)), Comparison::LessThanOrEqualTo),
        ),
        ("d4 = d4", Compare(b(Die(4)), b(Die(4)), Comparison::EqualTo)),
    ];
    for (input, expected) in cases {
        let (actual, _) = parse_expression(input.as_bytes(), 0).unwrap();
        assert_eq!(actual, expected, "input: {:?}", input);
    }
}

#[test]
fn test_parse() {
    // The grammar has no `NdM` coefficient form, so "2d4" parses as the
    // constant 2 followed by leftover input and is rejected.
    let cases: Vec<(&str, Result<Expression, &str>)> = vec![
        ("2d4", Err("")),
        // trailing whitespace is ok
        (" \t\nd10 \t\n", Ok(Die(10))),
        // entire unknown keyword
        ("2d4 extra", Err("")),
        // must include operator between base terms
        ("d4 d4", Err("")),
        // only one comparison operator allowed
        ("d4 > d6 < d10", Err("")),
    ];
    for (input, expected) in cases {
        match parse(input) {
            Ok(actual) => assert_eq!(actual, expected.unwrap(), "input: {:?}", input),
            Err(_) => assert!(expected.is_err(), "input: {:?}", input),
        }
    }
}

#[test]
fn left_fold_builds_left_deep_trees() {
    assert_eq!(
        parse("1+2+3"),
        Ok(Sum(b(Sum(b(Constant(1)), b(Constant(2)))), b(Constant(3))))
    );
    assert_eq!(
        parse("d4*d6/d8"),
        Ok(Expression::Divide(
            b(Multiply(b(Die(4)), b(Die(6)))),
            b(Die(8))
        ))
    );
}

#[test]
fn whitespace_is_insignificant() {
    assert_eq!(parse(" d20 "), parse("d20"));
    assert_eq!(parse(" d20 "), Ok(Die(20)));
    assert_eq!(parse("2 * d10 + d4"), parse("2*d10+d4"));
}

#[test]
fn grammar_rejections_are_structured() {
    assert_eq!(parse("d4 d4"), Err(ParseError::TrailingInput));
    assert_eq!(parse("d4 > d6 < d10"), Err(ParseError::TrailingInput));
    assert_eq!(parse("2d4 extra"), Err(ParseError::TrailingInput));
    assert_eq!(parse(""), Err(ParseError::Malformed));
    assert_eq!(parse("adv d4"), Err(ParseError::Malformed));
    assert_eq!(parse("(d4"), Err(ParseError::Malformed));
    assert_eq!(parse("99999999999"), Err(ParseError::InvalidNumber));
    assert_eq!(parse("d99999999999"), Err(ParseError::InvalidNumber));
    assert_eq!(parse("-2147483649"), Err(ParseError::InvalidNumber));
    assert_eq!(parse("-2147483648"), Ok(Constant(i32::MIN)));
    assert_eq!(parse("2147483648"), Err(ParseError::InvalidNumber));
}

#[test]
fn parse_accepts_zero_sided_die_but_wf_rejects_it() {
    assert_eq!(parse("d0"), Ok(Die(0)));
    assert!(!Die(0).is_well_formed());
    assert!(!Die(0x8000_0000).is_well_formed());
    assert!(parse("d6").unwrap().is_well_formed());
    assert!(parse("2*d10+adv(d20+d4)-d4").unwrap().is_well_formed());
}
