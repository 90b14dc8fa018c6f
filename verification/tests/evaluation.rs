use std::collections::HashSet;

use pips::constant::Constant;
use pips::die::Die;
use pips::expression::Comparison;
use pips::expression::Expression;
use pips::operators;
use pips::parse;
use pips::EvalError;

fn b(e: Expression) -> Box<Expression> {
    Box::new(e)
}

#[test]
fn constant_produces_expected_number() {
    let num = 10;
    let times = 100;
    let num_roll = Constant { num };

    let rolls: HashSet<i32> = (0..times).map(|_| num_roll.roll()).collect();

    assert_eq!(1, rolls.len());
    assert!(rolls.contains(&num));
}

#[test]
fn constant_produces_correct_plot() {
    let four = Constant { num: 4 };
    let expected: Vec<(i32, u64)> = vec![(4, 1)];

    let actual = four.plot();

    assert_eq!(expected, actual);
}

#[test]
fn die_rolls_expected_numbers() {
    let max = 6;
    let num_rolls = 100;
    let die = Die::new(max);
    let expected: HashSet<i32> = [1, 2, 3, 4, 5, 6].iter().cloned().collect();

    let actual: HashSet<i32> = (1..num_rolls).map(|_| die.roll()).collect();

    assert_eq!(expected, actual);
}

#[test]
fn die_plot_is_correct() {
    let max = 6;
    let die = Die::new(max);
    let expected: Vec<(i32, u64)> = vec![(1, 1), (2, 1), (3, 1), (4, 1), (5, 1), (6, 1)];

    let actual = die.plot();

    assert_eq!(expected, actual);
}

#[test]
fn multiply_produces_correct_plot() {
    let expression = Expression::Multiply(b(Expression::Die(4)), b(Expression::Die(4)));
    let expected: Vec<(i32, u64)> = vec![
        (1, 1),
        (2, 2),
        (3, 2),
        (4, 3),
        (6, 2),
        (8, 2),
        (9, 1),
        (12, 2),
        (16, 1),
    ];

    let actual = expression.plot().unwrap();

    assert_eq!(expected, actual.plot);
    assert_eq!(16, actual.total);
}

#[test]
fn divide_produces_correct_plot() {
    let expression = Expression::Divide(b(Expression::Die(4)), b(Expression::Die(4)));
    // 1/1 -> 1, 1/2 -> 0, 1/3 -> 0, 1/4 -> 0
    // 2/1 -> 2, 2/2 -> 1, 2/3 -> 0, 2/4 -> 0
    // 3/1 -> 3, 3/2 -> 1, 3/3 -> 1, 3/4 -> 0
    // 4/1 -> 4, 4/2 -> 2, 4/3 -> 1, 4/4 -> 1
    let expected: Vec<(i32, u64)> = vec![(0, 6), (1, 6), (2, 2), (3, 1), (4, 1)];

    let actual = expression.plot().unwrap();

    assert_eq!(expected, actual.plot);
}

#[test]
fn sum_produces_correct_plot() {
    let expression = Expression::Sum(b(Expression::Die(6)), b(Expression::Die(6)));
    let expected: Vec<(i32, u64)> = vec![
        (2, 1),
        (3, 2),
        (4, 3),
        (5, 4),
        (6, 5),
        (7, 6),
        (8, 5),
        (9, 4),
        (10, 3),
        (11, 2),
        (12, 1),
    ];

    let actual = expression.plot().unwrap();

    assert_eq!(expected, actual.plot);
    assert_eq!(36, actual.total);
}

#[test]
fn difference_produces_correct_plot() {
    let expression = Expression::Diff(b(Expression::Die(4)), b(Expression::Die(4)));
    let expected: Vec<(i32, u64)> = vec![(-3, 1), (-2, 2), (-1, 3), (0, 4), (1, 3), (2, 2), (3, 1)];

    let actual = expression.plot().unwrap();

    assert_eq!(expected, actual.plot);
}

#[test]
fn advantage_produces_correct_plot() {
    let expression = Expression::Advantage(b(Expression::Die(4)));
    let expected: Vec<(i32, u64)> = vec![(1, 1), (2, 3), (3, 5), (4, 7)];

    let actual = expression.plot().unwrap();

    assert_eq!(expected, actual.plot);
    assert_eq!(16, actual.total);
}

#[test]
fn disadvantage_produces_correct_plot() {
    let expression = Expression::Disadvantage(b(Expression::Die(4)));
    let expected: Vec<(i32, u64)> = vec![(1, 7), (2, 5), (3, 3), (4, 1)];

    let actual = expression.plot().unwrap();

    assert_eq!(expected, actual.plot);
}

#[test]
fn compare_produces_correct_plot() {
    let left = Expression::Die(3);
    let right = Expression::Die(3);
    let cases: Vec<(Comparison, Vec<(i32, u64)>)> = vec![
        (Comparison::GreaterThan, vec![(0, 6), (1, 3)]),
        (Comparison::GreaterThanOrEqualTo, vec![(0, 3), (1, 6)]),
        (Comparison::LessThan, vec![(0, 6), (1, 3)]),
        (Comparison::LessThanOrEqualTo, vec![(0, 3), (1, 6)]),
        (Comparison::EqualTo, vec![(0, 6), (1, 3)]),
    ];

    for (comparison, expected) in cases {
        let expression = Expression::Compare(
            b(left.clone()),
            b(right.clone()),
            comparison.clone(),
        );

        let actual = expression.plot().unwrap();

        assert_eq!(expected, actual.plot, "{:?}", comparison);
    }
}

#[test]
fn plot_total_is_the_product_of_leaf_totals() {
    // one of each operator family: 1 * 10 * (20*4)^2 * 4 combinations
    let expression = parse("2*d10+adv(d20+d4)-d4").unwrap();
    let actual = expression.plot().unwrap();
    assert_eq!(256000, actual.total);
    assert_eq!(actual.total, actual.plot.iter().map(|e| e.1).sum::<u64>());

    let single = parse("d20").unwrap().plot().unwrap();
    assert_eq!(20, single.total);

    let constant = parse("7").unwrap().plot().unwrap();
    assert_eq!(1, constant.total);
}

#[test]
fn rolls_stay_inside_the_plot_table() {
    let expression = parse("adv(d4)+d6-d8").unwrap();
    let keys: HashSet<i32> = expression
        .plot()
        .unwrap()
        .plot
        .iter()
        .map(|e| e.0)
        .collect();
    for _ in 0..300 {
        let v = expression.roll().unwrap();
        assert!(keys.contains(&v), "rolled {} outside the plot table", v);
    }
}

#[test]
fn one_sided_die_always_rolls_one() {
    let expression = parse("d1").unwrap();
    for _ in 0..20 {
        assert_eq!(Ok(1), expression.roll());
    }
}

#[test]
fn evaluation_reports_overflow() {
    let expression = Expression::Sum(b(Expression::Constant(i32::MAX)), b(Expression::Constant(1)));
    assert_eq!(Err(EvalError::Overflow), expression.plot().map(|p| p.total));
    assert_eq!(Err(EvalError::Overflow), expression.roll());

    let product = Expression::Multiply(
        b(Expression::Constant(i32::MAX)),
        b(Expression::Constant(2)),
    );
    assert_eq!(Err(EvalError::Overflow), product.plot().map(|p| p.total));
}

#[test]
fn evaluation_reports_division_by_zero() {
    let expression = Expression::Divide(b(Expression::Die(4)), b(Expression::Constant(0)));
    assert_eq!(
        Err(EvalError::DivisionByZero),
        expression.plot().map(|p| p.total)
    );
    assert_eq!(Err(EvalError::DivisionByZero), expression.roll());

    let mixed = parse("d4 / (d2-1)").unwrap();
    assert_eq!(Err(EvalError::DivisionByZero), mixed.plot().map(|p| p.total));
}

#[test]
fn operator_table_matches_arithmetic() {
    assert_eq!(5, operators::sum(&2, &3));
    assert_eq!(-3, operators::difference(&2, &5));
    assert_eq!(12, operators::multiply(&3, &4));
    assert_eq!(-3, operators::divide(&-7, &2));
    assert_eq!(-3, operators::divide(&7, &-2));
    assert_eq!(3, operators::divide(&7, &2));
    assert_eq!(0, operators::divide(&-1, &2));
    assert_eq!(5, operators::advantage(&2, &5));
    assert_eq!(2, operators::disadvantage(&2, &5));
    assert_eq!(1, operators::compare(&3, &1));
    assert_eq!(0, operators::compare(&1, &1));
    assert_eq!(-1, operators::compare(&0, &1));
    assert_eq!(1, operators::greater_than(&2, &1));
    assert_eq!(0, operators::greater_than(&1, &2));
    assert_eq!(1, operators::greater_than_or_equal_to(&2, &2));
    assert_eq!(1, operators::less_than(&1, &2));
    assert_eq!(0, operators::less_than(&2, &1));
    assert_eq!(1, operators::less_than_or_equal_to(&2, &2));
    assert_eq!(1, operators::equal_to(&2, &2));
    assert_eq!(0, operators::equal_to(&2, &3));
}

#[test]
fn get_operation_splits_inner_nodes() {
    let expression = parse("d4+d6").unwrap();
    let (_, l, r) = expression.get_operation().unwrap();
    assert_eq!(&Expression::Die(4), l);
    assert_eq!(&Expression::Die(6), r);
    assert!(Expression::Die(4).get_operation().is_none());
    assert!(Expression::Constant(1).get_operation().is_none());
}
