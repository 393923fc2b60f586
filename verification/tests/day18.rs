use advent2020::day18::{
    evaluate, expr, number_or_sub_expression, star_one, star_two, sub_expression, take_balanced,
    term, DepthCounter, Precedence,
};

#[test]
fn day18_test_star_one() {
    assert_eq!(star_one("2 * 3 + (4 * 5)"), Ok(26));
    assert_eq!(star_one("5 + (8 * 3 + 9 + 3 * 4 * 3)"), Ok(437));
    assert_eq!(
        star_one("5 * 9 * (7 * 3 * 3 + 9 * 3 + (8 + 6 * 4))"),
        Ok(12240)
    );
    assert_eq!(
        star_one("((2 + 4 * 9) * (6 + 9 * 8 + 6) + 6) + 2 + 4 * 2"),
        Ok(13632)
    );
}

#[test]
fn day18_test_star_two() {
    assert_eq!(star_two("1 + (2 * 3) + (4 * (5 + 6))"), Ok(51));
    assert_eq!(star_two("2 * 3 + (4 * 5)"), Ok(46));
    assert_eq!(star_two("5 + (8 * 3 + 9 + 3 * 4 * 3)"), Ok(1445));
    assert_eq!(
        star_two("5 * 9 * (7 * 3 * 3 + 9 * 3 + (8 + 6 * 4))"),
        Ok(669060)
    );
    assert_eq!(
        star_two("((2 + 4 * 9) * (6 + 9 * 8 + 6) + 6) + 2 + 4 * 2"),
        Ok(23340)
    );
}

#[test]
fn both_precedences_agree_with_the_examples() {
    assert_eq!(evaluate(Precedence::Standard, "1 + 2 * 3 + 4 * 5 + 6"), Ok(71));
    assert_eq!(
        evaluate(Precedence::AdditionFirst, "1 + 2 * 3 + 4 * 5 + 6"),
        Ok(231)
    );
    assert_eq!(
        evaluate(Precedence::Standard, "1 + (2 * 3) + (4 * (5 + 6))"),
        Ok(51)
    );
    assert_eq!(evaluate(Precedence::Standard, "7"), Ok(7));
    assert_eq!(evaluate(Precedence::AdditionFirst, "(7)"), Ok(7));
}

#[test]
fn lines_are_summed() {
    assert_eq!(star_one("2 * 3 + (4 * 5)\n2 * 3 + (4 * 5)\n"), Ok(52));
    assert_eq!(star_two("2 * 3 + (4 * 5)\r\n\r\n  2 * 3 + (4 * 5)"), Ok(92));
    assert_eq!(star_one("2 * 3 + (4 * 5)\n4 * 5 + 26"), Ok(72));
    assert_eq!(star_one(""), Ok(0));
    assert_eq!(star_two(" \n\t\n"), Ok(0));
}

#[test]
fn nested_parentheses_are_taken_as_a_whole() {
    assert_eq!(take_balanced("1+(2*(3+(4)))+5)*6"), Ok((")*6", "1+(2*(3+(4)))+5")));
    assert_eq!(take_balanced("((()))))"), Ok(("))", "((()))")));
    assert_eq!(take_balanced(")"), Ok((")", "")));
    assert_eq!(take_balanced("(1"), Ok(("", "(1")));
    assert_eq!(take_balanced(""), Ok(("", "")));
    assert_eq!(
        sub_expression(Precedence::Standard, "(((1+2)*3)+((4)))*2"),
        Ok(("*2", 13))
    );
    assert_eq!(evaluate(Precedence::Standard, "(((((1)))))"), Ok(1));
    assert_eq!(
        evaluate(Precedence::AdditionFirst, "2 * (3 + (4 * (5 + (6 * 7))))"),
        Ok(2 * (3 + (4 * (5 + (6 * 7)))))
    );
}

#[test]
fn the_depth_counter_follows_the_parentheses() {
    let mut counter = DepthCounter::new();

    assert!(counter.should_continue('('));
    assert!(counter.should_continue('1'));
    assert!(counter.should_continue('('));
    assert!(counter.should_continue(')'));
    assert!(counter.should_continue(')'));
    assert!(!counter.should_continue(')'));
    assert!(!counter.should_continue(')'));
    assert!(counter.should_continue('+'));
}

#[test]
fn the_rules_leave_what_they_do_not_take() {
    assert_eq!(expr(Precedence::Standard, "1+2)"), Ok((")", 3)));
    assert_eq!(expr(Precedence::Standard, "1+2*"), Ok(("*", 3)));
    assert_eq!(term(Precedence::Standard, "1+2"), Ok(("+2", 1)));
    assert_eq!(term(Precedence::AdditionFirst, "1+2*3"), Ok(("*3", 3)));
    assert_eq!(
        number_or_sub_expression(Precedence::AdditionFirst, "(1+2*3)+4"),
        Ok(("+4", 9))
    );
    assert_eq!(
        number_or_sub_expression(Precedence::Standard, "+4"),
        Err("Failed to match one_of_2 in `+4`".to_string())
    );
}

#[test]
fn malformed_lines_fail() {
    assert_eq!(
        evaluate(Precedence::Standard, "2 +"),
        Err("Expected `eof` found `+`".to_string())
    );
    assert_eq!(
        evaluate(Precedence::AdditionFirst, "2 * 3 *"),
        Err("Expected `eof` found `*`".to_string())
    );
    assert_eq!(
        evaluate(Precedence::Standard, "(2 + 3"),
        Err("Failed to match one_of_2 in `(2+3`".to_string())
    );
    assert_eq!(
        sub_expression(Precedence::Standard, "(2+3"),
        Err("Cannot match `)` in empty string".to_string())
    );
    assert_eq!(
        sub_expression(Precedence::Standard, "2+3)"),
        Err("Did not match `(` in `2+3)`".to_string())
    );
    assert_eq!(
        sub_expression(Precedence::Standard, "(2+)"),
        Err("Expected `eof` found `+`".to_string())
    );
    assert_eq!(
        evaluate(Precedence::Standard, "2 + 3)"),
        Err("Expected `eof` found `)`".to_string())
    );
    assert_eq!(
        evaluate(Precedence::Standard, ""),
        Err("Failed to match one_of_2 in ``".to_string())
    );
    assert_eq!(
        evaluate(Precedence::Standard, "()"),
        Err("Failed to match one_of_2 in `()`".to_string())
    );
    assert_eq!(
        evaluate(Precedence::Standard, "2 - 3"),
        Err("Expected `eof` found `-3`".to_string())
    );
    assert_eq!(
        star_one("1 + 1\n2 +\n3 +"),
        Err("Failed to evaluate `2 +`: Expected `eof` found `+`".to_string())
    );
}

#[test]
fn results_that_do_not_fit_fail() {
    assert_eq!(
        evaluate(Precedence::Standard, "4611686018427387904 * 2"),
        Err("Result out of range in `4611686018427387904*2`".to_string())
    );
    assert_eq!(
        evaluate(Precedence::AdditionFirst, "9223372036854775807 + 1"),
        Err("Result out of range in `9223372036854775807+1`".to_string())
    );
    assert_eq!(
        evaluate(Precedence::Standard, "9223372036854775807 + 0"),
        Ok(9223372036854775807)
    );
    assert_eq!(
        star_one("9223372036854775807\n1"),
        Err("Sum out of range at `1`".to_string())
    );
}
