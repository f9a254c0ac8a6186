use rpn_calc::rpn::{evaluate_rpn, EvaluationError, Operator};

#[test]
fn evaluates_addition() {
    assert_eq!(evaluate_rpn("3 4 +"), Ok(7));
}

#[test]
fn evaluates_multiply_then_add() {
    assert_eq!(evaluate_rpn("5 3 * 2 +"), Ok(17));
}

#[test]
fn evaluates_nested_expression() {
    assert_eq!(evaluate_rpn("15 7 1 1 + - *"), Ok(75));
}

#[test]
fn lone_operator_underflows() {
    assert_eq!(
        evaluate_rpn("+"),
        Err(EvaluationError::StackUnderflow { operator: Operator::Add, operands_available: 0 })
    );
}

#[test]
fn one_operand_underflows() {
    assert_eq!(
        evaluate_rpn("3 -"),
        Err(EvaluationError::StackUnderflow { operator: Operator::Sub, operands_available: 1 })
    );
}

#[test]
fn leftover_values_are_invalid() {
    assert_eq!(
        evaluate_rpn("3 4 + 5"),
        Err(EvaluationError::InvalidExpression { values_remaining: 2 })
    );
}

#[test]
fn unknown_token_is_invalid_number() {
    assert_eq!(
        evaluate_rpn("3 x +"),
        Err(EvaluationError::InvalidNumber { token: String::from("x") })
    );
}

#[test]
fn empty_input_is_invalid_expression() {
    assert_eq!(
        evaluate_rpn(""),
        Err(EvaluationError::InvalidExpression { values_remaining: 0 })
    );
}

#[test]
fn whitespace_only_input_is_invalid_expression() {
    assert_eq!(
        evaluate_rpn(" \t \n "),
        Err(EvaluationError::InvalidExpression { values_remaining: 0 })
    );
}

#[test]
fn evaluation_is_repeatable() {
    let expression = "15 7 1 1 + - *";
    let first = evaluate_rpn(expression);
    let second = evaluate_rpn(expression);
    assert_eq!(first, second);
    assert_eq!(first, Ok(75));
}

#[test]
fn subtraction_uses_operand_order() {
    assert_eq!(evaluate_rpn("10 3 -"), Ok(7));
}

#[test]
fn single_literal_evaluates_to_itself() {
    assert_eq!(evaluate_rpn("5"), Ok(5));
}

#[test]
fn runs_of_whitespace_are_one_delimiter() {
    assert_eq!(evaluate_rpn("  3 \t 4 \n +  "), Ok(7));
}

#[test]
fn negative_literals_are_accepted() {
    assert_eq!(evaluate_rpn("-5 3 +"), Ok(-2));
}

#[test]
fn plus_signed_literals_are_accepted() {
    assert_eq!(evaluate_rpn("+5 2 -"), Ok(3));
}

#[test]
fn smallest_i32_literal_is_accepted() {
    assert_eq!(evaluate_rpn("-2147483648"), Ok(i32::MIN));
}

#[test]
fn literal_above_i32_range_is_invalid_number() {
    assert_eq!(
        evaluate_rpn("2147483648"),
        Err(EvaluationError::InvalidNumber { token: String::from("2147483648") })
    );
}

#[test]
fn sign_alone_is_not_a_number() {
    // A lone "-" is an operator; a lone "+" likewise, both underflow.
    // A sign followed by no digits elsewhere is an invalid number.
    assert_eq!(
        evaluate_rpn("3 +x *"),
        Err(EvaluationError::InvalidNumber { token: String::from("+x") })
    );
}

#[test]
fn first_error_wins() {
    assert_eq!(
        evaluate_rpn("x 3 + y"),
        Err(EvaluationError::InvalidNumber { token: String::from("x") })
    );
}

#[test]
fn addition_wraps_on_overflow() {
    assert_eq!(evaluate_rpn("2147483647 1 +"), Ok(i32::MIN));
}

#[test]
fn subtraction_wraps_on_overflow() {
    assert_eq!(evaluate_rpn("-2147483648 1 -"), Ok(i32::MAX));
}

#[test]
fn multiplication_wraps_on_overflow() {
    assert_eq!(evaluate_rpn("65536 65536 *"), Ok(0));
}

#[test]
fn longer_well_formed_expression_is_exact() {
    // ((2 * 3) + (10 - 4)) * 5
    assert_eq!(evaluate_rpn("2 3 * 10 4 - + 5 *"), Ok(60));
}
