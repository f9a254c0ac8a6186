//! A Reverse Polish Notation (postfix) expression evaluator.
//!
//! An expression is a string of tokens separated by runs of ASCII
//! whitespace. A token is either an operator symbol (`+`, `-`, `*`) or an
//! optionally signed base-10 integer literal that fits in `i32`. The
//! evaluator makes a single left-to-right pass over the tokens, keeping a
//! stack of operands: a literal is pushed, an operator pops its right
//! operand and then its left operand and pushes the combined value. After
//! the last token, exactly one value must remain; it is the result.
//!
//! Arithmetic wraps around on `i32` overflow; this keeps every operator
//! application total, and agrees with the exact integer result whenever
//! no intermediate value leaves the `i32` range.

use vstd::prelude::*;

verus! {

/// The binary operators the evaluator recognizes.
#[derive(Clone, Copy, Debug, PartialEq, Eq, Structural)]
pub enum Operator {
    Add,
    Sub,
    Mul,
}

/// Why an evaluation failed.
#[derive(Debug, PartialEq, Eq)]
pub enum EvaluationError {
    /// An operator was reached while fewer than two operands were on the
    /// stack. Carries the operator and how many operands were available.
    StackUnderflow { operator: Operator, operands_available: usize },
    /// A token is neither an operator nor an integer literal that fits
    /// in `i32`. Carries the offending token text.
    InvalidNumber { token: String },
    /// After all tokens were consumed, the operand count was not exactly
    /// one. Carries the number of values that remained.
    InvalidExpression { values_remaining: usize },
}

/// The abstract value of an [`EvaluationError`].
pub enum EvaluationErrorView {
    StackUnderflow { operator: Operator, operands_available: nat },
    InvalidNumber { token: Seq<char> },
    InvalidExpression { values_remaining: nat },
}

impl View for EvaluationError {
    type V = EvaluationErrorView;

    open spec fn view(&self) -> EvaluationErrorView {
        match self {
            EvaluationError::StackUnderflow { operator, operands_available } =>
                EvaluationErrorView::StackUnderflow {
                    operator: *operator,
                    operands_available: *operands_available as nat,
                },
            EvaluationError::InvalidNumber { token } => EvaluationErrorView::InvalidNumber {
                token: token@,
            },
            EvaluationError::InvalidExpression { values_remaining } =>
                EvaluationErrorView::InvalidExpression {
                    values_remaining: *values_remaining as nat,
                },
        }
    }
}

/// The characters that separate tokens.
pub open spec fn is_token_separator(c: char) -> bool {
    c == ' ' || c == '\t' || c == '\n' || c == '\r' || c == '\x0c'
}

/// The tokens of `s`: the maximal runs of non-separator characters, in
/// order. Defined by how one more character extends the token list: a
/// separator closes any open token, while any other character extends the
/// open token or starts a new one.
pub open spec fn tokens_of(s: Seq<char>) -> Seq<Seq<char>>
    decreases s.len(),
{
    if s.len() == 0 {
        Seq::empty()
    } else {
        let rest = tokens_of(s.drop_last());
        let c = s.last();
        if is_token_separator(c) {
            rest
        } else if s.len() >= 2 && !is_token_separator(s[s.len() - 2]) {
            rest.update(rest.len() - 1, rest.last().push(c))
        } else {
            rest.push(seq![c])
        }
    }
}

/// The operator a token denotes, if any.
pub open spec fn operator_of_token(t: Seq<char>) -> Option<Operator> {
    if t.len() == 1 {
        if t[0] == '+' {
            Some(Operator::Add)
        } else if t[0] == '-' {
            Some(Operator::Sub)
        } else if t[0] == '*' {
            Some(Operator::Mul)
        } else {
            None
        }
    } else {
        None
    }
}

pub open spec fn is_ascii_digit(c: char) -> bool {
    '0' <= c && c <= '9'
}

pub open spec fn digit_value(c: char) -> int {
    c as int - '0' as int
}

pub open spec fn all_digits(s: Seq<char>) -> bool {
    forall|i: int| 0 <= i < s.len() ==> is_ascii_digit(#[trigger] s[i])
}

/// The number the digit string `s` denotes in base 10.
pub open spec fn digits_value(s: Seq<char>) -> int
    decreases s.len(),
{
    if s.len() == 0 {
        0
    } else {
        10 * digits_value(s.drop_last()) + digit_value(s.last())
    }
}

/// The value of `t` read as an optionally signed base-10 integer literal
/// that fits in `i32`, or `None` if `t` is not such a literal.
pub open spec fn int_value_of_token(t: Seq<char>) -> Option<int> {
    let negative = t.len() > 0 && t[0] == '-';
    let signed = t.len() > 0 && (t[0] == '-' || t[0] == '+');
    let digits = if signed {
        t.drop_first()
    } else {
        t
    };
    if digits.len() > 0 && all_digits(digits) {
        let value = if negative {
            -digits_value(digits)
        } else {
            digits_value(digits)
        };
        if i32::MIN <= value <= i32::MAX {
            Some(value)
        } else {
            None
        }
    } else {
        None
    }
}

/// Reduces `v` modulo 2^32 into the value range of `i32`.
pub open spec fn wrap_to_i32(v: int) -> int {
    let m = v % 0x1_0000_0000;
    if m > i32::MAX as int {
        m - 0x1_0000_0000
    } else {
        m
    }
}

/// The value an operator computes from left operand `a` and right
/// operand `b`, wrapping on `i32` overflow.
pub open spec fn apply_operator(op: Operator, a: int, b: int) -> int {
    match op {
        Operator::Add => wrap_to_i32(a + b),
        Operator::Sub => wrap_to_i32(a - b),
        Operator::Mul => wrap_to_i32(a * b),
    }
}

/// How one token transforms the operand stack, or the error it raises.
/// For an operator, the top of the stack is the right operand and the
/// value below it is the left operand.
pub open spec fn eval_step(stack: Seq<int>, t: Seq<char>) -> Result<Seq<int>, EvaluationErrorView> {
    match operator_of_token(t) {
        Some(op) => if stack.len() < 2 {
            Err(EvaluationErrorView::StackUnderflow { operator: op, operands_available: stack.len() })
        } else {
            Ok(
                stack.drop_last().drop_last().push(
                    apply_operator(op, stack[stack.len() - 2], stack[stack.len() - 1]),
                ),
            )
        },
        None => match int_value_of_token(t) {
            Some(v) => Ok(stack.push(v)),
            None => Err(EvaluationErrorView::InvalidNumber { token: t }),
        },
    }
}

/// Folds `eval_step` over the tokens from left to right, stopping at the
/// first error.
pub open spec fn eval_tokens(stack: Seq<int>, tokens: Seq<Seq<char>>) -> Result<
    Seq<int>,
    EvaluationErrorView,
>
    decreases tokens.len(),
{
    if tokens.len() == 0 {
        Ok(stack)
    } else {
        match eval_step(stack, tokens.first()) {
            Ok(next) => eval_tokens(next, tokens.drop_first()),
            Err(e) => Err(e),
        }
    }
}

/// The outcome of evaluating a token sequence from an empty stack:
/// the single remaining value, or the first error.
pub open spec fn spec_evaluate_tokens(tokens: Seq<Seq<char>>) -> Result<int, EvaluationErrorView> {
    match eval_tokens(Seq::empty(), tokens) {
        Ok(stack) => if stack.len() == 1 {
            Ok(stack[0])
        } else {
            Err(EvaluationErrorView::InvalidExpression { values_remaining: stack.len() })
        },
        Err(e) => Err(e),
    }
}

/// The outcome of evaluating the expression text `s`.
pub open spec fn spec_evaluate(s: Seq<char>) -> Result<int, EvaluationErrorView> {
    spec_evaluate_tokens(tokens_of(s))
}

/// The abstract value of an evaluation result.
pub open spec fn result_view(r: Result<i32, EvaluationError>) -> Result<int, EvaluationErrorView> {
    match r {
        Ok(v) => Ok(v as int),
        Err(e) => Err(e@),
    }
}

/// A digit string denotes a non-negative number.
proof fn lemma_digits_value_nonneg(s: Seq<char>)
    requires
        all_digits(s),
    ensures
        digits_value(s) >= 0,
    decreases s.len(),
{
    if s.len() > 0 {
        lemma_digits_value_nonneg(s.drop_last());
    }
}

/// Reading more digits never decreases the denoted number.
proof fn lemma_digits_value_take_le(s: Seq<char>, k: int)
    requires
        all_digits(s),
        0 <= k <= s.len(),
    ensures
        digits_value(s.take(k)) <= digits_value(s),
    decreases s.len() - k,
{
    if k < s.len() {
        assert(s.take(k + 1).drop_last() =~= s.take(k));
        lemma_digits_value_nonneg(s.take(k));
        lemma_digits_value_take_le(s, k + 1);
    } else {
        assert(s.take(k) =~= s);
    }
}

/// Decides which operator, if any, the token `t` denotes.
fn operator_of(t: &str) -> (r: Option<Operator>)
    ensures
        r == operator_of_token(t@),
{
    if t.unicode_len() == 1 {
        let c = t.get_char(0);
        if c == '+' {
            Some(Operator::Add)
        } else if c == '-' {
            Some(Operator::Sub)
        } else if c == '*' {
            Some(Operator::Mul)
        } else {
            None
        }
    } else {
        None
    }
}

/// Reads `t` as an optionally signed base-10 integer that fits in `i32`.
fn parse_token(t: &str) -> (r: Option<i32>)
    ensures
        match r {
            Some(v) => int_value_of_token(t@) == Some(v as int),
            None => int_value_of_token(t@) is None,
        },
{
    let n = t.unicode_len();
    if n == 0 {
        return None;
    }
    let first = t.get_char(0);
    let negative = first == '-';
    let signed = negative || first == '+';
    let start: usize = if signed {
        1
    } else {
        0
    };
    let ghost digits = if signed {
        t@.drop_first()
    } else {
        t@
    };
    assert(digits =~= t@.skip(start as int));
    if start == n {
        return None;
    }
    let mut magnitude: i64 = 0;
    let mut i: usize = start;
    while i < n
        invariant
            start <= i <= n,
            0 < n == t@.len(),
            negative == (t@[0] == '-'),
            signed == (t@[0] == '-' || t@[0] == '+'),
            start == (if signed {
                1usize
            } else {
                0usize
            }),
            digits == (if signed {
                t@.drop_first()
            } else {
                t@
            }),
            digits =~= t@.skip(start as int),
            all_digits(digits.take(i - start)),
            magnitude == digits_value(digits.take(i - start)),
            0 <= magnitude <= 0x8000_0000,
        decreases n - i,
    {
        let c = t.get_char(i);
        let code = c as u32;
        if code < 48 || code > 57 {
            assert(!is_ascii_digit(digits[i - start]));
            return None;
        }
        let d = (code - 48) as i64;
        assert(digits.take(i + 1 - start).drop_last() =~= digits.take(i - start));
        assert(digits.take(i + 1 - start).last() == digits[i - start]);
        magnitude = magnitude * 10 + d;
        i = i + 1;
        if magnitude > 0x8000_0000 {
            proof {
                if all_digits(digits) {
                    lemma_digits_value_take_le(digits, i - start);
                }
            }
            return None;
        }
    }
    assert(digits.take(i - start) =~= digits);
    if negative {
        Some((-magnitude) as i32)
    } else {
        if magnitude > 0x7fff_ffff {
            None
        } else {
            Some(magnitude as i32)
        }
    }
}

/// The views of a sequence of token strings.
pub open spec fn token_views(tokens: Seq<String>) -> Seq<Seq<char>> {
    tokens.map_values(|t: String| t@)
}

/// Splits `expression` into its whitespace-separated tokens. Any run of
/// separator characters acts as one delimiter; leading and trailing
/// separators are ignored.
fn tokenize(expression: &str) -> (tokens: Vec<String>)
    ensures
        token_views(tokens@) == tokens_of(expression@),
{
    let n = expression.unicode_len();
    let mut tokens: Vec<String> = Vec::new();
    let mut start: usize = 0;
    let mut i: usize = 0;
    proof {
        assert(expression@.take(0) =~= Seq::<char>::empty());
        assert(token_views(tokens@) =~= Seq::<Seq<char>>::empty());
    }
    while i < n
        invariant
            start <= i <= n,
            n == expression@.len(),
            forall|j: int| start <= j < i ==> !is_token_separator(#[trigger] expression@[j]),
            start == i ==> token_views(tokens@) == tokens_of(expression@.take(i as int)),
            start == i ==> (i == 0 || is_token_separator(expression@[i - 1])),
            start < i ==> token_views(tokens@).push(
                expression@.subrange(start as int, i as int),
            ) == tokens_of(expression@.take(i as int)),
        decreases n - i,
    {
        let ghost text = expression@;
        let ghost old_views = token_views(tokens@);
        let c = expression.get_char(i);
        let sep = c == ' ' || c == '\t' || c == '\n' || c == '\r' || c == '\x0c';
        proof {
            assert(text.take(i + 1).drop_last() =~= text.take(i as int));
            assert(text.take(i + 1).last() == text[i as int]);
        }
        if sep {
            if start < i {
                let token = expression.substring_char(start, i).to_owned();
                tokens.push(token);
                proof {
                    assert(token_views(tokens@) =~= old_views.push(
                        text.subrange(start as int, i as int),
                    ));
                }
            }
            start = i + 1;
        } else {
            proof {
                if start < i {
                    let rest = tokens_of(text.take(i as int));
                    assert(text.take(i + 1)[i - 1] == text[i - 1]);
                    assert(text.subrange(start as int, i as int).push(text[i as int])
                        =~= text.subrange(start as int, i + 1));
                    assert(rest.update(rest.len() - 1, rest.last().push(text[i as int]))
                        =~= old_views.push(text.subrange(start as int, i + 1)));
                } else {
                    assert(seq![text[i as int]] =~= text.subrange(i as int, i + 1));
                    if i > 0 {
                        assert(text.take(i + 1)[i - 1] == text[i - 1]);
                    }
                }
            }
        }
        i = i + 1;
    }
    proof {
        assert(expression@.take(n as int) =~= expression@);
    }
    if start < n {
        let ghost old_views = token_views(tokens@);
        let token = expression.substring_char(start, n).to_owned();
        tokens.push(token);
        proof {
            assert(token_views(tokens@) =~= old_views.push(
                expression@.subrange(start as int, n as int),
            ));
        }
    }
    tokens
}

/// Division rounding toward negative infinity puts every remainder by
/// 2^32 in [0, 2^32), shifted from its argument by exactly one multiple.
proof fn lemma_mod_two_pow_32(v: int)
    requires
        -0x1_0000_0000 <= v < 0x1_0000_0000,
    ensures
        0 <= v % 0x1_0000_0000 < 0x1_0000_0000,
        v >= 0 ==> v % 0x1_0000_0000 == v,
        v < 0 ==> v % 0x1_0000_0000 == v + 0x1_0000_0000,
{
    if v >= 0 {
        vstd::arithmetic::div_mod::lemma_small_mod(v as nat, 0x1_0000_0000nat);
    } else {
        vstd::arithmetic::div_mod::lemma_mod_multiples_vanish(1, v, 0x1_0000_0000);
        vstd::arithmetic::div_mod::lemma_small_mod((v + 0x1_0000_0000) as nat, 0x1_0000_0000nat);
    }
}

/// Wrapping leaves a value that already fits in `i32` unchanged.
pub proof fn lemma_wrap_identity(v: int)
    requires
        i32::MIN <= v <= i32::MAX,
    ensures
        wrap_to_i32(v) == v,
{
    lemma_mod_two_pow_32(v);
}

/// `i32::wrapping_add` computes the wrapped sum.
proof fn lemma_wrapping_add(x: i32, y: i32)
    ensures
        vstd::wrapping::i32_specs::wrapping_add(x, y) as int == wrap_to_i32(x as int + y as int),
{
    lemma_mod_two_pow_32(x as int + y as int);
}

/// `i32::wrapping_sub` computes the wrapped difference.
proof fn lemma_wrapping_sub(x: i32, y: i32)
    ensures
        vstd::wrapping::i32_specs::wrapping_sub(x, y) as int == wrap_to_i32(x as int - y as int),
{
    lemma_mod_two_pow_32(x as int - y as int);
}

/// `i32::wrapping_mul` computes the wrapped product.
proof fn lemma_wrapping_mul(x: i32, y: i32)
    ensures
        vstd::wrapping::i32_specs::wrapping_mul(x, y) as int == wrap_to_i32(x as int * y as int),
{
    vstd::arithmetic::div_mod::lemma_mod_bound(x as int * y as int, 0x1_0000_0000);
}

/// The abstract values of a stack of machine integers.
pub open spec fn int_view(values: Seq<i32>) -> Seq<int> {
    values.map_values(|v: i32| v as int)
}

/// Evaluates an already tokenized expression.
fn evaluate_tokens(tokens: &Vec<String>) -> (r: Result<i32, EvaluationError>)
    ensures
        result_view(r) == spec_evaluate_tokens(token_views(tokens@)),
{
    let ghost all = token_views(tokens@);
    let mut stack: Vec<i32> = Vec::new();
    let mut idx: usize = 0;
    proof {
        assert(int_view(stack@) =~= Seq::<int>::empty());
        assert(all.skip(0) =~= all);
    }
    while idx < tokens.len()
        invariant
            idx <= tokens.len(),
            all == token_views(tokens@),
            eval_tokens(Seq::empty(), all) == eval_tokens(int_view(stack@), all.skip(idx as int)),
        decreases tokens.len() - idx,
    {
        let ghost sv = int_view(stack@);
        let ghost remaining = all.skip(idx as int);
        let token = &tokens[idx];
        proof {
            assert(remaining.first() == all[idx as int]);
            assert(remaining.drop_first() =~= all.skip(idx + 1));
            assert(all[idx as int] == token@);
        }
        match operator_of(token.as_str()) {
            Some(op) => {
                if stack.len() < 2 {
                    return Err(
                        EvaluationError::StackUnderflow {
                            operator: op,
                            operands_available: stack.len(),
                        },
                    );
                }
                let b = stack.pop().unwrap();
                let a = stack.pop().unwrap();
                let computed = match op {
                    Operator::Add => a.wrapping_add(b),
                    Operator::Sub => a.wrapping_sub(b),
                    Operator::Mul => a.wrapping_mul(b),
                };
                proof {
                    lemma_wrapping_add(a, b);
                    lemma_wrapping_sub(a, b);
                    lemma_wrapping_mul(a, b);
                    assert(a as int == sv[sv.len() - 2]);
                    assert(b as int == sv[sv.len() - 1]);
                }
                stack.push(computed);
                proof {
                    assert(int_view(stack@) =~= sv.drop_last().drop_last().push(
                        apply_operator(op, sv[sv.len() - 2], sv[sv.len() - 1]),
                    ));
                }
            },
            None => {
                match parse_token(token.as_str()) {
                    Some(value) => {
                        stack.push(value);
                        proof {
                            assert(int_view(stack@) =~= sv.push(value as int));
                        }
                    },
                    None => {
                        return Err(EvaluationError::InvalidNumber { token: token.clone() });
                    },
                }
            },
        }
        idx = idx + 1;
    }
    proof {
        assert(all.skip(tokens@.len() as int) =~= Seq::<Seq<char>>::empty());
    }
    if stack.len() == 1 {
        let result = stack[0];
        proof {
            assert(result as int == int_view(stack@)[0]);
        }
        Ok(result)
    } else {
        Err(EvaluationError::InvalidExpression { values_remaining: stack.len() })
    }
}

/// Evaluates the postfix expression `expression`: splits it into
/// whitespace-separated tokens, runs them through an operand stack, and
/// returns the single remaining value or the first error encountered.
pub fn evaluate_rpn(expression: &str) -> (r: Result<i32, EvaluationError>)
    ensures
        result_view(r) == spec_evaluate(expression@),
{
    let tokens = tokenize(expression);
    evaluate_tokens(&tokens)
}

/// The value an operator computes in exact integer arithmetic.
pub open spec fn exact_apply(op: Operator, a: int, b: int) -> int {
    match op {
        Operator::Add => a + b,
        Operator::Sub => a - b,
        Operator::Mul => a * b,
    }
}

/// How one token transforms the operand stack under exact arithmetic,
/// or `None` on underflow or an unrecognized token.
pub open spec fn exact_step(stack: Seq<int>, t: Seq<char>) -> Option<Seq<int>> {
    match operator_of_token(t) {
        Some(op) => if stack.len() < 2 {
            None
        } else {
            Some(
                stack.drop_last().drop_last().push(
                    exact_apply(op, stack[stack.len() - 2], stack[stack.len() - 1]),
                ),
            )
        },
        None => match int_value_of_token(t) {
            Some(v) => Some(stack.push(v)),
            None => None,
        },
    }
}

/// Folds `exact_step` over the tokens from left to right.
pub open spec fn exact_eval(stack: Seq<int>, tokens: Seq<Seq<char>>) -> Option<Seq<int>>
    decreases tokens.len(),
{
    if tokens.len() == 0 {
        Some(stack)
    } else {
        match exact_step(stack, tokens.first()) {
            Some(next) => exact_eval(next, tokens.drop_first()),
            None => None,
        }
    }
}

pub open spec fn in_i32_range(v: int) -> bool {
    i32::MIN <= v <= i32::MAX
}

pub open spec fn stack_in_range(stack: Seq<int>) -> bool {
    forall|i: int| 0 <= i < stack.len() ==> in_i32_range(#[trigger] stack[i])
}

/// Every operand stack the exact evaluation passes through stays within
/// the value range of `i32`.
pub open spec fn exact_states_in_range(stack: Seq<int>, tokens: Seq<Seq<char>>) -> bool
    decreases tokens.len(),
{
    stack_in_range(stack) && (tokens.len() == 0 || (match exact_step(stack, tokens.first()) {
        Some(next) => exact_states_in_range(next, tokens.drop_first()),
        None => true,
    }))
}

/// As long as no intermediate value leaves the `i32` range, the wrapping
/// evaluation agrees with the exact one at every step.
proof fn lemma_eval_matches_exact(stack: Seq<int>, tokens: Seq<Seq<char>>)
    requires
        exact_eval(stack, tokens) is Some,
        exact_states_in_range(stack, tokens),
    ensures
        eval_tokens(stack, tokens) == Ok::<Seq<int>, EvaluationErrorView>(
            exact_eval(stack, tokens)->Some_0,
        ),
    decreases tokens.len(),
{
    if tokens.len() > 0 {
        let t = tokens.first();
        let next = exact_step(stack, t)->Some_0;
        match operator_of_token(t) {
            Some(op) => {
                let a = stack[stack.len() - 2];
                let b = stack[stack.len() - 1];
                assert(next.last() == exact_apply(op, a, b));
                assert(exact_states_in_range(next, tokens.drop_first()));
                assert(stack_in_range(next));
                assert(in_i32_range(next[next.len() - 1]));
                lemma_wrap_identity(exact_apply(op, a, b));
                assert(eval_step(stack, t) == Ok::<Seq<int>, EvaluationErrorView>(next));
            },
            None => {
                assert(eval_step(stack, t) == Ok::<Seq<int>, EvaluationErrorView>(next));
            },
        }
        lemma_eval_matches_exact(next, tokens.drop_first());
    }
}

/// A well-formed postfix expression evaluates to its arithmetically
/// exact result: if every operator finds two operands, every other token
/// is a valid literal, exactly one value remains at the end, and no
/// intermediate value leaves the `i32` range, then evaluation succeeds
/// and returns that value.
pub proof fn lemma_well_formed_evaluates(expression: Seq<char>)
    requires
        exact_eval(Seq::empty(), tokens_of(expression)) is Some,
        exact_eval(Seq::empty(), tokens_of(expression))->Some_0.len() == 1,
        exact_states_in_range(Seq::empty(), tokens_of(expression)),
    ensures
        spec_evaluate(expression) == Ok::<int, EvaluationErrorView>(
            exact_eval(Seq::empty(), tokens_of(expression))->Some_0[0],
        ),
{
    lemma_eval_matches_exact(Seq::empty(), tokens_of(expression));
}

/// How many of the tokens are operators.
pub open spec fn operator_count(tokens: Seq<Seq<char>>) -> int
    decreases tokens.len(),
{
    if tokens.len() == 0 {
        0
    } else {
        (if operator_of_token(tokens.first()) is Some {
            1int
        } else {
            0int
        }) + operator_count(tokens.drop_first())
    }
}

/// How many of the tokens are not operators (in a successful evaluation,
/// all of these are integer literals).
pub open spec fn literal_count(tokens: Seq<Seq<char>>) -> int
    decreases tokens.len(),
{
    if tokens.len() == 0 {
        0
    } else {
        (if operator_of_token(tokens.first()) is Some {
            0int
        } else {
            1int
        }) + literal_count(tokens.drop_first())
    }
}

/// Each literal grows the stack by one and each operator shrinks it by
/// one, so a successful exact evaluation ends with the starting height
/// plus the literal count minus the operator count.
proof fn lemma_exact_eval_stack_height(stack: Seq<int>, tokens: Seq<Seq<char>>)
    requires
        exact_eval(stack, tokens) is Some,
    ensures
        exact_eval(stack, tokens)->Some_0.len() == stack.len() + literal_count(tokens)
            - operator_count(tokens),
    decreases tokens.len(),
{
    if tokens.len() > 0 {
        lemma_exact_eval_stack_height(exact_step(stack, tokens.first())->Some_0,
            tokens.drop_first());
    }
}

/// A well-formed postfix expression with N literals has exactly N - 1
/// operators: one value remains only when the literals outnumber the
/// operators by one.
pub proof fn lemma_well_formed_token_counts(tokens: Seq<Seq<char>>)
    requires
        exact_eval(Seq::empty(), tokens) is Some,
        exact_eval(Seq::empty(), tokens)->Some_0.len() == 1,
    ensures
        literal_count(tokens) == operator_count(tokens) + 1,
{
    lemma_exact_eval_stack_height(Seq::empty(), tokens);
}

/// Evaluation is a pure function of the expression text: any two results
/// that satisfy the contract of [`evaluate_rpn`] on the same text agree.
/// No state is carried from one evaluation to the next.
pub proof fn lemma_evaluation_deterministic(
    expression: Seq<char>,
    r1: Result<i32, EvaluationError>,
    r2: Result<i32, EvaluationError>,
)
    requires
        result_view(r1) == spec_evaluate(expression),
        result_view(r2) == spec_evaluate(expression),
    ensures
        result_view(r1) == result_view(r2),
{
}

/// The operand popped second is the left operand: an operator token
/// applied to a stack ending in `a, b` replaces them with `a <op> b`.
/// Subtracting evaluates `a - b`, not `b - a`.
pub proof fn lemma_operand_order(stack: Seq<int>, t: Seq<char>, op: Operator)
    requires
        operator_of_token(t) == Some(op),
        stack.len() >= 2,
    ensures
        eval_step(stack, t) == Ok::<Seq<int>, EvaluationErrorView>(
            stack.drop_last().drop_last().push(
                apply_operator(op, stack[stack.len() - 2], stack[stack.len() - 1]),
            ),
        ),
        op == Operator::Sub && in_i32_range(stack[stack.len() - 2] - stack[stack.len() - 1])
            ==> eval_step(stack, t)->Ok_0.last() == stack[stack.len() - 2] - stack[stack.len()
            - 1],
{
    if op == Operator::Sub && in_i32_range(stack[stack.len() - 2] - stack[stack.len() - 1]) {
        lemma_wrap_identity(stack[stack.len() - 2] - stack[stack.len() - 1]);
    }
}

} // verus!
