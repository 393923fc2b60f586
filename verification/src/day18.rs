//! Sums of arithmetic expressions made of numbers, `+`, `*` and parentheses,
//! read under one of two precedences.
//!
//! The grammar is built from the parsers of [`crate::parser_combinators`].
//! Each rule evaluates while it parses: it yields the value of what it
//! consumed, never a tree.

use vstd::prelude::*;
use crate::parser_combinators::{
    enrich, eof, eof_spec, integer, integer_spec, lemma_integer_consumes_digits,
    lemma_many0_follows, lemma_many0_spec_shortens, many0, many0_spec,
    match_char, match_char_spec, one_of_2, one_of_2_failure, outcome, text_outcome, ParserResult,
};
use crate::text::{
    chars_of, is_digit_spec, join3, lines, lines_spec, strip_whitespace, text_of, texts,
    without_whitespace,
};

verus! {

/// How `+` and `*` bind.
#[derive(Clone, Copy, Debug)]
pub enum Precedence {
    /// Both bind alike: an expression is evaluated from left to right.
    Standard,
    /// `+` binds tighter than `*`.
    AdditionFirst,
}

/// One of the two operators of the grammar.
#[derive(Clone, Copy, Debug)]
pub enum Operator {
    Times,
    Plus,
}

// ---------------------------------------------------------------------------
// Parentheses
// ---------------------------------------------------------------------------
/// The depth of nesting after `c`, seen at the depth `depth`. A `)` at depth
/// zero leaves the depth as it is: it closes what the scan started in.
pub open spec fn next_depth(depth: nat, c: char) -> nat {
    if c == '(' {
        depth + 1
    } else if c == ')' && depth > 0 {
        (depth - 1) as nat
    } else {
        depth
    }
}

/// Where a scan of `s` that is at `i`, `depth` parentheses deep, stops: at
/// the first `)` that it meets at depth zero, or at the end of `s`.
pub open spec fn balanced_end(s: Seq<char>, i: int, depth: nat) -> int
    decreases s.len() - i,
{
    if 0 <= i < s.len() {
        if s[i] == ')' && depth == 0 {
            i
        } else {
            balanced_end(s, i + 1, next_depth(depth, s[i]))
        }
    } else {
        i
    }
}

/// A scan stops between where it is and the end of the text.
pub proof fn lemma_balanced_end_bounds(s: Seq<char>, i: int, depth: nat)
    requires
        0 <= i <= s.len(),
    ensures
        i <= balanced_end(s, i, depth) <= s.len(),
        balanced_end(s, i, depth) < s.len() ==> s[balanced_end(s, i, depth)] == ')',
    decreases s.len() - i,
{
    if i < s.len() && !(s[i] == ')' && depth == 0) {
        lemma_balanced_end_bounds(s, i + 1, next_depth(depth, s[i]));
    }
}

/// How many more `(` than `)` the text holds.
pub open spec fn nesting(s: Seq<char>) -> int
    decreases s.len(),
{
    if s.len() == 0 {
        0
    } else if s.last() == '(' {
        nesting(s.drop_last()) + 1
    } else if s.last() == ')' {
        nesting(s.drop_last()) - 1
    } else {
        nesting(s.drop_last())
    }
}

/// Whether the parentheses of `s` match: as many `)` as `(`, and at no point
/// more `)` than `(`.
pub open spec fn balanced(s: Seq<char>) -> bool {
    &&& nesting(s) == 0
    &&& forall|k: int| 0 <= k <= s.len() ==> nesting(#[trigger] s.take(k)) >= 0
}

proof fn lemma_balanced_end_of_group(inner: Seq<char>, rest: Seq<char>, i: int)
    requires
        balanced(inner),
        0 <= i <= inner.len(),
    ensures
        balanced_end(inner.push(')') + rest, i, nesting(inner.take(i)) as nat) == inner.len(),
    decreases inner.len() - i,
{
    let s = inner.push(')') + rest;
    if i == inner.len() {
        assert(inner.take(i) =~= inner);
        assert(s[i] == ')');
    } else {
        assert(s[i] == inner[i]);
        assert(inner.take(i + 1).drop_last() =~= inner.take(i));
        assert(inner.take(i + 1).last() == inner[i]);
        assert(nesting(inner.take(i)) >= 0);
        assert(nesting(inner.take(i + 1)) >= 0);
        lemma_balanced_end_of_group(inner, rest, i + 1);
    }
}

/// However deep the parentheses of a group nest, the scan stops at the `)`
/// that closes the group and at no earlier one: of a text whose parentheses
/// match, followed by `)` and anything else, it consumes exactly that text.
pub proof fn lemma_balanced_end_finds_closing(inner: Seq<char>, rest: Seq<char>)
    requires
        balanced(inner),
    ensures
        balanced_end(inner.push(')') + rest, 0, 0) == inner.len(),
{
    assert(inner.take(0) =~= Seq::<char>::empty());
    lemma_balanced_end_of_group(inner, rest, 0);
}

/// Tells a scan how deep in parentheses it is, and whether to go on.
pub struct DepthCounter {
    depth: usize,
}

impl DepthCounter {
    /// How many parentheses are open.
    pub closed spec fn depth(&self) -> nat {
        self.depth as nat
    }

    /// A counter at depth zero.
    pub fn new() -> (counter: Self)
        ensures
            counter.depth() == 0,
    {
        DepthCounter { depth: 0 }
    }

    /// Whether the scan consumes `c`. It does not where `c` is a `)` at depth
    /// zero; everywhere else it does, and the counter follows the
    /// parentheses.
    pub fn should_continue(&mut self, c: char) -> (go_on: bool)
        requires
            old(self).depth() < usize::MAX,
        ensures
            go_on == !(c == ')' && old(self).depth() == 0),
            final(self).depth() == next_depth(old(self).depth(), c),
    {
        if c == '(' {
            self.depth = self.depth + 1;
            true
        } else if c == ')' {
            if self.depth == 0 {
                false
            } else {
                self.depth = self.depth - 1;
                true
            }
        } else {
            true
        }
    }
}

/// What [`take_balanced`] makes of `input`.
pub open spec fn take_balanced_spec(input: Seq<char>) -> Result<(Seq<char>, Seq<char>), Seq<char>> {
    let end = balanced_end(input, 0, 0);
    Ok((input.skip(end), input.take(end)))
}

/// Consumes the input up to the `)` that closes the group which the input
/// starts in, and yields what it consumed. Where no such `)` comes, it
/// consumes everything. It never fails.
pub fn take_balanced<'a>(input: &'a str) -> (r: ParserResult<&'a str, &'a str>)
    ensures
        text_outcome(r) == take_balanced_spec(input@),
{
    let chars = chars_of(input);
    let mut counter = DepthCounter::new();
    let mut i: usize = 0;
    while i < chars.len()
        invariant
            i <= chars.len(),
            chars@ == input@,
            counter.depth() <= i,
            balanced_end(input@, 0, 0) == balanced_end(input@, i as int, counter.depth()),
        decreases chars.len() - i,
    {
        if !counter.should_continue(chars[i]) {
            let rest = input.substring_char(i, chars.len());
            let taken = input.substring_char(0, i);
            assert(rest@ =~= input@.skip(i as int));
            assert(taken@ =~= input@.take(i as int));
            return Ok((rest, taken));
        }
        i += 1;
    }
    let rest = input.substring_char(i, i);
    assert(rest@ =~= input@.skip(i as int));
    assert(input@ =~= input@.take(i as int));
    Ok((rest, input))
}

// ---------------------------------------------------------------------------
// The grammar, as a function of the characters
// ---------------------------------------------------------------------------
/// The message of a rule whose value does not fit the machine integer.
pub open spec fn out_of_range(input: Seq<char>) -> Seq<char> {
    "Result out of range in `"@ + input + "`"@
}

/// `left` and `right` under `operator`, if the result fits.
pub open spec fn apply_spec(operator: Operator, left: isize, right: isize) -> Option<isize> {
    match operator {
        Operator::Plus => left.checked_add(right),
        Operator::Times => left.checked_mul(right),
    }
}

/// `first` with each of `steps` applied to it in order, if every result on
/// the way fits.
pub open spec fn fold_spec(first: isize, steps: Seq<(Operator, isize)>) -> Option<isize>
    decreases steps.len(),
{
    if steps.len() == 0 {
        Some(first)
    } else {
        match apply_spec(steps[0].0, first, steps[0].1) {
            Some(next) => fold_spec(next, steps.skip(1)),
            None => None,
        }
    }
}

/// The operator that `text` names: `+` is [`Operator::Plus`], all else
/// [`Operator::Times`].
pub open spec fn operator_spec(text: Seq<char>) -> Operator {
    if text.len() > 0 && text[0] == '+' {
        Operator::Plus
    } else {
        Operator::Times
    }
}

/// An expression followed by nothing: its value, or why there is none.
pub open spec fn full_expr_spec(precedence: Precedence, input: Seq<char>) -> Result<
    isize,
    Seq<char>,
>
    decreases input.len(), 8nat,
{
    match expr_spec(precedence, input) {
        Err(message) => Err(message),
        Ok((left, value)) => match eof_spec(left) {
            Err(message) => Err(message),
            Ok(_) => Ok(value),
        },
    }
}

/// `sub_expression := '(' inner ')'`, where `inner` reaches up to the `)`
/// that closes the group and is an expression followed by nothing.
pub open spec fn sub_expression_spec(precedence: Precedence, input: Seq<char>) -> Result<
    (Seq<char>, isize),
    Seq<char>,
>
    decreases input.len(), 0nat,
{
    match match_char_spec('(', input) {
        Err(message) => Err(message),
        Ok((rest, _)) => {
            let end = balanced_end(rest, 0, 0);
            proof {
                lemma_balanced_end_bounds(rest, 0, 0);
            }
            match full_expr_spec(precedence, rest.take(end)) {
                Err(message) => Err(message),
                Ok(value) => match match_char_spec(')', rest.skip(end)) {
                    Err(message) => Err(message),
                    Ok((after, _)) => Ok((after, value)),
                },
            }
        },
    }
}

/// `number_or_sub_expression := integer | sub_expression`.
pub open spec fn number_or_sub_expression_spec(precedence: Precedence, input: Seq<char>) -> Result<
    (Seq<char>, isize),
    Seq<char>,
>
    decreases input.len(), 1nat,
{
    match integer_spec(input, isize::MAX as nat) {
        Ok((rest, n)) => Ok((rest, n as isize)),
        Err(_) => match sub_expression_spec(precedence, input) {
            Ok(found) => Ok(found),
            Err(_) => Err(one_of_2_failure(input)),
        },
    }
}

/// What may follow the first operand of a term: under
/// [`Precedence::AdditionFirst`] a `+` and an operand, else nothing.
pub open spec fn term_step_spec(precedence: Precedence, input: Seq<char>) -> Result<
    (Seq<char>, (Operator, isize)),
    Seq<char>,
>
    decreases input.len(), 2nat,
{
    match precedence {
        Precedence::Standard => Err(Seq::empty()),
        Precedence::AdditionFirst => match match_char_spec('+', input) {
            Err(message) => Err(message),
            Ok((rest, _)) => match number_or_sub_expression_spec(precedence, rest) {
                Err(message) => Err(message),
                Ok((after, value)) => Ok((after, (Operator::Plus, value))),
            },
        },
    }
}

/// [`term_step_spec`] as a value, on texts shorter than `limit`.
pub open spec fn term_steps(precedence: Precedence, limit: nat) -> spec_fn(Seq<char>) -> Result<
    (Seq<char>, (Operator, isize)),
    Seq<char>,
>
    decreases limit, 3nat,
{
    |s: Seq<char>|
        if s.len() < limit {
            term_step_spec(precedence, s)
        } else {
            Err(Seq::empty())
        }
}

/// Under [`Precedence::Standard`], `term := number_or_sub_expression`. Under
/// [`Precedence::AdditionFirst`],
/// `term := number_or_sub_expression ('+' number_or_sub_expression)*`, and
/// its value is the sum.
pub open spec fn term_spec(precedence: Precedence, input: Seq<char>) -> Result<
    (Seq<char>, isize),
    Seq<char>,
>
    decreases input.len(), 4nat,
{
    match number_or_sub_expression_spec(precedence, input) {
        Err(message) => Err(message),
        Ok((rest, first)) => {
            let (end, steps) = many0_spec(term_steps(precedence, input.len()), rest);
            match fold_spec(first, steps) {
                Some(value) => Ok((end, value)),
                None => Err(out_of_range(input)),
            }
        },
    }
}

/// The operator that may follow the first term of an expression: `*` or `+`
/// under [`Precedence::Standard`], `*` alone under
/// [`Precedence::AdditionFirst`].
pub open spec fn expr_operator_spec(precedence: Precedence, input: Seq<char>) -> Result<
    (Seq<char>, Operator),
    Seq<char>,
> {
    match precedence {
        Precedence::Standard => match match_char_spec('*', input) {
            Ok((rest, found)) => Ok((rest, operator_spec(found))),
            Err(_) => match match_char_spec('+', input) {
                Ok((rest, found)) => Ok((rest, operator_spec(found))),
                Err(_) => Err(one_of_2_failure(input)),
            },
        },
        Precedence::AdditionFirst => match match_char_spec('*', input) {
            Ok((rest, found)) => Ok((rest, operator_spec(found))),
            Err(message) => Err(message),
        },
    }
}

/// What may follow the first term of an expression: an operator and a term.
pub open spec fn expr_step_spec(precedence: Precedence, input: Seq<char>) -> Result<
    (Seq<char>, (Operator, isize)),
    Seq<char>,
>
    decreases input.len(), 5nat,
{
    match expr_operator_spec(precedence, input) {
        Err(message) => Err(message),
        Ok((rest, operator)) => if rest.len() <= input.len() {
            match term_spec(precedence, rest) {
                Err(message) => Err(message),
                Ok((after, value)) => Ok((after, (operator, value))),
            }
        } else {
            Err(Seq::empty())
        },
    }
}

/// [`expr_step_spec`] as a value, on texts shorter than `limit`.
pub open spec fn expr_steps(precedence: Precedence, limit: nat) -> spec_fn(Seq<char>) -> Result<
    (Seq<char>, (Operator, isize)),
    Seq<char>,
>
    decreases limit, 6nat,
{
    |s: Seq<char>|
        if s.len() < limit {
            expr_step_spec(precedence, s)
        } else {
            Err(Seq::empty())
        }
}

/// Under [`Precedence::Standard`], `expr := term (('*' | '+') term)*`, and
/// its value is that of the first term with each operator applied in the
/// order in which they stand. Under [`Precedence::AdditionFirst`],
/// `expr := term ('*' term)*`, and its value is the product.
pub open spec fn expr_spec(precedence: Precedence, input: Seq<char>) -> Result<
    (Seq<char>, isize),
    Seq<char>,
>
    decreases input.len(), 7nat,
{
    match term_spec(precedence, input) {
        Err(message) => Err(message),
        Ok((rest, first)) => {
            let (end, steps) = many0_spec(expr_steps(precedence, input.len()), rest);
            match fold_spec(first, steps) {
                Some(value) => Ok((end, value)),
                None => Err(out_of_range(input)),
            }
        },
    }
}


/// A number or a group takes at least one character.
pub proof fn lemma_number_or_sub_expression_consumes(precedence: Precedence, input: Seq<char>)
    ensures
        number_or_sub_expression_spec(precedence, input) matches Ok((rest, _)) ==> rest.len()
            < input.len(),
{
    lemma_integer_consumes_digits(input, isize::MAX as nat);
    if input.len() > 0 {
        lemma_balanced_end_bounds(input.skip(1), 0, 0);
    }
}

/// A term takes at least one character.
pub proof fn lemma_term_consumes(precedence: Precedence, input: Seq<char>)
    ensures
        term_spec(precedence, input) matches Ok((rest, _)) ==> rest.len() < input.len(),
{
    lemma_number_or_sub_expression_consumes(precedence, input);
    match number_or_sub_expression_spec(precedence, input) {
        Ok((rest, _)) => {
            lemma_many0_spec_shortens(term_steps(precedence, input.len()), rest);
        },
        Err(_) => {},
    }
}

/// An expression takes at least one character.
pub proof fn lemma_expr_consumes(precedence: Precedence, input: Seq<char>)
    ensures
        expr_spec(precedence, input) matches Ok((rest, _)) ==> rest.len() < input.len(),
{
    lemma_term_consumes(precedence, input);
    match term_spec(precedence, input) {
        Ok((rest, _)) => {
            lemma_many0_spec_shortens(expr_steps(precedence, input.len()), rest);
        },
        Err(_) => {},
    }
}

// ---------------------------------------------------------------------------
// The grammar, as parsers
// ---------------------------------------------------------------------------
/// `left` and `right` under `operator`, if the result fits.
pub fn apply(operator: Operator, left: isize, right: isize) -> (r: Option<isize>)
    ensures
        r == apply_spec(operator, left, right),
{
    match operator {
        Operator::Plus => left.checked_add(right),
        Operator::Times => left.checked_mul(right),
    }
}

/// `first` with each of `steps` applied to it in order, if every result on
/// the way fits.
pub fn fold(first: isize, steps: &Vec<(Operator, isize)>) -> (r: Option<isize>)
    ensures
        r == fold_spec(first, steps@),
{
    let mut value: isize = first;
    let mut i: usize = 0;
    assert(steps@.skip(0) =~= steps@);
    while i < steps.len()
        invariant
            i <= steps.len(),
            fold_spec(first, steps@) == fold_spec(value, steps@.skip(i as int)),
        decreases steps.len() - i,
    {
        let (operator, operand) = steps[i];
        proof {
            assert(steps@.skip(i as int)[0] == steps@[i as int]);
            assert(steps@.skip(i as int).skip(1) =~= steps@.skip(i + 1));
        }
        match apply(operator, value, operand) {
            Some(next) => {
                value = next;
            },
            None => {
                return None;
            },
        }
        i += 1;
    }
    Some(value)
}

/// Consumes the operator that may follow the first term of an expression.
pub fn expr_operator<'a>(precedence: Precedence, input: &'a str) -> (r: ParserResult<
    &'a str,
    Operator,
>)
    ensures
        outcome(r) == expr_operator_spec(precedence, input@),
{
    let named = |text: &'a str| -> (operator: Operator)
        requires
            text@.len() > 0,
        ensures
            operator == operator_spec(text@),
        {
            if text.get_char(0) == '+' {
                Operator::Plus
            } else {
                Operator::Times
            }
        };
    let times = match_char('*');
    match precedence {
        Precedence::Standard => {
            let plus = match_char('+');
            let either = one_of_2(times, plus);
            let operator = enrich(either, named);
            operator(input)
        },
        Precedence::AdditionFirst => {
            let operator = enrich(times, named);
            operator(input)
        },
    }
}

/// Parses a group in parentheses and yields the value of the expression in
/// it.
pub fn sub_expression<'a>(precedence: Precedence, input: &'a str) -> (r: ParserResult<
    &'a str,
    isize,
>)
    ensures
        outcome(r) == sub_expression_spec(precedence, input@),
    decreases input@.len(), 0nat,
{
    let open = match_char('(');
    let (rest, _) = open(input)?;
    proof {
        lemma_balanced_end_bounds(rest@, 0, 0);
    }
    let (after, inner) = take_balanced(rest)?;
    let (left, value) = expr(precedence, inner)?;
    let _ = eof(left)?;
    let close = match_char(')');
    let (after, _) = close(after)?;
    Ok((after, value))
}

/// Parses a number, or else a group in parentheses.
pub fn number_or_sub_expression<'a>(precedence: Precedence, input: &'a str) -> (r: ParserResult<
    &'a str,
    isize,
>)
    ensures
        outcome(r) == number_or_sub_expression_spec(precedence, input@),
    decreases input@.len(), 1nat,
{
    let group = |s: &'a str| -> (r: ParserResult<&'a str, isize>)
        requires
            s@.len() <= input@.len(),
        ensures
            outcome(r) == sub_expression_spec(precedence, s@),
        { sub_expression(precedence, s) };
    let either = one_of_2(integer::<isize>, group);
    either(input)
}

/// Parses a term and yields its value.
pub fn term<'a>(precedence: Precedence, input: &'a str) -> (r: ParserResult<&'a str, isize>)
    ensures
        outcome(r) == term_spec(precedence, input@),
    decreases input@.len(), 4nat,
{
    let (rest, first) = number_or_sub_expression(precedence, input)?;
    proof {
        lemma_number_or_sub_expression_consumes(precedence, input@);
    }
    let plus = match_char('+');
    let step = |s: &'a str| -> (r: ParserResult<&'a str, (Operator, isize)>)
        requires
            s@.len() < input@.len(),
        ensures
            outcome(r) == term_step_spec(precedence, s@),
        {
            match precedence {
                Precedence::Standard => Err(String::new()),
                Precedence::AdditionFirst => {
                    let (rest, _) = plus(s)?;
                    let (after, value) = number_or_sub_expression(precedence, rest)?;
                    Ok((after, (Operator::Plus, value)))
                },
            }
        };
    let steps = many0(step);
    let (end, found) = steps(rest)?;
    proof {
        lemma_many0_follows(step, term_steps(precedence, input@.len()), rest, end, found@);
    }
    match fold(first, &found) {
        Some(value) => Ok((end, value)),
        None => Err(join3("Result out of range in `", input, "`")),
    }
}

/// Parses an expression and yields its value.
pub fn expr<'a>(precedence: Precedence, input: &'a str) -> (r: ParserResult<&'a str, isize>)
    ensures
        outcome(r) == expr_spec(precedence, input@),
    decreases input@.len(), 7nat,
{
    let (rest, first) = term(precedence, input)?;
    proof {
        lemma_term_consumes(precedence, input@);
    }
    let step = |s: &'a str| -> (r: ParserResult<&'a str, (Operator, isize)>)
        requires
            s@.len() < input@.len(),
        ensures
            outcome(r) == expr_step_spec(precedence, s@),
        {
            let (rest, operator) = expr_operator(precedence, s)?;
            let (after, value) = term(precedence, rest)?;
            Ok((after, (operator, value)))
        };
    let steps = many0(step);
    let (end, found) = steps(rest)?;
    proof {
        lemma_many0_follows(step, expr_steps(precedence, input@.len()), rest, end, found@);
    }
    match fold(first, &found) {
        Some(value) => Ok((end, value)),
        None => Err(join3("Result out of range in `", input, "`")),
    }
}


// ---------------------------------------------------------------------------
// Lines and their sum
// ---------------------------------------------------------------------------
/// A value or a message, the message as its characters.
pub open spec fn verdict(r: Result<isize, String>) -> Result<isize, Seq<char>> {
    match r {
        Ok(value) => Ok(value),
        Err(message) => Err(message@),
    }
}

/// The value of the expression that `line` holds once its white space is
/// taken out. The expression has to be all there is on the line.
pub open spec fn evaluate_spec(precedence: Precedence, line: Seq<char>) -> Result<
    isize,
    Seq<char>,
> {
    full_expr_spec(precedence, without_whitespace(line))
}

/// The message for a line that could not be evaluated.
pub open spec fn line_failure(line: Seq<char>, message: Seq<char>) -> Seq<char> {
    "Failed to evaluate `"@ + line + "`: "@ + message
}

/// The message for a sum that does not fit the machine integer.
pub open spec fn sum_failure(line: Seq<char>) -> Seq<char> {
    "Sum out of range at `"@ + line + "`"@
}

/// The sum of the values of `lines`, or the message for the first line at
/// which it cannot be had.
pub open spec fn total_spec(precedence: Precedence, lines: Seq<Seq<char>>) -> Result<
    isize,
    Seq<char>,
>
    decreases lines.len(),
{
    if lines.len() == 0 {
        Ok(0)
    } else {
        match total_spec(precedence, lines.drop_last()) {
            Err(message) => Err(message),
            Ok(sum) => match evaluate_spec(precedence, lines.last()) {
                Err(message) => Err(line_failure(lines.last(), message)),
                Ok(value) => match sum.checked_add(value) {
                    Some(total) => Ok(total),
                    None => Err(sum_failure(lines.last())),
                },
            },
        }
    }
}

/// Evaluates the expression on `line`, white space aside. Fails where the
/// line does not hold one expression and nothing else.
pub fn evaluate(precedence: Precedence, line: &str) -> (r: Result<isize, String>)
    ensures
        verdict(r) == evaluate_spec(precedence, line@),
{
    let stripped = text_of(&strip_whitespace(&chars_of(line)));
    let (left, value) = expr(precedence, stripped.as_str())?;
    let _ = eof(left)?;
    Ok(value)
}

/// The sum of the values of the lines of `input` that hold more than white
/// space. Fails at the first line that cannot be evaluated, with a message
/// that quotes it.
pub fn sum_of_lines(precedence: Precedence, input: &str) -> (r: Result<isize, String>)
    ensures
        verdict(r) == total_spec(precedence, lines_spec(input@)),
{
    let found = lines(input);
    let mut sum: isize = 0;
    let mut i: usize = 0;
    while i < found.len()
        invariant
            i <= found.len(),
            texts(found@) == lines_spec(input@),
            total_spec(precedence, texts(found@).take(i as int)) == Ok::<isize, Seq<char>>(sum),
        decreases found.len() - i,
    {
        let line = text_of(&found[i]);
        proof {
            let upto = texts(found@).take(i + 1);
            assert(upto.drop_last() =~= texts(found@).take(i as int));
            assert(upto.last() == line@);
            assert(texts(found@).take(found.len() as int) =~= texts(found@));
        }
        let ghost upto = texts(found@).take(i + 1);
        match evaluate(precedence, line.as_str()) {
            Err(message) => {
                let mut failure = join3("Failed to evaluate `", line.as_str(), "`: ");
                failure.append(message.as_str());
                proof {
                    lemma_total_spec_fails_on(precedence, texts(found@), i + 1);
                }
                return Err(failure);
            },
            Ok(value) => match sum.checked_add(value) {
                None => {
                    proof {
                        lemma_total_spec_fails_on(precedence, texts(found@), i + 1);
                    }
                    return Err(join3("Sum out of range at `", line.as_str(), "`"));
                },
                Some(total) => {
                    sum = total;
                },
            },
        }
        i += 1;
    }
    assert(texts(found@).take(found.len() as int) =~= texts(found@));
    Ok(sum)
}

/// A failure on the first `k` lines is the failure on all of them.
pub proof fn lemma_total_spec_fails_on(precedence: Precedence, lines: Seq<Seq<char>>, k: int)
    requires
        0 <= k <= lines.len(),
        total_spec(precedence, lines.take(k)) is Err,
    ensures
        total_spec(precedence, lines) == total_spec(precedence, lines.take(k)),
    decreases lines.len(),
{
    if k == lines.len() {
        assert(lines.take(k) =~= lines);
    } else {
        assert(lines.drop_last().take(k) =~= lines.take(k));
        lemma_total_spec_fails_on(precedence, lines.drop_last(), k);
    }
}

/// The sum of the lines of `input`, each evaluated from left to right with
/// `+` and `*` binding alike.
pub fn star_one(input: &str) -> (r: Result<isize, String>)
    ensures
        verdict(r) == total_spec(Precedence::Standard, lines_spec(input@)),
{
    sum_of_lines(Precedence::Standard, input)
}

/// The sum of the lines of `input`, each evaluated with `+` binding tighter
/// than `*`.
pub fn star_two(input: &str) -> (r: Result<isize, String>)
    ensures
        verdict(r) == total_spec(Precedence::AdditionFirst, lines_spec(input@)),
{
    sum_of_lines(Precedence::AdditionFirst, input)
}


// ---------------------------------------------------------------------------
// What a line has to look like
// ---------------------------------------------------------------------------
/// Whether `c` can end an operand: a digit or a closing parenthesis.
pub open spec fn closes(c: char) -> bool {
    is_digit_spec(c) || c == ')'
}

/// Whether a rule that was given `input` and left `rest` consumed
/// something, from the front, that ends like an operand.
pub open spec fn ends_in_operand(input: Seq<char>, rest: Seq<char>) -> bool {
    &&& rest.len() < input.len()
    &&& input.skip(input.len() - rest.len()) == rest
    &&& closes(input[input.len() - rest.len() - 1])
}

proof fn lemma_ends_in_operand_after(input: Seq<char>, k: int, rest: Seq<char>)
    requires
        0 <= k <= input.len(),
        ends_in_operand(input.skip(k), rest),
    ensures
        ends_in_operand(input, rest),
{
    let later = input.skip(k);
    assert(input.skip(input.len() - rest.len()) =~= later.skip(later.len() - rest.len()));
}

/// A number or a group ends like an operand.
pub proof fn lemma_number_or_sub_expression_ends_in_operand(
    precedence: Precedence,
    input: Seq<char>,
)
    ensures
        number_or_sub_expression_spec(precedence, input) matches Ok((rest, _))
            ==> ends_in_operand(input, rest),
{
    lemma_integer_consumes_digits(input, isize::MAX as nat);
    match integer_spec(input, isize::MAX as nat) {
        Ok((rest, _)) => {},
        Err(_) => {
            if input.len() > 0 {
                let inner = input.skip(1);
                lemma_balanced_end_bounds(inner, 0, 0);
                let end = balanced_end(inner, 0, 0);
                match sub_expression_spec(precedence, input) {
                    Ok((rest, _)) => {
                        let after = inner.skip(end);
                        assert(rest == after.skip(1));
                        assert(after[0] == ')');
                        assert(input.skip(input.len() - rest.len()) =~= rest);
                        assert(input[input.len() - rest.len() - 1] == after[0]);
                    },
                    Err(_) => {},
                }
            }
        },
    }
}

/// Where each step that succeeds ends like an operand, what a repetition of
/// steps consumed ends like an operand, unless it consumed nothing.
pub proof fn lemma_steps_end_in_operand(
    step: spec_fn(Seq<char>) -> Result<(Seq<char>, (Operator, isize)), Seq<char>>,
    input: Seq<char>,
)
    requires
        forall|s: Seq<char>|
            (#[trigger] step(s)) matches Ok((rest, _)) ==> ends_in_operand(s, rest),
    ensures
        many0_spec(step, input).1.len() == 0 ==> many0_spec(step, input).0 == input,
        many0_spec(step, input).1.len() > 0 ==> ends_in_operand(
            input,
            many0_spec(step, input).0,
        ),
    decreases input.len(),
{
    if input.len() > 0 {
        match step(input) {
            Ok((rest, value)) => {
                if rest.len() < input.len() {
                    lemma_steps_end_in_operand(step, rest);
                    let end = many0_spec(step, rest).0;
                    if many0_spec(step, rest).1.len() > 0 {
                        lemma_ends_in_operand_after(input, input.len() - rest.len(), end);
                    }
                }
            },
            Err(_) => {},
        }
    }
}

/// A term ends like an operand.
pub proof fn lemma_term_ends_in_operand(precedence: Precedence, input: Seq<char>)
    ensures
        term_spec(precedence, input) matches Ok((rest, _)) ==> ends_in_operand(input, rest),
{
    lemma_number_or_sub_expression_ends_in_operand(precedence, input);
    match number_or_sub_expression_spec(precedence, input) {
        Ok((rest, _)) => {
            let step = term_steps(precedence, input.len());
            assert forall|s: Seq<char>| (#[trigger] step(s)) is Ok implies ends_in_operand(
                s,
                step(s)->Ok_0.0,
            ) by {
                if s.len() > 0 {
                    lemma_number_or_sub_expression_ends_in_operand(precedence, s.skip(1));
                    match step(s) {
                        Ok((left, _)) => {
                            lemma_ends_in_operand_after(s, 1, left);
                        },
                        Err(_) => {},
                    }
                }
            }
            lemma_steps_end_in_operand(step, rest);
            let end = many0_spec(step, rest).0;
            if many0_spec(step, rest).1.len() > 0 {
                lemma_ends_in_operand_after(input, input.len() - rest.len(), end);
            }
        },
        Err(_) => {},
    }
}

/// An expression ends like an operand.
pub proof fn lemma_expr_ends_in_operand(precedence: Precedence, input: Seq<char>)
    ensures
        expr_spec(precedence, input) matches Ok((rest, _)) ==> ends_in_operand(input, rest),
{
    lemma_term_ends_in_operand(precedence, input);
    match term_spec(precedence, input) {
        Ok((rest, _)) => {
            let step = expr_steps(precedence, input.len());
            assert forall|s: Seq<char>| (#[trigger] step(s)) is Ok implies ends_in_operand(
                s,
                step(s)->Ok_0.0,
            ) by {
                if s.len() > 0 {
                    lemma_term_ends_in_operand(precedence, s.skip(1));
                    match step(s) {
                        Ok((left, _)) => {
                            lemma_ends_in_operand_after(s, 1, left);
                        },
                        Err(_) => {},
                    }
                }
            }
            lemma_steps_end_in_operand(step, rest);
            let end = many0_spec(step, rest).0;
            if many0_spec(step, rest).1.len() > 0 {
                lemma_ends_in_operand_after(input, input.len() - rest.len(), end);
            }
        },
        Err(_) => {},
    }
}

/// A line can be evaluated only if, white space aside, it holds something
/// and ends in a digit or a closing parenthesis: an empty line fails, and so
/// does one that ends in an operator.
pub proof fn lemma_evaluated_line_ends_in_operand(precedence: Precedence, line: Seq<char>)
    ensures
        evaluate_spec(precedence, line) is Ok ==> without_whitespace(line).len() > 0 && closes(
            without_whitespace(line).last(),
        ),
{
    lemma_expr_ends_in_operand(precedence, without_whitespace(line));
}

/// A group that is never closed fails: where no `)` at depth zero follows
/// the `(`, there is no value.
pub proof fn lemma_unclosed_group_fails(precedence: Precedence, input: Seq<char>)
    requires
        input.len() > 0,
        balanced_end(input.skip(1), 0, 0) == input.len() - 1,
    ensures
        sub_expression_spec(precedence, input) is Err,
{
    let inner = input.skip(1);
    assert(inner.skip(inner.len() as int) =~= Seq::<char>::empty());
}

} // verus!
