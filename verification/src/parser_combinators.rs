//! A small library of parsers and of functions that build parsers from
//! parsers.
//!
//! A parser is any function from a text to a [`ParserResult`]: what is left
//! of the text with the value that was read, or a message that says what was
//! expected. Parsers consume from the front only.

use vstd::prelude::*;
use crate::text::{
    chars_of, decimal_value, digit_value, is_digit, is_digit_spec, is_whitespace,
    join3, lemma_decimal_value_prefix, lemma_run_end, lemma_run_end_is,
    push_char, run_end, whitespace, digit,
};

verus! {

/// What a parser returns: the rest of the input with the value parsed, or
/// the reason why nothing was.
pub type ParserResult<I, O> = Result<(I, O), String>;

/// The outcome of a parser as plain values: texts as their characters.
pub open spec fn outcome<O>(r: ParserResult<&str, O>) -> Result<(Seq<char>, O), Seq<char>> {
    match r {
        Ok((rest, value)) => Ok((rest@, value)),
        Err(message) => Err(message@),
    }
}

/// The outcome of a parser that yields a piece of text.
pub open spec fn text_outcome(r: ParserResult<&str, &str>) -> Result<
    (Seq<char>, Seq<char>),
    Seq<char>,
> {
    match r {
        Ok((rest, value)) => Ok((rest@, value@)),
        Err(message) => Err(message@),
    }
}

/// Whether `parser` can fail on `input`.
pub open spec fn rejects<'a, P, O>(parser: P, input: &'a str) -> bool where
    P: Fn(&'a str) -> ParserResult<&'a str, O>,
 {
    exists|message: String|
        parser.ensures((input,), Err::<(&'a str, O), String>(message))
}

/// Whether `parser` can only succeed on `input`.
pub open spec fn accepts<'a, P, O>(parser: P, input: &'a str) -> bool where
    P: Fn(&'a str) -> ParserResult<&'a str, O>,
 {
    forall|r: ParserResult<&'a str, O>| parser.ensures((input,), r) ==> r is Ok
}

// ---------------------------------------------------------------------------
// Primitives
// ---------------------------------------------------------------------------
/// What [`skip_whitespace0`] makes of `input`: the input without the white
/// space it starts with.
pub open spec fn skip_whitespace0_spec(input: Seq<char>) -> Result<(Seq<char>, ()), Seq<char>> {
    Ok((input.skip(run_end(input, whitespace(), 0)), ()))
}

/// Consumes the white space that the input starts with, if any. Never fails.
pub fn skip_whitespace0<'a>(input: &'a str) -> (r: ParserResult<&'a str, ()>)
    ensures
        outcome(r) == skip_whitespace0_spec(input@),
{
    let chars = chars_of(input);
    let mut i: usize = 0;
    while i < chars.len() && is_whitespace(chars[i])
        invariant
            i <= chars.len(),
            chars@ == input@,
            run_end(input@, whitespace(), 0) == run_end(input@, whitespace(), i as int),
        decreases chars.len() - i,
    {
        i += 1;
    }
    let rest = input.substring_char(i, chars.len());
    assert(rest@ =~= input@.skip(i as int));
    Ok((rest, ()))
}

/// What the parser [`match_char`]`(expected)` makes of `input`.
pub open spec fn match_char_spec(expected: char, input: Seq<char>) -> Result<
    (Seq<char>, Seq<char>),
    Seq<char>,
> {
    if input.len() == 0 {
        Err("Cannot match `"@.push(expected) + "` in empty string"@)
    } else if input[0] == expected {
        Ok((input.skip(1), input.take(1)))
    } else {
        Err("Did not match `"@.push(expected) + "` in `"@ + input + "`"@)
    }
}

/// A parser that consumes one character if it is `expected`, and yields it.
/// It fails on the empty input and on any other first character.
pub fn match_char<'a>(expected: char) -> (parser: impl Fn(&'a str) -> ParserResult<
    &'a str,
    &'a str,
>)
    ensures
        forall|input: &'a str| #[trigger] parser.requires((input,)),
        forall|input: &'a str, r: ParserResult<&'a str, &'a str>| #[trigger]
            parser.ensures((input,), r) ==> text_outcome(r) == match_char_spec(expected, input@),
{
    move |input: &'a str| -> (r: ParserResult<&'a str, &'a str>)
        ensures
            text_outcome(r) == match_char_spec(expected, input@),
        {
            let n = input.unicode_len();
            if n == 0 {
                let mut message = String::from_str("Cannot match `");
                push_char(&mut message, expected);
                message.append("` in empty string");
                Err(message)
            } else if input.get_char(0) == expected {
                let rest = input.substring_char(1, n);
                let found = input.substring_char(0, 1);
                assert(rest@ =~= input@.skip(1));
                assert(found@ =~= input@.take(1));
                Ok((rest, found))
            } else {
                let mut message = String::from_str("Did not match `");
                push_char(&mut message, expected);
                message.append("` in `");
                message.append(input);
                message.append("`");
                Err(message)
            }
        }
}

/// What [`eof`] makes of `input`.
pub open spec fn eof_spec(input: Seq<char>) -> Result<(Seq<char>, ()), Seq<char>> {
    if input.len() == 0 {
        Ok((input, ()))
    } else {
        Err("Expected `eof` found `"@ + input + "`"@)
    }
}

/// Succeeds, consuming nothing, if and only if the input is empty.
pub fn eof<'a>(input: &'a str) -> (r: ParserResult<&'a str, ()>)
    ensures
        outcome(r) == eof_spec(input@),
{
    if input.unicode_len() == 0 {
        Ok((input, ()))
    } else {
        Err(join3("Expected `eof` found `", input, "`"))
    }
}


/// A machine integer that [`integer`] can yield.
pub trait Integer: Sized {
    /// The number that the value stands for.
    spec fn value(self) -> int;

    /// The largest number that the type holds.
    spec fn largest() -> nat;

    /// [`Integer::largest`] as a machine number.
    fn limit() -> (m: u64)
        ensures
            m == Self::largest(),
    ;

    /// The value of the type that stands for `n`.
    fn from_u64(n: u64) -> (r: Self)
        requires
            n <= Self::largest(),
        ensures
            r.value() == n,
    ;
}

impl Integer for u8 {
    open spec fn value(self) -> int {
        self as int
    }

    open spec fn largest() -> nat {
        u8::MAX as nat
    }

    fn limit() -> (m: u64) {
        u8::MAX as u64
    }

    fn from_u64(n: u64) -> (r: Self) {
        n as u8
    }
}

impl Integer for u16 {
    open spec fn value(self) -> int {
        self as int
    }

    open spec fn largest() -> nat {
        u16::MAX as nat
    }

    fn limit() -> (m: u64) {
        u16::MAX as u64
    }

    fn from_u64(n: u64) -> (r: Self) {
        n as u16
    }
}

impl Integer for u32 {
    open spec fn value(self) -> int {
        self as int
    }

    open spec fn largest() -> nat {
        u32::MAX as nat
    }

    fn limit() -> (m: u64) {
        u32::MAX as u64
    }

    fn from_u64(n: u64) -> (r: Self) {
        n as u32
    }
}

impl Integer for u64 {
    open spec fn value(self) -> int {
        self as int
    }

    open spec fn largest() -> nat {
        u64::MAX as nat
    }

    fn limit() -> (m: u64) {
        u64::MAX
    }

    fn from_u64(n: u64) -> (r: Self) {
        n
    }
}

impl Integer for usize {
    open spec fn value(self) -> int {
        self as int
    }

    open spec fn largest() -> nat {
        usize::MAX as nat
    }

    fn limit() -> (m: u64) {
        usize::MAX as u64
    }

    fn from_u64(n: u64) -> (r: Self) {
        n as usize
    }
}

impl Integer for i32 {
    open spec fn value(self) -> int {
        self as int
    }

    open spec fn largest() -> nat {
        i32::MAX as nat
    }

    fn limit() -> (m: u64) {
        i32::MAX as u64
    }

    fn from_u64(n: u64) -> (r: Self) {
        n as i32
    }
}

impl Integer for i64 {
    open spec fn value(self) -> int {
        self as int
    }

    open spec fn largest() -> nat {
        i64::MAX as nat
    }

    fn limit() -> (m: u64) {
        i64::MAX as u64
    }

    fn from_u64(n: u64) -> (r: Self) {
        n as i64
    }
}

impl Integer for isize {
    open spec fn value(self) -> int {
        self as int
    }

    open spec fn largest() -> nat {
        isize::MAX as nat
    }

    fn limit() -> (m: u64) {
        isize::MAX as u64
    }

    fn from_u64(n: u64) -> (r: Self) {
        n as isize
    }
}

/// What [`integer`] makes of `input` for a type whose largest value is
/// `largest`: the digits that the input starts with are consumed and read in
/// base ten. There has to be a digit, and the number has to fit.
pub open spec fn integer_spec(input: Seq<char>, largest: nat) -> Result<
    (Seq<char>, int),
    Seq<char>,
> {
    let end = run_end(input, digit(), 0);
    let digits = input.take(end);
    if end > 0 && decimal_value(digits) <= largest {
        Ok((input.skip(end), decimal_value(digits) as int))
    } else {
        Err("Failed to parse integer `"@ + digits + "`"@)
    }
}

/// The outcome of [`integer`] as plain values.
pub open spec fn integer_outcome<T: Integer>(r: ParserResult<&str, T>) -> Result<
    (Seq<char>, int),
    Seq<char>,
> {
    match r {
        Ok((rest, n)) => Ok((rest@, n.value())),
        Err(message) => Err(message@),
    }
}

/// Consumes the longest run of ASCII digits that the input starts with and
/// yields the number it stands for. Fails if the input starts with no digit,
/// or if the number does not fit in `T`.
pub fn integer<'a, T: Integer>(input: &'a str) -> (r: ParserResult<&'a str, T>)
    ensures
        integer_outcome(r) == integer_spec(input@, T::largest()),
{
    let chars = chars_of(input);
    let mut end: usize = 0;
    while end < chars.len() && is_digit(chars[end])
        invariant
            end <= chars.len(),
            chars@ == input@,
            run_end(input@, digit(), 0) == run_end(input@, digit(), end as int),
            forall|k: int| 0 <= k < end ==> is_digit_spec(#[trigger] input@[k]),
        decreases chars.len() - end,
    {
        end += 1;
    }
    assert(run_end(input@, digit(), 0) == end);
    let digits = input.substring_char(0, end);
    assert(digits@ =~= input@.take(end as int));
    let limit = T::limit();
    let mut n: u64 = 0;
    let mut k: usize = 0;
    while k < end
        invariant
            k <= end <= chars.len(),
            chars@ == input@,
            digits@ == input@.take(end as int),
            run_end(input@, digit(), 0) == end,
            forall|k: int| 0 <= k < end ==> is_digit_spec(#[trigger] input@[k]),
            n == decimal_value(input@.take(k as int)),
            n <= limit,
            limit == T::largest(),
        decreases end - k,
    {
        let d = digit_value(chars[k]);
        let next: u128 = n as u128 * 10 + d as u128;
        proof {
            assert(input@.take(k + 1).drop_last() =~= input@.take(k as int));
            assert(input@.take(k + 1).last() == input@[k as int]);
            assert(next == decimal_value(input@.take(k + 1)));
        }
        if next > limit as u128 {
            proof {
                lemma_decimal_value_prefix(digits@, k + 1);
                assert(digits@.take(k + 1) =~= input@.take(k + 1));
            }
            return Err(join3("Failed to parse integer `", digits, "`"));
        }
        n = next as u64;
        k += 1;
    }
    if end == 0 {
        Err(join3("Failed to parse integer `", digits, "`"))
    } else {
        let rest = input.substring_char(end, chars.len());
        assert(rest@ =~= input@.skip(end as int));
        Ok((rest, T::from_u64(n)))
    }
}

// ---------------------------------------------------------------------------
// Combinators
// ---------------------------------------------------------------------------
/// Whether `predicate` can answer `b` when asked about the character `c`.
pub open spec fn answers<F>(predicate: F, c: char, b: bool) -> bool where F: Fn(&str) -> bool {
    exists|s: &str| s@ == seq![c] && #[trigger] predicate.ensures((s,), b)
}

/// What the parser [`take_while`]`(predicate)` can make of `input`: the input
/// is cut in two where the predicate first said no.
pub open spec fn take_while_outcome<'a, F>(
    predicate: F,
    input: &'a str,
    r: ParserResult<&'a str, &'a str>,
) -> bool where F: Fn(&str) -> bool {
    match r {
        Ok((rest, taken)) => {
            &&& taken@ + rest@ == input@
            &&& forall|i: int| 0 <= i < taken@.len() ==> answers(predicate, #[trigger] input@[i], true)
            &&& rest@.len() > 0 ==> answers(predicate, rest@[0], false)
        },
        Err(_) => false,
    }
}

/// A parser that consumes characters for as long as `predicate` holds of
/// them, each handed over as a text of one character, and yields what it
/// consumed. It stops before the first character that the predicate refuses,
/// or at the end of the input, and never fails.
pub fn take_while<'a, F>(predicate: F) -> (parser: impl Fn(&'a str) -> ParserResult<
    &'a str,
    &'a str,
>) where F: Fn(&str) -> bool
    requires
        forall|s: &str| s@.len() == 1 ==> #[trigger] predicate.requires((s,)),
    ensures
        forall|input: &'a str| #[trigger] parser.requires((input,)),
        forall|input: &'a str, r: ParserResult<&'a str, &'a str>| #[trigger]
            parser.ensures((input,), r) ==> take_while_outcome(predicate, input, r),
{
    move |input: &'a str| -> (r: ParserResult<&'a str, &'a str>)
        ensures
            take_while_outcome(predicate, input, r),
        {
            let n = input.unicode_len();
            let mut i: usize = 0;
            while i < n
                invariant
                    i <= n,
                    n == input@.len(),
                    forall|s: &str| s@.len() == 1 ==> #[trigger] predicate.requires((s,)),
                    forall|k: int| 0 <= k < i ==> answers(predicate, #[trigger] input@[k], true),
                decreases n - i,
            {
                let c = input.substring_char(i, i + 1);
                assert(c@ =~= seq![input@[i as int]]);
                if !predicate(c) {
                    let rest = input.substring_char(i, n);
                    let taken = input.substring_char(0, i);
                    assert(taken@ + rest@ =~= input@);
                    assert(answers(predicate, rest@[0], false));
                    return Ok((rest, taken));
                }
                assert(answers(predicate, input@[i as int], true));
                i += 1;
            }
            let rest = input.substring_char(n, n);
            assert(input@ + rest@ =~= input@);
            Ok((rest, input))
        }
}


/// The message with which [`one_of_2`] fails on `input`.
pub open spec fn one_of_2_failure(input: Seq<char>) -> Seq<char> {
    "Failed to match one_of_2 in `"@ + input + "`"@
}

/// The message with which [`one_of_3`] fails on `input`.
pub open spec fn one_of_3_failure(input: Seq<char>) -> Seq<char> {
    "Failed to match one_of_3 in `"@ + input + "`"@
}

/// The message with which [`one_of`] fails on `input`.
pub open spec fn one_of_failure(input: Seq<char>) -> Seq<char> {
    "Failed to match one_of in `"@ + input + "`"@
}

/// What the parser [`one_of_2`]`(p1, p2)` can make of `input`: what `p1`
/// made of it if `p1` succeeded; else what `p2` made of it if that one
/// succeeded; else a failure of its own.
pub open spec fn one_of_2_outcome<'a, First, Second, O>(
    p1: First,
    p2: Second,
    input: &'a str,
    r: ParserResult<&'a str, O>,
) -> bool where
    First: Fn(&'a str) -> ParserResult<&'a str, O>,
    Second: Fn(&'a str) -> ParserResult<&'a str, O>,
 {
    ||| r is Ok && p1.ensures((input,), r)
    ||| rejects(p1, input) && r is Ok && p2.ensures((input,), r)
    ||| rejects(p1, input) && rejects(p2, input) && r is Err && r->Err_0@ == one_of_2_failure(
        input@,
    )
}

/// A parser that tries `p1` and then `p2`, each on the whole input, and
/// yields the first success. It fails only if both do.
pub fn one_of_2<'a, First, Second, O>(p1: First, p2: Second) -> (parser: impl Fn(&'a str) -> ParserResult<
    &'a str,
    O,
>) where
    First: Fn(&'a str) -> ParserResult<&'a str, O>,
    Second: Fn(&'a str) -> ParserResult<&'a str, O>,

    ensures
        forall|input: &'a str|
            p1.requires((input,)) && p2.requires((input,)) ==> #[trigger] parser.requires(
                (input,),
            ),
        forall|input: &'a str, r: ParserResult<&'a str, O>| #[trigger]
            parser.ensures((input,), r) ==> one_of_2_outcome(p1, p2, input, r),
{
    move |input: &'a str| -> (r: ParserResult<&'a str, O>)
        requires
            p1.requires((input,)),
            p2.requires((input,)),
        ensures
            one_of_2_outcome(p1, p2, input, r),
        {
            match p1(input) {
                Ok(found) => Ok(found),
                Err(_) => match p2(input) {
                    Ok(found) => Ok(found),
                    Err(_) => Err(join3("Failed to match one_of_2 in `", input, "`")),
                },
            }
        }
}

/// What the parser [`one_of_3`]`(p1, p2, p3)` can make of `input`: the first
/// success among what `p1`, `p2` and `p3` made of it, in this order, or a
/// failure of its own.
pub open spec fn one_of_3_outcome<'a, First, Second, Third, O>(
    p1: First,
    p2: Second,
    p3: Third,
    input: &'a str,
    r: ParserResult<&'a str, O>,
) -> bool where
    First: Fn(&'a str) -> ParserResult<&'a str, O>,
    Second: Fn(&'a str) -> ParserResult<&'a str, O>,
    Third: Fn(&'a str) -> ParserResult<&'a str, O>,
 {
    ||| r is Ok && p1.ensures((input,), r)
    ||| rejects(p1, input) && r is Ok && p2.ensures((input,), r)
    ||| rejects(p1, input) && rejects(p2, input) && r is Ok && p3.ensures((input,), r)
    ||| rejects(p1, input) && rejects(p2, input) && rejects(p3, input) && r is Err
        && r->Err_0@ == one_of_3_failure(input@)
}

/// A parser that tries `p1`, `p2` and `p3` in this order, each on the whole
/// input, and yields the first success. It fails only if all three do.
pub fn one_of_3<'a, First, Second, Third, O>(p1: First, p2: Second, p3: Third) -> (parser: impl Fn(
    &'a str,
) -> ParserResult<&'a str, O>) where
    First: Fn(&'a str) -> ParserResult<&'a str, O>,
    Second: Fn(&'a str) -> ParserResult<&'a str, O>,
    Third: Fn(&'a str) -> ParserResult<&'a str, O>,

    ensures
        forall|input: &'a str|
            p1.requires((input,)) && p2.requires((input,)) && p3.requires((input,))
                ==> #[trigger] parser.requires((input,)),
        forall|input: &'a str, r: ParserResult<&'a str, O>| #[trigger]
            parser.ensures((input,), r) ==> one_of_3_outcome(p1, p2, p3, input, r),
{
    move |input: &'a str| -> (r: ParserResult<&'a str, O>)
        requires
            p1.requires((input,)),
            p2.requires((input,)),
            p3.requires((input,)),
        ensures
            one_of_3_outcome(p1, p2, p3, input, r),
        {
            match p1(input) {
                Ok(found) => Ok(found),
                Err(_) => match p2(input) {
                    Ok(found) => Ok(found),
                    Err(_) => match p3(input) {
                        Ok(found) => Ok(found),
                        Err(_) => Err(join3("Failed to match one_of_3 in `", input, "`")),
                    },
                },
            }
        }
}

/// What the parser [`one_of`]`(parsers)` can make of `input`: what the first
/// of the parsers that succeeded made of it, all the ones before it having
/// failed; or a failure of its own, all of them having failed.
pub open spec fn one_of_outcome<'a, P, O>(
    parsers: Seq<P>,
    input: &'a str,
    r: ParserResult<&'a str, O>,
) -> bool where P: Fn(&'a str) -> ParserResult<&'a str, O> {
    ||| exists|k: int|
        {
            &&& 0 <= k < parsers.len()
            &&& forall|j: int| 0 <= j < k ==> rejects(#[trigger] parsers[j], input)
            &&& r is Ok
            &&& #[trigger] parsers[k].ensures((input,), r)
        }
    ||| {
        &&& forall|j: int| 0 <= j < parsers.len() ==> rejects(#[trigger] parsers[j], input)
        &&& r is Err
        &&& r->Err_0@ == one_of_failure(input@)
    }
}

/// A parser that tries each of `parsers` in order, each on the whole input,
/// and yields the first success. It fails only if all of them do: so always
/// where there is none.
pub fn one_of<'a, P, O>(parsers: Vec<P>) -> (parser: impl Fn(&'a str) -> ParserResult<
    &'a str,
    O,
>) where P: Fn(&'a str) -> ParserResult<&'a str, O>
    ensures
        forall|input: &'a str|
            (forall|j: int| 0 <= j < parsers.len() ==> (#[trigger] parsers[j]).requires((input,)))
                ==> #[trigger] parser.requires((input,)),
        forall|input: &'a str, r: ParserResult<&'a str, O>| #[trigger]
            parser.ensures((input,), r) ==> one_of_outcome(parsers@, input, r),
{
    move |input: &'a str| -> (r: ParserResult<&'a str, O>)
        requires
            forall|j: int| 0 <= j < parsers.len() ==> (#[trigger] parsers[j]).requires((input,)),
        ensures
            one_of_outcome(parsers@, input, r),
        {
            let mut k: usize = 0;
            while k < parsers.len()
                invariant
                    k <= parsers.len(),
                    forall|j: int|
                        0 <= j < parsers.len() ==> (#[trigger] parsers[j]).requires((input,)),
                    forall|j: int| 0 <= j < k ==> rejects(#[trigger] parsers@[j], input),
                decreases parsers.len() - k,
            {
                match (parsers[k])(input) {
                    Ok(found) => {
                        assert(parsers@[k as int].ensures(
                            (input,),
                            Ok::<(&'a str, O), String>(found),
                        ));
                        return Ok(found);
                    },
                    Err(message) => {
                        assert(parsers@[k as int].ensures(
                            (input,),
                            Err::<(&'a str, O), String>(message),
                        ));
                    },
                }
                k += 1;
            }
            Err(join3("Failed to match one_of in `", input, "`"))
        }
}

/// What the parser [`enrich`]`(parser, enricher)` can make of `input`: the
/// failure of `parser`, or what it left with what `enricher` made of its
/// value.
pub open spec fn enrich_outcome<'a, I, O, P, F>(
    parser: P,
    enricher: F,
    input: &'a str,
    r: ParserResult<&'a str, O>,
) -> bool where P: Fn(&'a str) -> ParserResult<&'a str, I>, F: Fn(I) -> O {
    match r {
        Ok((rest, value)) => exists|parsed: I|
            parser.ensures((input,), Ok::<(&'a str, I), String>((rest, parsed)))
                && #[trigger] enricher.ensures((parsed,), value),
        Err(message) => parser.ensures((input,), Err::<(&'a str, I), String>(message)),
    }
}

/// Whether `enricher` takes every value that `parser` can yield on `input`.
pub open spec fn enriches<'a, I, O, P, F>(parser: P, enricher: F, input: &'a str) -> bool where
    P: Fn(&'a str) -> ParserResult<&'a str, I>,
    F: Fn(I) -> O,
 {
    forall|rest: &'a str, parsed: I| #[trigger]
        parser.ensures((input,), Ok::<(&'a str, I), String>((rest, parsed)))
            ==> enricher.requires((parsed,))
}

/// A parser that does what `parser` does and hands the value on through
/// `enricher`. A failure of `parser` is passed on as it is.
pub fn enrich<'a, I, O, P, F>(parser: P, enricher: F) -> (enriched: impl Fn(
    &'a str,
) -> ParserResult<&'a str, O>) where P: Fn(&'a str) -> ParserResult<&'a str, I>, F: Fn(I) -> O
    ensures
        forall|input: &'a str|
            parser.requires((input,)) && enriches(parser, enricher, input)
                ==> #[trigger] enriched.requires((input,)),
        forall|input: &'a str, r: ParserResult<&'a str, O>| #[trigger]
            enriched.ensures((input,), r) ==> enrich_outcome(parser, enricher, input, r),
{
    move |input: &'a str| -> (r: ParserResult<&'a str, O>)
        requires
            parser.requires((input,)),
            enriches(parser, enricher, input),
        ensures
            enrich_outcome(parser, enricher, input, r),
        {
            match parser(input) {
                Ok((rest, parsed)) => {
                    let ghost before = parsed;
                    let value = enricher(parsed);
                    assert(exists|parsed: I|
                        parser.ensures((input,), Ok::<(&'a str, I), String>((rest, parsed)))
                            && #[trigger] enricher.ensures((parsed,), value)) by {
                        assert(enricher.ensures((before,), value));
                    }
                    let r: ParserResult<&'a str, O> = Ok((rest, value));
                    assert(r matches Ok((rest2, value2)) && rest2 == rest && value2 == value);
                    r
                },
                Err(message) => Err(message),
            }
        }
}


/// Whether `parser` can succeed on `input` without consuming any of it.
pub open spec fn stalls<'a, P, O>(parser: P, input: &'a str) -> bool where
    P: Fn(&'a str) -> ParserResult<&'a str, O>,
 {
    exists|rest: &'a str, value: O| #[trigger]
        parser.ensures((input,), Ok::<(&'a str, O), String>((rest, value))) && rest@.len()
            >= input@.len()
}

/// Whether `parser`, applied over and over from `input` on, each time to
/// what the time before left, and each time consuming something, can yield
/// `values` in this order and leave `rest`.
pub open spec fn repeats<'a, P, O>(parser: P, input: &'a str, rest: &'a str, values: Seq<O>) -> bool where
    P: Fn(&'a str) -> ParserResult<&'a str, O>,

    decreases values.len(),
{
    if values.len() == 0 {
        rest == input
    } else {
        exists|next: &'a str|
            {
                &&& #[trigger] parser.ensures(
                    (input,),
                    Ok::<(&'a str, O), String>((next, values[0])),
                )
                &&& next@.len() < input@.len()
                &&& repeats(parser, next, rest, values.skip(1))
            }
    }
}

/// What the parser [`many0`]`(parser)` can make of `input`: `parser` was
/// applied over and over, and where it stopped nothing was left, or `parser`
/// failed, or it succeeded without consuming anything.
pub open spec fn many0_outcome<'a, P, O>(
    parser: P,
    input: &'a str,
    r: ParserResult<&'a str, Vec<O>>,
) -> bool where P: Fn(&'a str) -> ParserResult<&'a str, O> {
    match r {
        Ok((rest, values)) => {
            &&& repeats(parser, input, rest, values@)
            &&& rest@.len() == 0 || rejects(parser, rest) || stalls(parser, rest)
        },
        Err(_) => false,
    }
}

/// Whether `parser` takes every text that is no longer than `input`.
pub open spec fn takes_up_to<'a, P, O>(parser: P, input: &'a str) -> bool where
    P: Fn(&'a str) -> ParserResult<&'a str, O>,
 {
    forall|s: &'a str| s@.len() <= input@.len() ==> #[trigger] parser.requires((s,))
}

/// One more application at the end of a run of applications.
pub proof fn lemma_repeats_push<'a, P, O>(
    parser: P,
    input: &'a str,
    rest: &'a str,
    values: Seq<O>,
    next: &'a str,
    value: O,
) where P: Fn(&'a str) -> ParserResult<&'a str, O>
    requires
        repeats(parser, input, rest, values),
        parser.ensures((rest,), Ok::<(&'a str, O), String>((next, value))),
        next@.len() < rest@.len(),
    ensures
        repeats(parser, input, next, values.push(value)),
    decreases values.len(),
{
    let longer = values.push(value);
    if values.len() == 0 {
        assert(longer[0] == value);
        assert(longer.skip(1) =~= Seq::<O>::empty());
        assert(repeats(parser, next, next, longer.skip(1)));
    } else {
        let mid = choose|mid: &'a str|
            {
                &&& #[trigger] parser.ensures(
                    (input,),
                    Ok::<(&'a str, O), String>((mid, values[0])),
                )
                &&& mid@.len() < input@.len()
                &&& repeats(parser, mid, rest, values.skip(1))
            };
        lemma_repeats_push(parser, mid, rest, values.skip(1), next, value);
        assert(longer[0] == values[0]);
        assert(longer.skip(1) =~= values.skip(1).push(value));
    }
}

/// A parser that applies `parser` over and over, each time to what the time
/// before left, and yields the values in order. It stops, before the
/// application in question, when `parser` fails, when nothing is left, or
/// when `parser` succeeds without consuming anything. It never fails.
pub fn many0<'a, P, O>(parser: P) -> (repeated: impl Fn(&'a str) -> ParserResult<&'a str, Vec<O>>) where
    P: Fn(&'a str) -> ParserResult<&'a str, O>,

    ensures
        forall|input: &'a str|
            takes_up_to(parser, input) ==> #[trigger] repeated.requires((input,)),
        forall|input: &'a str, r: ParserResult<&'a str, Vec<O>>| #[trigger]
            repeated.ensures((input,), r) ==> many0_outcome(parser, input, r),
{
    move |input: &'a str| -> (r: ParserResult<&'a str, Vec<O>>)
        requires
            takes_up_to(parser, input),
        ensures
            many0_outcome(parser, input, r),
        {
            let mut values: Vec<O> = Vec::new();
            let mut rest: &'a str = input;
            loop
                invariant
                    takes_up_to(parser, input),
                    rest@.len() <= input@.len(),
                    repeats(parser, input, rest, values@),
                decreases rest@.len(),
            {
                let left = rest.unicode_len();
                if left == 0 {
                    return Ok((rest, values));
                }
                match parser(rest) {
                    Ok((next, value)) => {
                        if next.unicode_len() >= left {
                            assert(stalls(parser, rest));
                            return Ok((rest, values));
                        }
                        proof {
                            lemma_repeats_push(parser, input, rest, values@, next, value);
                        }
                        values.push(value);
                        rest = next;
                    },
                    Err(message) => {
                        assert(rejects(parser, rest));
                        return Ok((rest, values));
                    },
                }
            }
        }
}


// ---------------------------------------------------------------------------
// What holds of the parsers
// ---------------------------------------------------------------------------
/// Whether `rest` is what is left of `input` after some of its front was
/// consumed.
pub open spec fn is_suffix(rest: Seq<char>, input: Seq<char>) -> bool {
    rest.len() <= input.len() && input.skip(input.len() - rest.len()) == rest
}

/// [`integer`] reads a run of digits up to the first character that is no
/// digit: on digits that stand for a number that fits, followed by a text
/// that starts with no digit, it yields the number and leaves that text
/// untouched.
pub proof fn lemma_integer_reads_digits(digits: Seq<char>, suffix: Seq<char>, largest: nat)
    requires
        digits.len() > 0,
        forall|i: int| 0 <= i < digits.len() ==> is_digit_spec(#[trigger] digits[i]),
        suffix.len() == 0 || !is_digit_spec(suffix[0]),
        decimal_value(digits) <= largest,
    ensures
        integer_spec(digits + suffix, largest) == Ok::<(Seq<char>, int), Seq<char>>(
            (suffix, decimal_value(digits) as int),
        ),
{
    let input = digits + suffix;
    let end = digits.len() as int;
    assert forall|k: int| 0 <= k < end implies digit()(#[trigger] input[k]) by {
        assert(input[k] == digits[k]);
    }
    if end < input.len() {
        assert(input[end] == suffix[0]);
    }
    lemma_run_end_is(input, digit(), 0, end);
    assert(input.take(end) =~= digits);
    assert(input.skip(end) =~= suffix);
}

/// [`integer`] never consumes anything but digits, and always stops before a
/// character that is no digit.
pub proof fn lemma_integer_consumes_digits(input: Seq<char>, largest: nat)
    ensures
        integer_spec(input, largest) matches Ok((rest, n)) ==> {
            &&& is_suffix(rest, input)
            &&& rest.len() < input.len()
            &&& forall|i: int|
                0 <= i < input.len() - rest.len() ==> is_digit_spec(#[trigger] input[i])
            &&& rest.len() == 0 || !is_digit_spec(rest[0])
            &&& 0 <= n <= largest
        },
{
    lemma_run_end(input, digit(), 0);
}

/// [`one_of_2`] prefers its first parser: where that one can only succeed,
/// the result is one of its results, whatever the second would have made of
/// the input.
pub proof fn lemma_one_of_2_left_biased<'a, First, Second, O>(
    p1: First,
    p2: Second,
    input: &'a str,
    r: ParserResult<&'a str, O>,
) where
    First: Fn(&'a str) -> ParserResult<&'a str, O>,
    Second: Fn(&'a str) -> ParserResult<&'a str, O>,

    requires
        one_of_2_outcome(p1, p2, input, r),
        accepts(p1, input),
    ensures
        r is Ok,
        p1.ensures((input,), r),
{
}

/// [`one_of_2`] turns to its second parser only where the first has failed,
/// and fails only where both have.
pub proof fn lemma_one_of_2_falls_back<'a, First, Second, O>(
    p1: First,
    p2: Second,
    input: &'a str,
    r: ParserResult<&'a str, O>,
) where
    First: Fn(&'a str) -> ParserResult<&'a str, O>,
    Second: Fn(&'a str) -> ParserResult<&'a str, O>,

    requires
        one_of_2_outcome(p1, p2, input, r),
        !rejects(p1, input) || accepts(p2, input),
    ensures
        r is Ok,
{
}

/// [`one_of_3`] prefers the earlier parser in the same way.
pub proof fn lemma_one_of_3_left_biased<'a, First, Second, Third, O>(
    p1: First,
    p2: Second,
    p3: Third,
    input: &'a str,
    r: ParserResult<&'a str, O>,
) where
    First: Fn(&'a str) -> ParserResult<&'a str, O>,
    Second: Fn(&'a str) -> ParserResult<&'a str, O>,
    Third: Fn(&'a str) -> ParserResult<&'a str, O>,

    requires
        one_of_3_outcome(p1, p2, p3, input, r),
    ensures
        accepts(p1, input) ==> r is Ok && p1.ensures((input,), r),
        !accepts(p1, input) && accepts(p2, input) ==> r is Ok && (p1.ensures((input,), r)
            || p2.ensures((input,), r)),
{
}

/// [`many0`] consumes what its parser consumed and nothing else: where every
/// success of the parser leaves an end of what it was given, the repetition
/// leaves an end of its input, and each of the values has cost at least one
/// character.
pub proof fn lemma_many0_consumes_what_parser_consumed<'a, P, O>(
    parser: P,
    input: &'a str,
    rest: &'a str,
    values: Seq<O>,
) where P: Fn(&'a str) -> ParserResult<&'a str, O>
    requires
        repeats(parser, input, rest, values),
        forall|s: &'a str, next: &'a str, value: O| #[trigger]
            parser.ensures((s,), Ok::<(&'a str, O), String>((next, value))) ==> is_suffix(
                next@,
                s@,
            ),
    ensures
        is_suffix(rest@, input@),
        rest@.len() + values.len() <= input@.len(),
    decreases values.len(),
{
    if values.len() == 0 {
        assert(input@.skip(0) =~= input@);
    } else {
        let next = choose|next: &'a str|
            {
                &&& #[trigger] parser.ensures(
                    (input,),
                    Ok::<(&'a str, O), String>((next, values[0])),
                )
                &&& next@.len() < input@.len()
                &&& repeats(parser, next, rest, values.skip(1))
            };
        lemma_many0_consumes_what_parser_consumed(parser, next, rest, values.skip(1));
        assert(input@.skip(input@.len() - rest@.len()) =~= next@.skip(next@.len() - rest@.len()));
    }
}

/// [`many0`] of a parser that cannot succeed on `input` yields no value and
/// hands `input` back as it got it.
pub proof fn lemma_many0_of_failing_parser<'a, P, O>(
    parser: P,
    input: &'a str,
    r: ParserResult<&'a str, Vec<O>>,
) where P: Fn(&'a str) -> ParserResult<&'a str, O>
    requires
        many0_outcome(parser, input, r),
        forall|x: ParserResult<&'a str, O>| parser.ensures((input,), x) ==> x is Err,
    ensures
        r matches Ok((rest, values)) && rest == input && values@.len() == 0,
{
}

/// What [`many0`] makes of `input` when its parser does what `step` says:
/// the values that `step` yields one after the other, up to the first
/// application that fails or consumes nothing, and what is left there.
pub open spec fn many0_spec<O>(
    step: spec_fn(Seq<char>) -> Result<(Seq<char>, O), Seq<char>>,
    input: Seq<char>,
) -> (Seq<char>, Seq<O>)
    decreases input.len(),
{
    if input.len() == 0 {
        (input, Seq::empty())
    } else {
        match step(input) {
            Ok((rest, value)) => if rest.len() < input.len() {
                let (end, values) = many0_spec(step, rest);
                (end, seq![value] + values)
            } else {
                (input, Seq::empty())
            },
            Err(_) => (input, Seq::empty()),
        }
    }
}

/// Whether `step` says what `parser` does on every text that is no longer
/// than `input`.
pub open spec fn follows<'a, P, O>(
    parser: P,
    step: spec_fn(Seq<char>) -> Result<(Seq<char>, O), Seq<char>>,
    input: &'a str,
) -> bool where P: Fn(&'a str) -> ParserResult<&'a str, O> {
    forall|s: &'a str, r: ParserResult<&'a str, O>|
        s@.len() <= input@.len() && #[trigger] parser.ensures((s,), r) ==> outcome(r) == step(s@)
}

/// Where the parser of [`many0`] is a function of the characters of its
/// input, so is the repetition: it yields what [`many0_spec`] says.
pub proof fn lemma_many0_follows<'a, P, O>(
    parser: P,
    step: spec_fn(Seq<char>) -> Result<(Seq<char>, O), Seq<char>>,
    input: &'a str,
    rest: &'a str,
    values: Seq<O>,
) where P: Fn(&'a str) -> ParserResult<&'a str, O>
    requires
        repeats(parser, input, rest, values),
        rest@.len() == 0 || rejects(parser, rest) || stalls(parser, rest),
        follows(parser, step, input),
    ensures
        many0_spec(step, input@) == (rest@, values),
    decreases values.len(),
{
    if values.len() == 0 {
        if rest@.len() == 0 {
        } else if rejects(parser, rest) {
            let message = choose|message: String|
                parser.ensures((rest,), Err::<(&'a str, O), String>(message));
            assert(outcome(Err::<(&'a str, O), String>(message)) == step(rest@));
        } else {
            let (next, value) = choose|next: &'a str, value: O| #[trigger]
                parser.ensures((rest,), Ok::<(&'a str, O), String>((next, value)))
                    && next@.len() >= rest@.len();
            assert(outcome(Ok::<(&'a str, O), String>((next, value))) == step(rest@));
        }
        assert(values =~= Seq::<O>::empty());
    } else {
        let next = choose|next: &'a str|
            {
                &&& #[trigger] parser.ensures(
                    (input,),
                    Ok::<(&'a str, O), String>((next, values[0])),
                )
                &&& next@.len() < input@.len()
                &&& repeats(parser, next, rest, values.skip(1))
            };
        assert(outcome(Ok::<(&'a str, O), String>((next, values[0]))) == step(input@));
        lemma_many0_follows(parser, step, next, rest, values.skip(1));
        assert(seq![values[0]] + values.skip(1) =~= values);
    }
}


/// A repetition leaves no more than it was given.
pub proof fn lemma_many0_spec_shortens<O>(
    step: spec_fn(Seq<char>) -> Result<(Seq<char>, O), Seq<char>>,
    input: Seq<char>,
)
    ensures
        many0_spec(step, input).0.len() <= input.len(),
    decreases input.len(),
{
    if input.len() > 0 {
        match step(input) {
            Ok((rest, value)) => {
                if rest.len() < input.len() {
                    lemma_many0_spec_shortens(step, rest);
                }
            },
            Err(_) => {},
        }
    }
}

} // verus!
