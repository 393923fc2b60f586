use advent2020::parser_combinators::{
    enrich, eof, integer, many0, match_char, one_of, one_of_2, one_of_3, skip_whitespace0,
    take_while, ParserResult,
};
use std::cell::Cell;

#[test]
fn test_skip_whitespace0() {
    assert_eq!(skip_whitespace0("     a"), Ok(("a", ())));
    assert_eq!(skip_whitespace0("a"), Ok(("a", ())));
}

#[test]
fn test_integer() {
    assert_eq!(integer("123 +982"), Ok((" +982", 123)));
    assert_eq!(
        integer::<isize>("a123 +982"),
        Err("Failed to parse integer ``".to_string())
    );
    assert_eq!(
        integer::<u8>("1234"),
        Err("Failed to parse integer `1234`".to_string())
    );
    assert_eq!(integer::<isize>("9+3*4*3"), Ok(("+3*4*3", 9)));
}

#[test]
fn test_match_char() {
    let match_plus = match_char('+');

    assert_eq!(match_plus("+ 923"), Ok((" 923", "+")));
}

#[test]
fn test_one_of_2() {
    let match_plus_or_minus = one_of_2(match_char('+'), match_char('-'));

    assert_eq!(match_plus_or_minus("+ 923"), Ok((" 923", "+")));
    assert_eq!(match_plus_or_minus("- 923"), Ok((" 923", "-")));
    assert_eq!(
        match_plus_or_minus("923"),
        Err("Failed to match one_of_2 in `923`".to_string())
    );
}

#[test]
fn test_one_of_3() {
    let match_op = one_of_3(match_char('+'), match_char('-'), match_char('*'));

    assert_eq!(match_op("+ 923"), Ok((" 923", "+")));
    assert_eq!(match_op("- 923"), Ok((" 923", "-")));
    assert_eq!(match_op("* 923"), Ok((" 923", "*")));
    assert_eq!(
        match_op("923"),
        Err("Failed to match one_of_3 in `923`".to_string())
    );
}

#[test]
fn test_eof() {
    assert_eq!(eof(""), Ok(("", ())));
    assert_eq!(eof("a"), Err("Expected `eof` found `a`".to_string()));
}

#[test]
fn test_enrich() {
    let parser = enrich(integer::<usize>, |x| x * 10);

    assert_eq!(parser("12 + 19"), Ok((" + 19", 120)));
}

#[test]
fn test_take_while() {
    let parser = take_while(|s| s != "(" && s != ")");

    assert_eq!(parser("5+8+3)+3)+(3+9*7)"), Ok((")+3)+(3+9*7)", "5+8+3")));
}

#[test]
fn test_many0() {
    fn term(input: &str) -> ParserResult<&str, isize> {
        fn sub_expression(input: &str) -> ParserResult<&str, isize> {
            let (rest, _) = match_char('(')(input)?;
            let (rest, sub_expression) = {
                let l = Cell::new(0);

                take_while(move |s| {
                    if s == "(" {
                        l.set(l.get() + 1);
                        true
                    } else if s == ")" {
                        if l.get() == 0 {
                            false
                        } else {
                            l.set(l.get() - 1);
                            true
                        }
                    } else {
                        true
                    }
                })(rest)?
            };
            let (_, expression) = expr(sub_expression)?;
            let (rest, _) = match_char(')')(rest)?;

            Ok((rest, expression))
        }

        fn number_or_sub_expression(input: &str) -> ParserResult<&str, isize> {
            one_of_2(integer, sub_expression)(input)
        }
        let (rest, first) = number_or_sub_expression(input)?;

        let (rest, results) = many0(move |input: &str| -> ParserResult<&str, isize> {
            let (rest, _) = match_char('+')(input)?;
            number_or_sub_expression(rest)
        })(rest)?;

        Ok((
            rest,
            std::iter::once(first).chain(results.into_iter()).sum(),
        ))
    }

    fn expr(input: &str) -> ParserResult<&str, isize> {
        let (rest, first) = term(input)?;

        let (rest, results) = many0(move |input: &str| -> ParserResult<&str, isize> {
            let (rest, _) = match_char('*')(input)?;
            term(rest)
        })(rest)?;

        Ok((
            rest,
            std::iter::once(first).chain(results.into_iter()).product(),
        ))
    }

    assert_eq!(expr("1"), Ok(("", 1)));
    assert_eq!(expr("1+2+3+4"), Ok(("", 10)));
    assert_eq!(expr("1+2*3+4"), Ok(("", 21)));
    assert_eq!(expr("1+(2*3)+4"), Ok(("", 11)));
    assert_eq!(expr("((2+4*9)*(6+9*8+6)+6)+2+4*2"), Ok(("", 23340)));
}

#[test]
fn match_char_says_what_it_missed() {
    let match_plus = match_char('+');

    assert_eq!(
        match_plus(""),
        Err("Cannot match `+` in empty string".to_string())
    );
    assert_eq!(
        match_plus("923"),
        Err("Did not match `+` in `923`".to_string())
    );
    assert_eq!(match_char('é')("été"), Ok(("té", "é")));
}

#[test]
fn integer_stops_at_the_first_character_that_is_no_digit() {
    assert_eq!(integer::<u64>("2020abc"), Ok(("abc", 2020)));
    assert_eq!(integer::<u64>("007"), Ok(("", 7)));
    assert_eq!(integer::<u8>("255,"), Ok((",", 255)));
    assert_eq!(
        integer::<u8>("256,"),
        Err("Failed to parse integer `256`".to_string())
    );
    assert_eq!(
        integer::<u64>("18446744073709551615"),
        Ok(("", 18446744073709551615))
    );
    assert_eq!(
        integer::<u64>("18446744073709551616"),
        Err("Failed to parse integer `18446744073709551616`".to_string())
    );
    assert_eq!(
        integer::<i32>("+5"),
        Err("Failed to parse integer ``".to_string())
    );
    assert_eq!(
        integer::<i64>(""),
        Err("Failed to parse integer ``".to_string())
    );
    assert_eq!(integer::<u16>("65535"), Ok(("", 65535)));
    assert_eq!(integer::<u32>("12x"), Ok(("x", 12)));
    assert_eq!(integer::<usize>("42 "), Ok((" ", 42)));
}

#[test]
fn skip_whitespace0_takes_all_kinds_of_white_space() {
    assert_eq!(skip_whitespace0(" \t\r\n\u{a0}\u{3000}x y"), Ok(("x y", ())));
    assert_eq!(skip_whitespace0("   "), Ok(("", ())));
    assert_eq!(skip_whitespace0(""), Ok(("", ())));
}

#[test]
fn take_while_takes_everything_where_nothing_stops_it() {
    let parser = take_while(|s| s != ")");

    assert_eq!(parser("1+2"), Ok(("", "1+2")));
    assert_eq!(parser(""), Ok(("", "")));
    assert_eq!(parser(")"), Ok((")", "")));
}

#[test]
fn take_while_counts_characters_not_bytes() {
    let parser = take_while(|s| s != "é");

    assert_eq!(parser("añoé!"), Ok(("é!", "año")));
    assert_eq!(skip_whitespace0("\u{2003}é"), Ok(("é", ())));
    assert_eq!(eof("é"), Err("Expected `eof` found `é`".to_string()));
}

#[test]
fn one_of_2_prefers_the_first_parser() {
    let first = enrich(match_char('a'), |_| 1);
    let second = enrich(match_char('a'), |_| 2);

    assert_eq!(one_of_2(first, second)("ab"), Ok(("b", 1)));
}

#[test]
fn one_of_tries_each_parser_in_order() {
    let match_op = one_of(vec![match_char('+'), match_char('-'), match_char('*')]);

    assert_eq!(match_op("* 923"), Ok((" 923", "*")));
    assert_eq!(match_op("- 923"), Ok((" 923", "-")));
    assert_eq!(
        match_op("923"),
        Err("Failed to match one_of in `923`".to_string())
    );

    let nothing = one_of(Vec::<fn(&str) -> ParserResult<&str, ()>>::new());
    assert_eq!(
        nothing("923"),
        Err("Failed to match one_of in `923`".to_string())
    );
}

#[test]
fn enrich_passes_a_failure_on() {
    let parser = enrich(integer::<usize>, |x| x * 10);

    assert_eq!(
        parser("x"),
        Err("Failed to parse integer ``".to_string())
    );
}

#[test]
fn many0_stops_where_the_parser_fails() {
    let digits = many0(integer::<u8>);

    assert_eq!(digits("12+3"), Ok(("+3", vec![12])));
    assert_eq!(digits("+3"), Ok(("+3", vec![])));
    assert_eq!(digits(""), Ok(("", vec![])));

    let signs = many0(one_of_2(match_char('+'), match_char('-')));

    assert_eq!(signs("+-+1"), Ok(("1", vec!["+", "-", "+"])));
    assert_eq!(signs("+-+"), Ok(("", vec!["+", "-", "+"])));
}

#[test]
fn many0_stops_where_the_parser_consumes_nothing() {
    let blanks = many0(skip_whitespace0);

    assert_eq!(blanks("  a"), Ok(("a", vec![()])));
    assert_eq!(blanks("a"), Ok(("a", vec![])));
}
