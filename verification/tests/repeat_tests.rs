use oni_comb_rs::combinators::basic::{successful, BasicCombinators};
use oni_comb_rs::combinators::conversion::ConversionCombinator;
use oni_comb_rs::combinators::element::{elm, elm_alpha, elm_class, elm_digit, elm_space, CharClass};
use oni_comb_rs::combinators::elements::tag;
use oni_comb_rs::combinators::logging::LoggingParser;
use oni_comb_rs::combinators::operator::OperatorParsers;
use oni_comb_rs::combinators::pattern::regex;
use oni_comb_rs::combinators::repeat::RepeatCombinators;
use oni_comb_rs::combinators::skip::SkipCombinators;
use oni_comb_rs::parse_error::ParseError;
use oni_comb_rs::parse_result::ParseResult;
use oni_comb_rs::parse_state::ParseState;
use oni_comb_rs::parser::{parse, Parser};

fn chars(s: &str) -> Vec<char> {
    s.chars().collect()
}

fn run_at<P: Parser<char>>(p: &P, text: &str, offset: usize) -> ParseResult<P::Output> {
    let input = chars(text);
    p.run(&ParseState::new(&input, offset))
}

fn success<A>(r: ParseResult<A>) -> (A, usize) {
    match r {
        ParseResult::Success { value, length } => (value, length),
        ParseResult::Failure { error, .. } => panic!("must succeed, failed with {:?}", error),
    }
}

fn failure<A>(r: ParseResult<A>) -> (ParseError, bool) {
    match r {
        ParseResult::Failure { error, committed } => (error, committed),
        ParseResult::Success { .. } => panic!("must fail"),
    }
}

#[test]
fn many0_takes_all_and_may_take_none() {
    let p = elm_digit().of_many0();
    assert_eq!(success(run_at(&p, "123a", 0)), (vec!['1', '2', '3'], 3));
    assert_eq!(success(run_at(&p, "abc", 0)), (vec![], 0));
    assert_eq!(success(run_at(&p, "", 0)), (vec![], 0));
    assert_eq!(success(run_at(&p, "a12", 1)), (vec!['1', '2'], 2));
}

#[test]
fn many1_needs_one_and_fails_uncommitted() {
    let p = elm_digit().of_many1();
    assert_eq!(success(run_at(&p, "12", 0)), (vec!['1', '2'], 2));
    let (error, committed) = failure(run_at(&p, "ab", 0));
    assert!(!committed);
    assert_eq!(
        error,
        ParseError::of_mismatch(0, 0, "expect repeat at least 1 times, found 0 times".to_string())
    );
}

#[test]
fn many_n_m_respects_both_bounds() {
    let p = elm_digit().of_many_n_m(2, 3);
    assert_eq!(success(run_at(&p, "12345", 0)), (vec!['1', '2', '3'], 3));
    assert_eq!(success(run_at(&p, "12a", 0)), (vec!['1', '2'], 2));
    let (error, committed) = failure(run_at(&p, "1a", 0));
    assert!(!committed);
    assert_eq!(
        error,
        ParseError::of_mismatch(1, 1, "expect repeat at least 2 times, found 1 times".to_string())
    );
}

#[test]
fn count_takes_exactly_that_many() {
    let p = elm_alpha().of_count(2);
    assert_eq!(success(run_at(&p, "abcd", 0)), (vec!['a', 'b'], 2));
    assert!(failure(run_at(&p, "a1", 0)).0.is_mismatch());
    assert_eq!(success(run_at(&elm_alpha().of_count(0), "abcd", 0)), (vec![], 0));
}

#[test]
fn separated_lists() {
    let p = elm_digit().of_many0_sep(elm(','));
    assert_eq!(success(run_at(&p, "1,2,3", 0)), (vec!['1', '2', '3'], 5));
    assert_eq!(success(run_at(&p, "1", 0)), (vec!['1'], 1));
    assert_eq!(success(run_at(&p, "", 0)), (vec![], 0));
    let q = elm_digit().of_many1_sep(elm(','));
    assert!(!failure(run_at(&q, "x", 0)).1);
    let r = elm_digit().of_count_sep(2, elm(','));
    assert_eq!(success(run_at(&r, "1,2,3", 0)), (vec!['1', '2'], 3));
    let s = elm_digit().of_many_n_m_sep(1, 2, elm(','));
    assert_eq!(success(run_at(&s, "7,8,9", 0)), (vec!['7', '8'], 3));
}

#[test]
fn separator_without_element_is_committed() {
    let p = elm_digit().of_many0_sep(elm(','));
    let (error, committed) = failure(run_at(&p, "1,2,x", 0));
    assert!(committed);
    assert_eq!(error, ParseError::of_mismatch(4, 0, "offset: 4".to_string()));
    let q = elm_digit().of_many0_sep(elm(',').attempt());
    assert!(failure(run_at(&q, "1,", 0)).1);
}

#[test]
fn committed_failure_inside_an_element_ends_the_repetition() {
    let p = tag("ab").of_many0();
    assert_eq!(success(run_at(&p, "ababx", 0)), (vec!["ab", "ab"], 4));
    let (error, committed) = failure(run_at(&p, "abax", 0));
    assert!(committed);
    assert_eq!(
        error,
        ParseError::of_mismatch(3, 1, "tag \"ab\" expect: 'b', found: x".to_string())
    );
    let q = tag("ab").attempt().of_many0();
    assert_eq!(success(run_at(&q, "abax", 0)), (vec!["ab"], 2));
}

#[test]
fn an_element_that_consumes_nothing_is_taken_once() {
    let p = RepeatCombinators::<char>::of_many0(successful(|| 1));
    assert_eq!(success(run_at(&p, "abc", 0)), (vec![1], 0));
    let q = elm_digit().opt().of_many0();
    assert_eq!(success(run_at(&q, "12a", 0)), (vec![Some('1'), Some('2'), None], 2));
    let r = RepeatCombinators::<char>::of_many_n_m(successful(|| 1), 3, 5);
    assert!(failure(run_at(&r, "abc", 0)).0.is_mismatch());
}

fn add(a: i64, b: i64) -> i64 {
    a + b
}

fn sub(a: i64, b: i64) -> i64 {
    a - b
}

fn to_add(_: char) -> fn(i64, i64) -> i64 {
    add
}

fn to_sub(_: char) -> fn(i64, i64) -> i64 {
    sub
}

#[test]
fn chain_left1_folds_from_the_left() {
    let integer = regex(r"\d+").unwrap().convert(|s: String| s.parse::<i64>());
    let op = elm('+').map(to_add).or(elm('-').map(to_sub));
    let p = integer.chain_left1(op);
    assert_eq!(success(run_at(&p, "1+2-3", 0)), (0, 5));
    assert_eq!(success(run_at(&p, "10-2-3", 0)), (5, 6));
    assert_eq!(success(run_at(&p, "7", 0)), (7, 1));
    assert_eq!(success(run_at(&p, "7*2", 0)), (7, 1));
    let (error, committed) = failure(run_at(&p, "1+", 0));
    assert!(committed);
    assert_eq!(error, ParseError::Incomplete);
    let (_, committed) = failure(run_at(&p, "x", 0));
    assert!(!committed);
}

#[test]
fn chain_left1_reports_the_offset_of_the_missing_operand() {
    let digit = elm_digit().map(|c: char| c as i64 - '0' as i64);
    let p = digit.chain_left1(elm('+').map(to_add));
    let (error, committed) = failure(run_at(&p, "1+x", 0));
    assert!(committed);
    assert_eq!(error, ParseError::of_mismatch(2, 0, "offset: 2".to_string()));
}

#[test]
fn rest_left1_starts_from_the_given_operand() {
    let digit = elm_digit().map(|c: char| c as i64 - '0' as i64);
    let p = digit.rest_left1(elm('+').map(to_add).or(elm('-').map(to_sub)), 10);
    assert_eq!(success(run_at(&p, "+2-3", 0)), (9, 4));
    assert_eq!(success(run_at(&p, "", 0)), (10, 0));
    assert_eq!(success(run_at(&p, "x+1", 1)), (11, 2));
    assert_eq!(success(run_at(&p, "+2", 0)), (12, 2));
    assert!(failure(run_at(&p, "+x", 0)).1);
}

#[test]
fn chain_left1_stops_after_a_link_that_consumes_nothing() {
    let p = OperatorParsers::<char>::chain_left1(
        successful(|| 1i64),
        successful(|| add as fn(i64, i64) -> i64),
    );
    assert_eq!(success(run_at(&p, "abc", 0)), (2, 0));
}

#[test]
fn convert_reports_a_conversion_error() {
    let p = elm_alpha().of_many1().convert(|cs: Vec<char>| {
        if cs.len() == 2 {
            Ok(cs.len())
        } else {
            Err("not two")
        }
    });
    assert_eq!(success(run_at(&p, "ab", 0)), (2, 2));
    let (error, committed) = failure(run_at(&p, "xabc", 1));
    assert!(!committed);
    assert_eq!(error, ParseError::of_conversion(1, 3, "Conversion error".to_string()));
    assert!(error.is_conversion());
}

#[test]
fn name_wraps_the_error_and_nothing_else() {
    let p = tag("ab").name("letters");
    assert_eq!(success(run_at(&p, "ab", 0)), ("ab", 2));
    let (error, committed) = failure(run_at(&p, "ax", 0));
    assert!(committed);
    assert_eq!(
        error,
        ParseError::of_expect(
            0,
            Box::new(ParseError::of_mismatch(
                1,
                1,
                "tag \"ab\" expect: 'b', found: x".to_string()
            )),
            "failed to parse letters".to_string()
        )
    );
    assert!(error.is_expect());
    assert_eq!(
        error.to_string(),
        "failed to parse letters at 0: Mismatch at 1: tag \"ab\" expect: 'b', found: x"
    );
    let q = LoggingParser::<char>::name(
        oni_comb_rs::combinators::basic::failed::<u8, _>(|| {
            ParseError::of_custom(3, None, "mine".to_string())
        }),
        "x",
    );
    let (error, _) = failure(Parser::<char>::run(&q, &ParseState::new(&chars("a"), 0)));
    assert!(error.is_custom());
}

#[test]
fn log_changes_nothing() {
    let p = tag("ab").log("letters");
    assert_eq!(success(run_at(&p, "ab", 0)), ("ab", 2));
    let (error, committed) = failure(run_at(&p, "ax", 0));
    assert!(committed);
    assert_eq!(
        error,
        ParseError::of_mismatch(1, 1, "tag \"ab\" expect: 'b', found: x".to_string())
    );
}

#[test]
fn character_classes() {
    assert_eq!(parse(&elm_space(), &chars("\t")), Ok('\t'));
    assert!(parse(&elm_space(), &chars("x")).is_err());
    assert_eq!(parse(&elm_class(CharClass::HexDigit), &chars("F")), Ok('F'));
    assert!(parse(&elm_class(CharClass::HexDigit), &chars("g")).is_err());
    assert_eq!(parse(&elm_class(CharClass::AlphaDigit), &chars("7")), Ok('7'));
    assert!(CharClass::Alpha.contains('z'));
    assert!(!CharClass::Alpha.contains('1'));
}

#[test]
fn identity_of_map() {
    for text in ["ab", "ax", "", "abab"] {
        let plain = run_at(&tag("ab"), text, 0);
        let mapped = run_at(&tag("ab").map(|x| x), text, 0);
        match (plain, mapped) {
            (
                ParseResult::Success { value: a, length: n },
                ParseResult::Success { value: b, length: m },
            ) => {
                assert_eq!(a, b);
                assert_eq!(n, m);
            }
            (
                ParseResult::Failure { error: a, committed: c },
                ParseResult::Failure { error: b, committed: d },
            ) => {
                assert_eq!(a, b);
                assert_eq!(c, d);
            }
            _ => panic!("map changed the outcome"),
        }
    }
}

#[test]
fn and_then_is_associative() {
    for text in ["abc", "abx", "axc", "xbc", "ab", ""] {
        let left = run_at(&elm('a').and_then(elm('b')).and_then(elm('c')), text, 0);
        let right = run_at(&elm('a').and_then(elm('b').and_then(elm('c'))), text, 0);
        match (left, right) {
            (
                ParseResult::Success { value: ((a, b), c), length: n },
                ParseResult::Success { value: (x, (y, z)), length: m },
            ) => {
                assert_eq!((a, b, c), (x, y, z));
                assert_eq!(n, m);
            }
            (
                ParseResult::Failure { error: a, committed: c },
                ParseResult::Failure { error: b, committed: d },
            ) => {
                assert_eq!(a, b);
                assert_eq!(c, d);
            }
            _ => panic!("the two groupings differ"),
        }
    }
}

#[test]
fn or_respects_commit() {
    let p = tag("ab").or(tag("ac"));
    let (error, committed) = failure(run_at(&p, "ac", 0));
    assert!(committed);
    assert_eq!(error, failure(run_at(&tag("ab"), "ac", 0)).0);
    let q = tag("xy").or(tag("ac"));
    assert_eq!(success(run_at(&q, "ac", 0)), success(run_at(&tag("ac"), "ac", 0)));
}

#[test]
fn attempt_erases_commitment() {
    for text in ["ab", "ax", "x", ""] {
        if let ParseResult::Failure { committed, .. } = run_at(&tag("ab").attempt(), text, 0) {
            assert!(!committed);
        }
    }
    assert!(failure(run_at(&tag("ab"), "ax", 0)).1);
}

#[test]
fn a_success_never_reaches_beyond_the_input() {
    let p = elm_digit().of_many0().and_then(elm_alpha().of_many0());
    for (text, offset) in [("12ab", 0usize), ("12ab", 2), ("12ab", 4), ("", 0)] {
        let (_, length) = success(run_at(&p, text, offset));
        assert!(offset + length <= text.len());
    }
    assert_eq!(success(run_at(&p, "12ab!", 1)).1, 3);
}

#[test]
fn skip_left_and_right_on_tags() {
    let p = tag("a").skip_left(tag("b"));
    assert_eq!(success(run_at(&p, "ab", 0)), ("b", 2));
    assert!(failure(run_at(&p, "ax", 0)).1);
    let q = tag("a").skip_right(tag("b"));
    assert_eq!(success(run_at(&q, "ab", 0)), ("a", 2));
}
