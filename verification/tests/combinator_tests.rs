use oni_comb_rs::combinators::basic::{failed, successful, BasicCombinators};
use oni_comb_rs::combinators::element::{any_elem, elm, elm_digit, elm_of, elm_pred, none_of};
use oni_comb_rs::combinators::elements::{literal_result, tag, tag_no_case};
use oni_comb_rs::combinators::operator::OperatorParsers;
use oni_comb_rs::combinators::pattern::{regex, regex_from, regex_result};
use oni_comb_rs::combinators::skip::SkipCombinators;
use oni_comb_rs::parse_error::ParseError;
use oni_comb_rs::parse_result::ParseResult;
use oni_comb_rs::parse_state::ParseState;
use oni_comb_rs::parser::{parse, Parser};

fn chars(s: &str) -> Vec<char> {
    s.chars().collect()
}

#[test]
fn successful_consumes_nothing() {
    let input = chars("abc");
    let p = successful(|| 7);
    match p.run(&ParseState::new(&input, 1)) {
        ParseResult::Success { value, length } => {
            assert_eq!(value, 7);
            assert_eq!(length, 0);
        }
        ParseResult::Failure { .. } => panic!("must succeed"),
    }
}

#[test]
fn failed_is_uncommitted() {
    let input = chars("abc");
    let p = failed::<u8, _>(|| ParseError::of_in_complete());
    match Parser::<char>::run(&p, &ParseState::new(&input, 0)) {
        ParseResult::Failure { error, committed } => {
            assert_eq!(error, ParseError::Incomplete);
            assert!(!committed);
        }
        ParseResult::Success { .. } => panic!("must fail"),
    }
    let q = tag("abc").or(failed(|| ParseError::of_custom(0, None, "no keyword".to_string())));
    assert_eq!(parse(&q, &input), Ok("abc"));
    assert_eq!(
        parse(&q, &chars("xyz")),
        Err(ParseError::of_custom(0, None, "no keyword".to_string()))
    );
}

#[test]
fn tag_commits_after_first_match() {
    let input = chars("abx");
    let p = tag("abc");
    match p.run(&ParseState::new(&input, 0)) {
        ParseResult::Failure { error, committed } => {
            assert!(committed);
            assert_eq!(
                error,
                ParseError::of_mismatch(2, 2, "tag \"abc\" expect: 'c', found: x".to_string())
            );
        }
        ParseResult::Success { .. } => panic!("must fail"),
    }
    let input = chars("xbc");
    match p.run(&ParseState::new(&input, 0)) {
        ParseResult::Failure { committed, .. } => assert!(!committed),
        ParseResult::Success { .. } => panic!("must fail"),
    }
}

#[test]
fn tag_matches_in_full() {
    let input = chars("hello world");
    let p = tag("hello");
    assert_eq!(parse(&p, &input), Ok("hello"));
    let q = tag_no_case("HeLLo");
    assert_eq!(parse(&q, &input), Ok("HeLLo"));
}

#[test]
fn seq_on_bytes() {
    let p = oni_comb_rs::combinators::elements::seq(b"ab".as_slice());
    assert_eq!(parse(&p, b"abc".as_slice()), Ok(b"ab".as_slice()));
    match p.run(&ParseState::new(b"a".as_slice(), 0)) {
        ParseResult::Failure { error, committed } => {
            assert_eq!(error, ParseError::Incomplete);
            assert!(committed);
        }
        ParseResult::Success { .. } => panic!("must fail"),
    }
}

#[test]
fn or_stops_at_committed_failure() {
    let input = chars("abx");
    let p = tag("abc").or(tag("abx"));
    assert!(parse(&p, &input).is_err());
    let q = tag("abc").attempt().or(tag("abx"));
    assert_eq!(parse(&q, &input), Ok("abx"));
}

#[test]
fn and_then_adds_lengths() {
    let input = chars("ab");
    let p = elm('a').and_then(elm('b'));
    match p.run(&ParseState::new(&input, 0)) {
        ParseResult::Success { value, length } => {
            assert_eq!(value, ('a', 'b'));
            assert_eq!(length, 2);
        }
        ParseResult::Failure { .. } => panic!("must succeed"),
    }
    let input = chars("ac");
    match p.run(&ParseState::new(&input, 0)) {
        ParseResult::Failure { committed, .. } => assert!(committed),
        ParseResult::Success { .. } => panic!("must fail"),
    }
}

#[test]
fn map_and_flat_map() {
    let input = chars("7x");
    let p = elm_digit().map(|c: char| c as u32 - '0' as u32);
    assert_eq!(parse(&p, &input), Ok(7));
    let q = any_elem().flat_map(|c: char| elm(if c == '7' { 'x' } else { 'y' }));
    assert_eq!(parse(&q, &input), Ok('x'));
}

#[test]
fn lookahead_consumes_nothing() {
    let input = chars("ab");
    let p = elm('a').exists_ahead();
    match p.run(&ParseState::new(&input, 0)) {
        ParseResult::Success { value, length } => {
            assert!(value);
            assert_eq!(length, 0);
        }
        ParseResult::Failure { .. } => panic!("must succeed"),
    }
    let q = elm('b').not();
    assert_eq!(parse(&q, &input), Ok(()));
    let r = elm('a').not();
    assert_eq!(
        parse(&r, &input),
        Err(ParseError::of_mismatch(0, 0, "not predicate failed".to_string()))
    );
}

#[test]
fn opt_yields_none_on_uncommitted_failure() {
    let input = chars("b");
    assert_eq!(parse(&elm('a').opt(), &input), Ok(None));
    assert_eq!(parse(&elm('b').opt(), &input), Ok(Some('b')));
}

#[test]
fn surround_keeps_the_middle() {
    let input = chars("(x)");
    let p = elm('x').surround(elm('('), elm(')'));
    assert_eq!(parse(&p, &input), Ok('x'));
    assert_eq!(parse(&elm('(').skip_left(elm('x')), &input), Ok('x'));
    assert_eq!(parse(&elm('(').skip_right(elm('x')), &input), Ok('('));
}

#[test]
fn element_sets() {
    let input = chars("q");
    let set = ['p', 'q'];
    assert_eq!(parse(&elm_of(&set), &input), Ok('q'));
    assert!(parse(&none_of(&set), &input).is_err());
    assert_eq!(parse(&elm_pred(|c: &char| *c > 'a'), &input), Ok('q'));
    assert_eq!(
        parse(&elm('z'), &input),
        Err(ParseError::of_mismatch(0, 0, "offset: 0".to_string()))
    );
    let empty: Vec<char> = Vec::new();
    assert_eq!(parse(&any_elem(), &empty), Err::<char, ParseError>(ParseError::Incomplete));
}

#[test]
fn regex_is_anchored() {
    let p = regex(r"[a-z]+[0-9]*").unwrap();
    let input = chars("abc12 rest");
    match p.run(&ParseState::new(&input, 0)) {
        ParseResult::Success { value, length } => {
            assert_eq!(value, "abc12");
            assert_eq!(length, 5);
        }
        ParseResult::Failure { .. } => panic!("must succeed"),
    }
    let input = chars("  abc");
    assert_eq!(parse(&p, &input), Err(ParseError::Incomplete));
    assert!(regex("(unclosed").is_err());
}

#[test]
fn regex_result_counts_characters() {
    let input = chars("xhéllo!");
    let state = ParseState::new(&input, 1);
    match regex_result(Some((0, "héllo".to_string())), &state) {
        ParseResult::Success { value, length } => {
            assert_eq!(value, "héllo");
            assert_eq!(length, 5);
        }
        ParseResult::Failure { .. } => panic!("must succeed"),
    }
    match regex_result(Some((0, String::new())), &state) {
        ParseResult::Success { value, length } => {
            assert_eq!(value, "");
            assert_eq!(length, 0);
        }
        ParseResult::Failure { .. } => panic!("must succeed"),
    }
}

#[test]
fn regex_result_takes_a_match_at_the_cursor_only() {
    let input = chars("xhéllo!");
    let state = ParseState::new(&input, 1);
    for found in [
        None,
        Some((2, "llo".to_string())),
        Some((0, "hello".to_string())),
        Some((0, "héllo!!".to_string())),
        Some((0, "x".to_string())),
    ] {
        match regex_result(found, &state) {
            ParseResult::Failure { error, committed } => {
                assert_eq!(error, ParseError::Incomplete);
                assert!(!committed);
            }
            ParseResult::Success { .. } => panic!("must fail"),
        }
    }
}

#[test]
fn regex_does_not_match_further_on() {
    let p = regex("a|b").unwrap();
    assert_eq!(parse(&p, &chars("xb")), Err(ParseError::Incomplete));
    assert_eq!(parse(&p, &chars("ab")), Ok("a".to_string()));
    assert_eq!(parse(&p, &chars("ba")), Ok("b".to_string()));
    match p.run(&ParseState::new(&chars("xxb"), 2)) {
        ParseResult::Success { value, length } => {
            assert_eq!(value, "b");
            assert_eq!(length, 1);
        }
        ParseResult::Failure { .. } => panic!("must succeed"),
    }
    let q = regex(r"\d*").unwrap();
    assert_eq!(parse(&q, &chars("abc")), Ok(String::new()));
}

#[test]
fn regex_is_made_from_what_the_engine_says() {
    assert!(regex("[a-z").is_err());
    assert!(regex("^[a-z]").is_ok());
    assert!(regex_from(regex("x+").map_err(|_| regex::Error::Syntax(String::new()))).is_ok());
    match regex_from(Err(regex::Error::Syntax("no".to_string()))) {
        Err(error) => assert_eq!(error.message, "no"),
        Ok(_) => panic!("must fail"),
    }
}

#[test]
fn tag_names_what_it_expected_and_found() {
    let input = chars("tree");
    match tag("true").run(&ParseState::new(&input, 0)) {
        ParseResult::Failure { error, committed } => {
            assert!(committed);
            assert_eq!(
                error,
                ParseError::of_mismatch(2, 2, "tag \"true\" expect: 'u', found: e".to_string())
            );
        }
        ParseResult::Success { .. } => panic!("must fail"),
    }
    let input = chars("x TRex");
    match tag_no_case("true").run(&ParseState::new(&input, 2)) {
        ParseResult::Failure { error, committed } => {
            assert!(committed);
            assert_eq!(
                error,
                ParseError::of_mismatch(
                    4,
                    2,
                    "tag_no_case \"true\" expect: 'u', found: e".to_string()
                )
            );
        }
        ParseResult::Success { .. } => panic!("must fail"),
    }
    match tag("a\"b").run(&ParseState::new(&chars("\n"), 0)) {
        ParseResult::Failure { error, committed } => {
            assert!(!committed);
            assert_eq!(
                error,
                ParseError::of_mismatch(0, 0, "tag \"a\\\"b\" expect: 'a', found: \n".to_string())
            );
        }
        ParseResult::Success { .. } => panic!("must fail"),
    }
}

#[test]
fn seq_names_what_it_expected_and_found() {
    let p = oni_comb_rs::combinators::elements::seq(b"ab".as_slice());
    match p.run(&ParseState::new(b"xax".as_slice(), 1)) {
        ParseResult::Failure { error, committed } => {
            assert!(committed);
            assert_eq!(
                error,
                ParseError::of_mismatch(2, 1, "seq [97, 98] expect: 98, found: 120".to_string())
            );
        }
        ParseResult::Success { .. } => panic!("must fail"),
    }
}

#[test]
fn literal_result_by_the_count_of_found_elements() {
    let input = chars("abcd");
    let state = ParseState::new(&input, 1);
    match literal_result("v", 2, &state, 2, "unused".to_string()) {
        ParseResult::Success { value, length } => {
            assert_eq!(value, "v");
            assert_eq!(length, 2);
        }
        ParseResult::Failure { .. } => panic!("must succeed"),
    }
    match literal_result("v", 5, &state, 3, "unused".to_string()) {
        ParseResult::Failure { error, committed } => {
            assert_eq!(error, ParseError::Incomplete);
            assert!(committed);
        }
        ParseResult::Success { .. } => panic!("must fail"),
    }
    match literal_result("v", 5, &ParseState::new(&input, 4), 0, "unused".to_string()) {
        ParseResult::Failure { error, committed } => {
            assert_eq!(error, ParseError::Incomplete);
            assert!(!committed);
        }
        ParseResult::Success { .. } => panic!("must fail"),
    }
    match literal_result("v", 3, &state, 1, "the message".to_string()) {
        ParseResult::Failure { error, committed } => {
            assert_eq!(error, ParseError::of_mismatch(2, 1, "the message".to_string()));
            assert!(committed);
        }
        ParseResult::Success { .. } => panic!("must fail"),
    }
    match literal_result("v", 3, &state, 0, "the message".to_string()) {
        ParseResult::Failure { error, committed } => {
            assert_eq!(error, ParseError::of_mismatch(1, 0, "the message".to_string()));
            assert!(!committed);
        }
        ParseResult::Success { .. } => panic!("must fail"),
    }
}

#[test]
fn error_text() {
    let inner = ParseError::of_mismatch(3, 1, "bad".to_string());
    assert_eq!(inner.to_string(), "Mismatch at 3: bad");
    let outer = ParseError::of_expect(120, Box::new(inner.clone()), "number".to_string());
    assert_eq!(outer.to_string(), "number at 120: Mismatch at 3: bad");
    let custom = ParseError::of_custom(7, Some(Box::new(inner)), "oops".to_string());
    assert_eq!(custom.to_string(), "oops at 7, (inner: Mismatch at 3: bad)");
    assert_eq!(ParseError::of_custom(0, None, "oops".to_string()).to_string(), "oops at 0");
    assert_eq!(ParseError::of_in_complete().to_string(), "Incomplete");
    assert_eq!(
        ParseError::of_conversion(45, 2, "x".to_string()).to_string(),
        "Conversion failed at 45: x"
    );
}
