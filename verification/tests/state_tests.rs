use oni_comb_rs::combinators::elements::{chars_agree, eq_ignore_ascii_case, tag};
use oni_comb_rs::combinators::pattern::anchor;
use oni_comb_rs::parse_error::ParseError;
use oni_comb_rs::parse_result::ParseResult;
use oni_comb_rs::parse_state::ParseState;
use oni_comb_rs::parser::Parser;
use oni_comb_rs::text::{chars_of, digit_to_char, push_decimal, push_text, string_of};

#[test]
fn state_moves_over_the_input() {
    let input = ['a', 'b', 'c', 'd'];
    let state = ParseState::new(&input, 1);
    assert_eq!(state.next_offset(), 1);
    assert_eq!(state.last_offset(), Some(0));
    assert_eq!(state.input(), &['b', 'c', 'd']);
    assert_eq!(state.slice_with_len(2), &['b', 'c']);
    assert_eq!(state.get(0), Some(&'b'));
    assert_eq!(state.get(2), Some(&'d'));
    assert_eq!(state.get(3), None);
    let moved = state.add_offset(3);
    assert_eq!(moved.next_offset(), 4);
    assert_eq!(moved.input(), &[] as &[char]);
    assert_eq!(moved.last_offset(), Some(3));
    assert_eq!(ParseState::new(&input, 0).last_offset(), None);
    assert_eq!(state.next_offset(), 1);
}

#[test]
fn results_are_built_and_changed() {
    let ok = ParseResult::successful(7, 3);
    assert!(ok.is_success());
    assert!(!ok.is_failure());
    assert!(!ok.is_committed());
    match ok.with_add_length(2).with_uncommitted().with_committed_fallback(true) {
        ParseResult::Success { value, length } => {
            assert_eq!(value, 7);
            assert_eq!(length, 5);
        }
        ParseResult::Failure { .. } => panic!("must stay a success"),
    }
    assert_eq!(ParseResult::successful(7, 3).to_result(), Ok(7));
    assert_eq!(ParseResult::successful(7, 3).success(), Some(7));
    assert_eq!(ParseResult::successful(7, 3).failure(), None);

    let failed: ParseResult<u8> = ParseResult::failed(ParseError::of_in_complete(), true);
    assert!(failed.is_failure());
    assert!(failed.is_committed());
    assert_eq!(failed.to_result(), Err(ParseError::Incomplete));
    let uncommitted: ParseResult<u8> =
        ParseResult::failed_with_uncommitted(ParseError::of_in_complete());
    assert!(!uncommitted.is_committed());
    assert!(uncommitted.with_committed_fallback(true).is_committed());
    let committed: ParseResult<u8> = ParseResult::failed_with_commit(ParseError::of_in_complete());
    assert!(committed.is_committed());
    assert!(!ParseResult::<u8>::failed_with_commit(ParseError::of_in_complete())
        .with_uncommitted()
        .is_committed());
    assert!(ParseResult::<u8>::failed_with_commit(ParseError::of_in_complete())
        .with_committed_fallback(false)
        .is_committed());
    assert!(!ParseResult::<u8>::failed_with_uncommitted(ParseError::of_in_complete())
        .with_committed_fallback(false)
        .is_committed());
    assert_eq!(
        ParseResult::<u8>::failed(ParseError::of_in_complete(), false).with_add_length(4).failure(),
        Some(ParseError::Incomplete)
    );
    assert_eq!(ParseResult::<u8>::failed(ParseError::of_in_complete(), false).success(), None);
}

#[test]
fn error_kinds_are_told_apart() {
    let mismatch = ParseError::of_mismatch(1, 2, "m".to_string());
    let conversion = ParseError::of_conversion(1, 2, "m".to_string());
    let incomplete = ParseError::of_in_complete();
    let expect = ParseError::of_expect(1, Box::new(mismatch.clone()), "e".to_string());
    let custom = ParseError::of_custom(1, None, "c".to_string());
    let all = [&mismatch, &conversion, &incomplete, &expect, &custom];
    let flags: Vec<[bool; 5]> = all
        .iter()
        .map(|e| {
            [e.is_mismatch(), e.is_conversion(), e.is_in_complete(), e.is_expect(), e.is_custom()]
        })
        .collect();
    for (i, row) in flags.iter().enumerate() {
        for (j, flag) in row.iter().enumerate() {
            assert_eq!(*flag, i == j);
        }
    }
    assert_ne!(mismatch, conversion);
    assert_ne!(mismatch, ParseError::of_mismatch(1, 3, "m".to_string()));
    assert_ne!(mismatch, ParseError::of_mismatch(1, 2, "n".to_string()));
    assert_ne!(expect, ParseError::of_expect(1, Box::new(incomplete.clone()), "e".to_string()));
    assert_ne!(custom, ParseError::of_custom(1, Some(Box::new(incomplete.clone())), "c".to_string()));
    assert_eq!(expect.clone(), expect);
}

#[test]
fn text_helpers() {
    let mut out = String::new();
    push_decimal(&mut out, 0);
    push_text(&mut out, "|");
    push_decimal(&mut out, 9);
    push_text(&mut out, "|");
    push_decimal(&mut out, 10);
    push_text(&mut out, "|");
    push_decimal(&mut out, 120034);
    assert_eq!(out, "0|9|10|120034");
    let mut max = String::new();
    push_decimal(&mut max, usize::MAX);
    assert_eq!(max, usize::MAX.to_string());
    assert_eq!(digit_to_char(7), '7');
    assert_eq!(chars_of("h\u{e9}!"), vec!['h', '\u{e9}', '!']);
    assert_eq!(string_of(&['h', '\u{e9}', '!']), "h\u{e9}!");
}

#[test]
fn patterns_are_anchored_once() {
    assert_eq!(anchor("abc"), "^abc");
    assert_eq!(anchor("^abc"), "^abc");
    assert_eq!(anchor(""), "^");
    assert_eq!(anchor("a^"), "^a^");
}

#[test]
fn case_is_ignored_for_ascii_letters_only() {
    assert!(eq_ignore_ascii_case('a', 'A'));
    assert!(eq_ignore_ascii_case('Z', 'z'));
    assert!(!eq_ignore_ascii_case('a', 'b'));
    assert!(!eq_ignore_ascii_case('@', '`'));
    assert!(!eq_ignore_ascii_case('[', '{'));
    assert!(!eq_ignore_ascii_case('\u{e9}', '\u{c9}'));
    assert!(chars_agree('a', 'A', true));
    assert!(!chars_agree('a', 'A', false));
    let input: Vec<char> = "SeLeCt".chars().collect();
    match oni_comb_rs::combinators::elements::tag_no_case("select")
        .run(&ParseState::new(&input, 0))
    {
        ParseResult::Success { value, length } => {
            assert_eq!(value, "select");
            assert_eq!(length, 6);
        }
        ParseResult::Failure { .. } => panic!("must succeed"),
    }
    assert!(matches!(
        tag("select").run(&ParseState::new(&input, 0)),
        ParseResult::Failure { committed: false, .. }
    ));
}
