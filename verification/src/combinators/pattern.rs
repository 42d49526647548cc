//! A parser that matches a regular expression against the remaining input.
//!
//! The pattern is anchored at the start and compiled once, when the parser
//! is made. Matching itself is left to the `regex` crate; what this module
//! proves is what is handed to the engine and what is made of its answer.

use crate::parse_error::{ParseError, ParseErrorView};
use crate::parse_result::{ParseResult, SpecResult};
use crate::parse_state::ParseState;
use crate::parser::Parser;
use crate::text::{chars_of, push_text, string_of};
use vstd::prelude::*;
use vstd::string::StrSliceExecFns;

verus! {

/// A compiled regular expression of the `regex` crate.
#[verifier::external_type_specification]
#[verifier::external_body]
pub struct ExRegex(regex::Regex);

/// The error with which the `regex` crate refuses a pattern.
#[verifier::external_type_specification]
#[verifier::external_body]
pub struct ExRegexError(regex::Error);

/// Whether `regex::Regex::new` accepts `pattern`.
pub uninterp spec fn pattern_accepted(pattern: Seq<char>) -> bool;

/// What `regex::Regex::find` gives for the expression compiled from
/// `pattern` on `haystack`: the byte offset at which the first match
/// starts and the text of the match, or `None` where nothing matches.
pub uninterp spec fn first_match_of(pattern: Seq<char>, haystack: Seq<char>) -> Option<
    (usize, Seq<char>),
>;

/// `regex::Regex::new`: compiles `pattern`, or refuses it, and keeps the
/// compiled expression together with the pattern it was compiled from.
/// Whether a pattern is accepted depends on the pattern alone. This is the
/// only place where a [`RegexParser`] is made.
#[verifier::external_body]
fn compile(pattern: String) -> (r: Result<RegexParser, regex::Error>)
    ensures
        r is Ok <==> pattern_accepted(pattern@),
        r matches Ok(parser) ==> parser.pattern() == pattern@,
{
    match regex::Regex::new(&pattern) {
        Ok(regex) => Ok(RegexParser { regex, pattern }),
        Err(error) => Err(error),
    }
}

/// `regex::Regex::find`, with `regex::Match::start` and
/// `regex::Match::as_str`: where the first match of the expression of
/// `parser` in `haystack` starts, and its text. The answer depends on the
/// pattern that the expression was compiled from and on the haystack alone.
#[verifier::external_body]
fn first_match(parser: &RegexParser, haystack: &str) -> (r: Option<(usize, String)>)
    ensures
        match_view(r) == first_match_of(parser.pattern(), haystack@),
{
    match parser.regex.find(haystack) {
        Some(m) => Some((m.start(), m.as_str().to_string())),
        None => None,
    }
}

/// The text in which `regex::Error` describes itself.
#[verifier::external_body]
fn describe(error: &regex::Error) -> (r: String) {
    error.to_string()
}

/// A pattern that could not be compiled.
#[derive(Debug)]
pub struct PatternError {
    /// What the engine said of the pattern.
    pub message: String,
}

/// The parser made by [`regex`]. The compiled expression is the one that
/// the engine made of the pattern; it is paired with the pattern when it is
/// compiled and never changed, so the pattern stands for both.
pub struct RegexParser {
    regex: regex::Regex,
    pattern: String,
}

/// `pattern`, with `^` put in front where it does not start with one.
pub open spec fn anchored(pattern: Seq<char>) -> Seq<char> {
    if pattern.len() > 0 && pattern[0] == '^' {
        pattern
    } else {
        seq!['^'] + pattern
    }
}

/// The executable counterpart of [`anchored`].
pub fn anchor(pattern: &str) -> (r: String)
    ensures
        r@ == anchored(pattern@),
{
    let mut out = String::new();
    if !(pattern.unicode_len() > 0 && pattern.get_char(0) == '^') {
        out.push('^');
    }
    push_text(&mut out, pattern);
    out
}

/// Whether `text` stands at the start of `rest`.
pub open spec fn is_prefix_of(text: Seq<char>, rest: Seq<char>) -> bool {
    text.len() <= rest.len() && rest.take(text.len() as int) == text
}

/// The text of the match, where the answer `found` of the engine is a
/// match at the cursor, with `rest` what is left of the input: the match
/// starts at the first character and its text stands there.
pub open spec fn match_at_cursor(found: Option<(usize, Seq<char>)>, rest: Seq<char>) -> Option<
    Seq<char>,
> {
    match found {
        Some((start, text)) => if start == 0 && is_prefix_of(text, rest) {
            Some(text)
        } else {
            None
        },
        None => None,
    }
}

/// What the parser returns once the engine answered `found`, with `rest`
/// what is left of the input: a match at the cursor is the value and is
/// consumed in full; anything else is an uncommitted failure.
pub open spec fn regex_outcome(
    found: Option<(usize, Seq<char>)>,
    rest: Seq<char>,
    r: SpecResult<String>,
) -> bool {
    match match_at_cursor(found, rest) {
        Some(text) => r matches SpecResult::Success { value, length } && value@ == text && length
            == text.len(),
        None => r == (SpecResult::<String>::Failure {
            error: ParseErrorView::Incomplete,
            committed: false,
        }),
    }
}

/// The content of an answer of the engine.
pub open spec fn match_view(found: Option<(usize, String)>) -> Option<(usize, Seq<char>)> {
    match found {
        Some((start, text)) => Some((start, text@)),
        None => None,
    }
}

/// Whether the characters of `text` stand at the cursor.
fn stands_at_cursor(text: &Vec<char>, state: &ParseState<char>) -> (r: bool)
    requires
        state.wf(),
    ensures
        r == is_prefix_of(text@, state.remaining()),
{
    let left = state.input.len() - state.offset;
    if text.len() > left {
        return false;
    }
    let mut i: usize = 0;
    while i < text.len()
        invariant
            state.wf(),
            i <= text@.len() <= left == state.input@.len() - state.offset,
            forall|j: int| 0 <= j < i ==> text@[j] == state.input@[state.offset + j],
        decreases text@.len() - i,
    {
        if text[i] != state.input[state.offset + i] {
            assert(state.remaining().take(text@.len() as int)[i as int] != text@[i as int]);
            return false;
        }
        i += 1;
    }
    assert(state.remaining().take(text@.len() as int) =~= text@);
    true
}

/// Makes the outcome of the parser out of the answer of the engine: a match
/// that starts at the cursor is the value and is consumed in full; a match
/// further on, and no match, are an uncommitted failure.
pub fn regex_result(found: Option<(usize, String)>, state: &ParseState<char>) -> (r: ParseResult<
    String,
>)
    requires
        state.wf(),
    ensures
        regex_outcome(match_view(found), state.remaining(), r@),
{
    match found {
        Some((start, text)) => {
            let chars = chars_of(text.as_str());
            if start == 0 && stands_at_cursor(&chars, state) {
                ParseResult::Success { value: text, length: chars.len() }
            } else {
                ParseResult::Failure { error: ParseError::of_in_complete(), committed: false }
            }
        },
        None => ParseResult::Failure { error: ParseError::of_in_complete(), committed: false },
    }
}

impl RegexParser {
    /// The pattern that was compiled, anchor included. The compiled
    /// expression has no part of its own in the contracts: it is what the
    /// engine made of this pattern.
    pub closed spec fn pattern(&self) -> Seq<char> {
        self.pattern@
    }
}

impl Parser<char> for RegexParser {
    type Output = String;

    open spec fn wf(&self) -> bool {
        true
    }

    /// The engine is handed what is left of the input, as one string, and
    /// its answer decides as [`regex_outcome`] says.
    open spec fn outcome(&self, input: Seq<char>, offset: nat, r: SpecResult<String>) -> bool {
        let rest = input.subrange(offset as int, input.len() as int);
        regex_outcome(first_match_of(self.pattern(), rest), rest, r)
    }

    proof fn lemma_consumption(&self, input: Seq<char>, offset: nat, r: SpecResult<String>) {
    }

    fn run(&self, state: &ParseState<char>) -> (r: ParseResult<String>) {
        let haystack = string_of(state.input());
        let found = first_match(self, haystack.as_str());
        regex_result(found, state)
    }
}

/// Makes the parser, or the error, out of what the engine said of a
/// pattern: a compiled expression is the parser, a refusal gives an error
/// with the words of the engine.
pub fn regex_from(compiled: Result<RegexParser, regex::Error>) -> (r: Result<
    RegexParser,
    PatternError,
>)
    ensures
        r is Ok <==> compiled is Ok,
        r matches Ok(parser) ==> compiled matches Ok(made) && parser.pattern() == made.pattern(),
{
    match compiled {
        Ok(parser) => Ok(parser),
        Err(error) => Err(PatternError { message: describe(&error) }),
    }
}

/// A parser that matches `pattern` at the cursor. The pattern is compiled
/// here, once, with `^` put in front where it does not start with one.
/// There is a parser if and only if the engine accepts the anchored pattern.
pub fn regex(pattern: &str) -> (r: Result<RegexParser, PatternError>)
    ensures
        r is Ok <==> pattern_accepted(anchored(pattern@)),
        r matches Ok(parser) ==> parser.pattern() == anchored(pattern@),
{
    regex_from(compile(anchor(pattern)))
}

} // verus!
