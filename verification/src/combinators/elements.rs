//! Parsers that match a literal run of elements.
//!
//! A literal is matched element by element. Where it is not matched in full,
//! the failure is committed if and only if at least one element had matched.
//! The message of a mismatch names the literal, the element that was
//! expected and the one that was found.

use crate::parse_error::{ParseError, ParseErrorView};
use crate::parse_result::{ParseResult, SpecResult};
use crate::parse_state::ParseState;
use crate::parser::Parser;
use crate::text::{chars_of, push_text};
use std::fmt::Debug;
use vstd::prelude::*;
use vstd::std_specs::cmp::PartialEqSpec;

verus! {

/// The parser made by [`seq`].
pub struct Elements<'b, I> {
    pub tag: &'b [I],
}

/// The parser made by [`tag`].
pub struct Tag<'b> {
    pub tag: &'b str,
    pub chars: Vec<char>,
}

/// The parser made by [`tag_no_case`].
pub struct TagNoCase<'b> {
    pub tag: &'b str,
    pub chars: Vec<char>,
}

/// The code of `c`, with the upper-case letters of ASCII taken to their lower case.
pub open spec fn ascii_folded(c: char) -> u32 {
    if 'A' <= c <= 'Z' {
        (c as u32 + 32) as u32
    } else {
        c as u32
    }
}

/// Whether `a` and `b` are the same character, the case of ASCII letters aside.
pub open spec fn same_ignoring_ascii_case(a: char, b: char) -> bool {
    ascii_folded(a) == ascii_folded(b)
}

/// The executable counterpart of [`same_ignoring_ascii_case`].
pub fn eq_ignore_ascii_case(a: char, b: char) -> (r: bool)
    ensures
        r == same_ignoring_ascii_case(a, b),
{
    let x: u32 = if 'A' <= a && a <= 'Z' {
        a as u32 + 32
    } else {
        a as u32
    };
    let y: u32 = if 'A' <= b && b <= 'Z' {
        b as u32 + 32
    } else {
        b as u32
    };
    x == y
}

/// The way two characters are compared by a literal that does, or does not, ignore case.
pub open spec fn char_sameness(ignore_case: bool) -> spec_fn(char, char) -> bool {
    if ignore_case {
        |a: char, b: char| same_ignoring_ascii_case(a, b)
    } else {
        |a: char, b: char| a == b
    }
}

/// The executable counterpart of [`char_sameness`].
pub fn chars_agree(a: char, b: char, ignore_case: bool) -> (r: bool)
    ensures
        r == char_sameness(ignore_case)(a, b),
{
    if ignore_case {
        eq_ignore_ascii_case(a, b)
    } else {
        a == b
    }
}

/// How many elements of `tag`, from its `k`-th on, are found in `input` from
/// `offset + k` on before the first difference or the end of either.
pub open spec fn matched_from<I>(
    tag: Seq<I>,
    input: Seq<I>,
    offset: nat,
    k: nat,
    same: spec_fn(I, I) -> bool,
) -> nat
    decreases tag.len() - k,
{
    if k < tag.len() && offset + k < input.len() && same(tag[k as int], input[(offset + k) as int]) {
        matched_from(tag, input, offset, k + 1, same)
    } else {
        k
    }
}

/// The message of `tag` for the literal `tag` whose character `expected`
/// met `found` in the input: what `format!` makes of
/// `"tag {:?} expect: {:?}, found: {}"` with these three.
pub uninterp spec fn tag_mismatch_text(tag: Seq<char>, expected: char, found: char) -> Seq<char>;

/// The message of `tag_no_case` for the literal `tag` whose character
/// `expected` met `found` in the input: what `format!` makes of
/// `"tag_no_case {:?} expect: {:?}, found: {}"` with these three.
pub uninterp spec fn tag_no_case_mismatch_text(
    tag: Seq<char>,
    expected: char,
    found: char,
) -> Seq<char>;

/// `format!` with the `Debug` text of a string and of a character and the
/// plain text of a character: the message of `tag` for a character that
/// differs. The text depends on the three values alone.
#[verifier::external_body]
fn tag_mismatch_message(tag: &str, expected: char, found: char) -> (r: String)
    ensures
        r@ == tag_mismatch_text(tag@, expected, found),
{
    format!("tag {:?} expect: {:?}, found: {}", tag, expected, found)
}

/// `format!` with the `Debug` text of a string and of a character and the
/// plain text of a character: the message of `tag_no_case` for a character
/// that differs. The text depends on the three values alone.
#[verifier::external_body]
fn tag_no_case_mismatch_message(tag: &str, expected: char, found: char) -> (r: String)
    ensures
        r@ == tag_no_case_mismatch_text(tag@, expected, found),
{
    format!("tag_no_case {:?} expect: {:?}, found: {}", tag, expected, found)
}

/// `format!` with the `Debug` text of a slice and of two of its elements:
/// the message of `seq` for an element that differs. What the text is lies
/// with the `Debug` impl of the element type; nothing is claimed of it.
#[verifier::external_body]
fn seq_mismatch_message<I: Debug>(tag: &[I], expected: &I, found: &I) -> (r: String) {
    format!("seq {:?} expect: {:?}, found: {:?}", tag, expected, found)
}

/// The error of a literal whose `k`-th element differs from the input.
pub open spec fn literal_mismatch(offset: nat, k: nat, message: Seq<char>) -> ParseErrorView {
    ParseErrorView::Mismatch { offset: offset + k, length: k, message }
}

/// How a literal of `len` elements fares at `offset` when its first `k`
/// elements, and no more, are found there: `None` stands for success.
/// `message` is the message for an element that differs; it is read in that
/// case only.
pub open spec fn literal_failure(
    len: nat,
    input_len: nat,
    offset: nat,
    k: nat,
    message: Seq<char>,
) -> Option<(ParseErrorView, bool)> {
    if k >= len {
        None
    } else if offset + k >= input_len {
        Some((ParseErrorView::Incomplete, k > 0))
    } else {
        Some((literal_mismatch(offset, k, message), k > 0))
    }
}

/// The outcome `r` of a literal parser that yields `value`, given how the literal fares.
pub open spec fn literal_outcome<A>(
    failure: Option<(ParseErrorView, bool)>,
    value: A,
    len: nat,
    r: SpecResult<A>,
) -> bool {
    match failure {
        None => r == (SpecResult::Success { value, length: len }),
        Some((error, committed)) => r == (SpecResult::<A>::Failure { error, committed }),
    }
}

/// What a literal of `len` elements that yields `value` returns at the
/// cursor once its first `k` elements, and no more, were found there:
/// success where all were found, an incomplete input where the input ended,
/// and else a mismatch with `message`. The failure is committed if and only
/// if at least one element was found.
pub fn literal_result<I, A>(
    value: A,
    len: usize,
    state: &ParseState<I>,
    k: usize,
    message: String,
) -> (r: ParseResult<A>)
    requires
        state.wf(),
        k <= len,
        state.offset + k <= state.input@.len(),
    ensures
        literal_outcome(
            literal_failure(
                len as nat,
                state.input@.len(),
                state.offset as nat,
                k as nat,
                message@,
            ),
            value,
            len as nat,
            r@,
        ),
{
    if k >= len {
        ParseResult::Success { value, length: len }
    } else if k >= state.input.len() - state.offset {
        ParseResult::Failure { error: ParseError::of_in_complete(), committed: k > 0 }
    } else {
        ParseResult::Failure {
            error: ParseError::of_mismatch(state.offset + k, k, message),
            committed: k > 0,
        }
    }
}

impl<'b, I: PartialEq + Debug> Parser<I> for Elements<'b, I> {
    type Output = &'b [I];

    open spec fn wf(&self) -> bool {
        I::obeys_eq_spec()
    }

    /// The message of a mismatch is what the `Debug` impl of the elements
    /// makes it; everything else is fixed.
    open spec fn outcome(&self, input: Seq<I>, offset: nat, r: SpecResult<&'b [I]>) -> bool {
        let k = matched_from(self.tag@, input, offset, 0, |a: I, b: I| a.eq_spec(&b));
        exists|message: Seq<char>|
            literal_outcome(
                #[trigger] literal_failure(self.tag@.len(), input.len(), offset, k, message),
                self.tag,
                self.tag@.len(),
                r,
            )
    }

    proof fn lemma_consumption(&self, input: Seq<I>, offset: nat, r: SpecResult<&'b [I]>) {
        lemma_matched_bounds(self.tag@, input, offset, 0, |a: I, b: I| a.eq_spec(&b));
    }

    fn run(&self, state: &ParseState<I>) -> (r: ParseResult<&'b [I]>) {
        let ghost same = |a: I, b: I| a.eq_spec(&b);
        let mut k: usize = 0;
        let len = self.tag.len();
        let left = state.input.len() - state.offset;
        while k < len && k < left && self.tag[k] == state.input[state.offset + k]
            invariant
                I::obeys_eq_spec(),
                state.wf(),
                k <= len == self.tag@.len(),
                k <= left == state.input@.len() - state.offset,
                same == |a: I, b: I| a.eq_spec(&b),
                matched_from(self.tag@, state.input@, state.offset as nat, 0, same)
                    == matched_from(self.tag@, state.input@, state.offset as nat, k as nat, same),
            decreases len - k,
        {
            k += 1;
        }
        let message = if k < len && k < left {
            seq_mismatch_message(self.tag, &self.tag[k], &state.input[state.offset + k])
        } else {
            String::new()
        };
        let r = literal_result(self.tag, len, state, k, message);
        assert(literal_outcome(
            literal_failure(
                self.tag@.len(),
                state.input@.len(),
                state.offset as nat,
                k as nat,
                message@,
            ),
            self.tag,
            self.tag@.len(),
            r@,
        ));
        r
    }
}

/// The count of matched elements stays within the literal and within the input.
pub proof fn lemma_matched_bounds<I>(
    tag: Seq<I>,
    input: Seq<I>,
    offset: nat,
    k: nat,
    same: spec_fn(I, I) -> bool,
)
    requires
        k <= tag.len(),
        offset + k <= input.len(),
    ensures
        k <= matched_from(tag, input, offset, k, same) <= tag.len(),
        offset + matched_from(tag, input, offset, k, same) <= input.len(),
    decreases tag.len() - k,
{
    if k < tag.len() && offset + k < input.len() && same(tag[k as int], input[(offset + k) as int]) {
        lemma_matched_bounds(tag, input, offset, k + 1, same);
    }
}

/// Matches the characters of a literal against the cursor and reports how
/// many of them, counted from the first, were found.
fn match_chars(chars: &Vec<char>, state: &ParseState<char>, ignore_case: bool) -> (k: usize)
    requires
        state.wf(),
    ensures
        k <= chars@.len(),
        state.offset + k <= state.input@.len(),
        k == matched_from(
            chars@,
            state.input@,
            state.offset as nat,
            0,
            char_sameness(ignore_case),
        ),
{
    let ghost same = char_sameness(ignore_case);
    let mut k: usize = 0;
    let len = chars.len();
    let left = state.input.len() - state.offset;
    while k < len && k < left && chars_agree(chars[k], state.input[state.offset + k], ignore_case)
        invariant
            state.wf(),
            k <= len == chars@.len(),
            k <= left == state.input@.len() - state.offset,
            same == char_sameness(ignore_case),
            matched_from(chars@, state.input@, state.offset as nat, 0, same) == matched_from(
                chars@,
                state.input@,
                state.offset as nat,
                k as nat,
                same,
            ),
        decreases len - k,
    {
        k += 1;
    }
    k
}

impl<'b> Parser<char> for Tag<'b> {
    type Output = &'b str;

    open spec fn wf(&self) -> bool {
        self.chars@ == self.tag@
    }

    open spec fn outcome(&self, input: Seq<char>, offset: nat, r: SpecResult<&'b str>) -> bool {
        let k = matched_from(self.tag@, input, offset, 0, char_sameness(false));
        literal_outcome(
            literal_failure(
                self.tag@.len(),
                input.len(),
                offset,
                k,
                tag_mismatch_text(self.tag@, self.tag@[k as int], input[(offset + k) as int]),
            ),
            self.tag,
            self.tag@.len(),
            r,
        )
    }

    proof fn lemma_consumption(&self, input: Seq<char>, offset: nat, r: SpecResult<&'b str>) {
        lemma_matched_bounds(self.tag@, input, offset, 0, char_sameness(false));
    }

    fn run(&self, state: &ParseState<char>) -> (r: ParseResult<&'b str>) {
        let k = match_chars(&self.chars, state, false);
        let len = self.chars.len();
        let message = if k < len && k < state.input.len() - state.offset {
            tag_mismatch_message(self.tag, self.chars[k], state.input[state.offset + k])
        } else {
            String::new()
        };
        literal_result(self.tag, len, state, k, message)
    }
}

impl<'b> Parser<char> for TagNoCase<'b> {
    type Output = &'b str;

    open spec fn wf(&self) -> bool {
        self.chars@ == self.tag@
    }

    open spec fn outcome(&self, input: Seq<char>, offset: nat, r: SpecResult<&'b str>) -> bool {
        let k = matched_from(self.tag@, input, offset, 0, char_sameness(true));
        literal_outcome(
            literal_failure(
                self.tag@.len(),
                input.len(),
                offset,
                k,
                tag_no_case_mismatch_text(
                    self.tag@,
                    self.tag@[k as int],
                    input[(offset + k) as int],
                ),
            ),
            self.tag,
            self.tag@.len(),
            r,
        )
    }

    proof fn lemma_consumption(&self, input: Seq<char>, offset: nat, r: SpecResult<&'b str>) {
        lemma_matched_bounds(self.tag@, input, offset, 0, char_sameness(true));
    }

    fn run(&self, state: &ParseState<char>) -> (r: ParseResult<&'b str>) {
        let k = match_chars(&self.chars, state, true);
        let len = self.chars.len();
        let message = if k < len && k < state.input.len() - state.offset {
            tag_no_case_mismatch_message(self.tag, self.chars[k], state.input[state.offset + k])
        } else {
            String::new()
        };
        literal_result(self.tag, len, state, k, message)
    }
}

/// Matches the elements of `literal` in order and yields `literal`.
pub fn seq<'b, I: PartialEq>(literal: &'b [I]) -> (r: Elements<'b, I>)
    ensures
        r.tag == literal,
{
    Elements { tag: literal }
}

/// Matches the characters of `literal` in order and yields `literal`.
pub fn tag<'b>(literal: &'b str) -> (r: Tag<'b>)
    ensures
        r.tag == literal,
        r.wf(),
{
    Tag { tag: literal, chars: chars_of(literal) }
}

/// Matches the characters of `literal` in order, the case of ASCII letters
/// aside, and yields `literal`.
pub fn tag_no_case<'b>(literal: &'b str) -> (r: TagNoCase<'b>)
    ensures
        r.tag == literal,
        r.wf(),
{
    TagNoCase { tag: literal, chars: chars_of(literal) }
}

} // verus!
