//! Parsers that look at one element.
//!
//! Each of them consumes exactly one element where it succeeds, and fails
//! uncommitted, having consumed nothing, where it does not.

use crate::parse_error::{ParseError, ParseErrorView};
use crate::parse_result::{ParseResult, SpecResult};
use crate::parse_state::ParseState;
use crate::parser::Parser;
use crate::text::{decimal, push_decimal, push_text};
use vstd::prelude::*;
use vstd::std_specs::cmp::PartialEqSpec;

verus! {

/// The parser made by [`any_elem`].
pub struct AnyElem {}

/// The parser made by [`elm_pred`].
pub struct ElmPred<F> {
    pub pred: F,
}

/// The parser made by [`elm`].
pub struct Elm<I> {
    pub expected: I,
}

/// The parser made by [`elm_of`].
pub struct ElmOf<'a, I> {
    pub set: &'a [I],
}

/// The parser made by [`none_of`].
pub struct NoneOf<'a, I> {
    pub set: &'a [I],
}

/// A class of characters.
#[derive(Debug, Clone, Copy, PartialEq, Eq, Structural)]
pub enum CharClass {
    /// Space, tab, carriage return and line feed.
    Space,
    /// `0` to `9`.
    Digit,
    /// `a` to `z` and `A` to `Z`.
    Alpha,
    /// The letters and the digits.
    AlphaDigit,
    /// The digits, `a` to `f` and `A` to `F`.
    HexDigit,
}

/// The parser made by [`elm_class`] and its shorthands.
pub struct ElmClass {
    pub class: CharClass,
}

pub open spec fn is_space(c: char) -> bool {
    c == ' ' || c == '\t' || c == '\r' || c == '\n'
}

pub open spec fn is_digit(c: char) -> bool {
    '0' <= c <= '9'
}

pub open spec fn is_alpha(c: char) -> bool {
    ('a' <= c <= 'z') || ('A' <= c <= 'Z')
}

pub open spec fn is_hex_digit(c: char) -> bool {
    is_digit(c) || ('a' <= c <= 'f') || ('A' <= c <= 'F')
}

impl CharClass {
    /// Whether `c` belongs to the class.
    pub open spec fn holds(self, c: char) -> bool {
        match self {
            CharClass::Space => is_space(c),
            CharClass::Digit => is_digit(c),
            CharClass::Alpha => is_alpha(c),
            CharClass::AlphaDigit => is_alpha(c) || is_digit(c),
            CharClass::HexDigit => is_hex_digit(c),
        }
    }

    /// Whether `c` belongs to the class.
    pub fn contains(self, c: char) -> (r: bool)
        ensures
            r == self.holds(c),
    {
        let digit = '0' <= c && c <= '9';
        let alpha = ('a' <= c && c <= 'z') || ('A' <= c && c <= 'Z');
        match self {
            CharClass::Space => c == ' ' || c == '\t' || c == '\r' || c == '\n',
            CharClass::Digit => digit,
            CharClass::Alpha => alpha,
            CharClass::AlphaDigit => alpha || digit,
            CharClass::HexDigit => digit || ('a' <= c && c <= 'f') || ('A' <= c && c <= 'F'),
        }
    }
}

/// The error of a single-element parser that met an element it does not accept.
pub open spec fn element_mismatch(offset: nat) -> ParseErrorView {
    ParseErrorView::Mismatch { offset, length: 0, message: "offset: "@ + decimal(offset) }
}

/// What a single-element parser returns at `offset`, where `accepted` tells
/// whether it accepts the element that stands there.
pub open spec fn element_outcome<I>(input: Seq<I>, offset: nat, accepted: bool) -> SpecResult<I> {
    if offset >= input.len() {
        SpecResult::Failure { error: ParseErrorView::Incomplete, committed: false }
    } else if accepted {
        SpecResult::Success { value: input[offset as int], length: 1 }
    } else {
        SpecResult::Failure { error: element_mismatch(offset), committed: false }
    }
}

/// Whether some element of `set` equals `e`.
pub open spec fn set_has<I: PartialEq>(set: Seq<I>, e: I) -> bool {
    exists|i: int| 0 <= i < set.len() && #[trigger] set[i].eq_spec(&e)
}

/// The executable counterpart of [`element_outcome`].
pub fn element_result<I: Copy>(state: &ParseState<I>, accepted: bool) -> (r: ParseResult<I>)
    requires
        state.wf(),
    ensures
        r@ == element_outcome(state.input@, state.offset as nat, accepted),
{
    match state.get(0) {
        None => ParseResult::Failure { error: ParseError::of_in_complete(), committed: false },
        Some(e) => {
            if accepted {
                ParseResult::Success { value: *e, length: 1 }
            } else {
                let mut message = String::new();
                push_text(&mut message, "offset: ");
                push_decimal(&mut message, state.next_offset());
                ParseResult::Failure {
                    error: ParseError::of_mismatch(state.next_offset(), 0, message),
                    committed: false,
                }
            }
        },
    }
}

/// Whether some element of `set` equals `e`.
pub fn set_contains<I: PartialEq>(set: &[I], e: &I) -> (r: bool)
    requires
        I::obeys_eq_spec(),
    ensures
        r == set_has(set@, *e),
{
    let mut i: usize = 0;
    while i < set.len()
        invariant
            i <= set@.len(),
            I::obeys_eq_spec(),
            forall|j: int| 0 <= j < i ==> !(#[trigger] set@[j].eq_spec(e)),
        decreases set@.len() - i,
    {
        if set[i] == *e {
            return true;
        }
        i += 1;
    }
    false
}

impl<I: Copy> Parser<I> for AnyElem {
    type Output = I;

    open spec fn wf(&self) -> bool {
        true
    }

    open spec fn outcome(&self, input: Seq<I>, offset: nat, r: SpecResult<I>) -> bool {
        r == element_outcome(input, offset, true)
    }

    proof fn lemma_consumption(&self, input: Seq<I>, offset: nat, r: SpecResult<I>) {
    }

    fn run(&self, state: &ParseState<I>) -> (r: ParseResult<I>) {
        element_result(state, true)
    }
}

impl<I: Copy, F: Fn(&I) -> bool> Parser<I> for ElmPred<F> {
    type Output = I;

    open spec fn wf(&self) -> bool {
        forall|e: I| #[trigger] call_requires(self.pred, (&e,))
    }

    open spec fn outcome(&self, input: Seq<I>, offset: nat, r: SpecResult<I>) -> bool {
        exists|accepted: bool|
            {
                &&& offset < input.len() ==> call_ensures(
                    self.pred,
                    (&input[offset as int],),
                    accepted,
                )
                &&& r == #[trigger] element_outcome(input, offset, accepted)
            }
    }

    proof fn lemma_consumption(&self, input: Seq<I>, offset: nat, r: SpecResult<I>) {
    }

    fn run(&self, state: &ParseState<I>) -> (r: ParseResult<I>) {
        match state.get(0) {
            Some(e) => {
                let accepted = (self.pred)(e);
                element_result(state, accepted)
            },
            None => element_result(state, false),
        }
    }
}

impl<I: Copy + PartialEq> Parser<I> for Elm<I> {
    type Output = I;

    open spec fn wf(&self) -> bool {
        I::obeys_eq_spec()
    }

    open spec fn outcome(&self, input: Seq<I>, offset: nat, r: SpecResult<I>) -> bool {
        r == element_outcome(input, offset, input[offset as int].eq_spec(&self.expected))
    }

    proof fn lemma_consumption(&self, input: Seq<I>, offset: nat, r: SpecResult<I>) {
    }

    fn run(&self, state: &ParseState<I>) -> (r: ParseResult<I>) {
        match state.get(0) {
            Some(e) => element_result(state, *e == self.expected),
            None => element_result(state, false),
        }
    }
}

impl<'a, I: Copy + PartialEq> Parser<I> for ElmOf<'a, I> {
    type Output = I;

    open spec fn wf(&self) -> bool {
        I::obeys_eq_spec()
    }

    open spec fn outcome(&self, input: Seq<I>, offset: nat, r: SpecResult<I>) -> bool {
        r == element_outcome(input, offset, set_has(self.set@, input[offset as int]))
    }

    proof fn lemma_consumption(&self, input: Seq<I>, offset: nat, r: SpecResult<I>) {
    }

    fn run(&self, state: &ParseState<I>) -> (r: ParseResult<I>) {
        match state.get(0) {
            Some(e) => element_result(state, set_contains(self.set, e)),
            None => element_result(state, false),
        }
    }
}

impl<'a, I: Copy + PartialEq> Parser<I> for NoneOf<'a, I> {
    type Output = I;

    open spec fn wf(&self) -> bool {
        I::obeys_eq_spec()
    }

    open spec fn outcome(&self, input: Seq<I>, offset: nat, r: SpecResult<I>) -> bool {
        r == element_outcome(input, offset, !set_has(self.set@, input[offset as int]))
    }

    proof fn lemma_consumption(&self, input: Seq<I>, offset: nat, r: SpecResult<I>) {
    }

    fn run(&self, state: &ParseState<I>) -> (r: ParseResult<I>) {
        match state.get(0) {
            Some(e) => element_result(state, !set_contains(self.set, e)),
            None => element_result(state, false),
        }
    }
}

impl Parser<char> for ElmClass {
    type Output = char;

    open spec fn wf(&self) -> bool {
        true
    }

    open spec fn outcome(&self, input: Seq<char>, offset: nat, r: SpecResult<char>) -> bool {
        r == element_outcome(input, offset, self.class.holds(input[offset as int]))
    }

    proof fn lemma_consumption(&self, input: Seq<char>, offset: nat, r: SpecResult<char>) {
    }

    fn run(&self, state: &ParseState<char>) -> (r: ParseResult<char>) {
        match state.get(0) {
            Some(c) => element_result(state, self.class.contains(*c)),
            None => element_result(state, false),
        }
    }
}

/// Succeeds if and only if one element remains; yields it and consumes it.
pub fn any_elem() -> (r: AnyElem) {
    AnyElem {  }
}

/// Accepts the next element where `pred` holds of it.
pub fn elm_pred<I, F: Fn(&I) -> bool>(pred: F) -> (r: ElmPred<F>)
    ensures
        r.pred == pred,
{
    ElmPred { pred }
}

/// Accepts the next element where it equals `expected`.
pub fn elm<I: PartialEq>(expected: I) -> (r: Elm<I>)
    ensures
        r.expected == expected,
{
    Elm { expected }
}

/// Accepts the next element where it equals one of `set`.
pub fn elm_of<'a, I: PartialEq>(set: &'a [I]) -> (r: ElmOf<'a, I>)
    ensures
        r.set == set,
{
    ElmOf { set }
}

/// Accepts the next element where it equals none of `set`.
pub fn none_of<'a, I: PartialEq>(set: &'a [I]) -> (r: NoneOf<'a, I>)
    ensures
        r.set == set,
{
    NoneOf { set }
}

/// Accepts the next character where it belongs to `class`.
pub fn elm_class(class: CharClass) -> (r: ElmClass)
    ensures
        r.class == class,
{
    ElmClass { class }
}

/// Accepts a space, a tab, a carriage return or a line feed.
pub fn elm_space() -> (r: ElmClass)
    ensures
        r.class == CharClass::Space,
{
    ElmClass { class: CharClass::Space }
}

/// Accepts a digit.
pub fn elm_digit() -> (r: ElmClass)
    ensures
        r.class == CharClass::Digit,
{
    ElmClass { class: CharClass::Digit }
}

/// Accepts a letter of the ASCII alphabet.
pub fn elm_alpha() -> (r: ElmClass)
    ensures
        r.class == CharClass::Alpha,
{
    ElmClass { class: CharClass::Alpha }
}

/// Accepts a letter of the ASCII alphabet or a digit.
pub fn elm_alpha_digit() -> (r: ElmClass)
    ensures
        r.class == CharClass::AlphaDigit,
{
    ElmClass { class: CharClass::AlphaDigit }
}

/// Accepts a hexadecimal digit.
pub fn elm_hex() -> (r: ElmClass)
    ensures
        r.class == CharClass::HexDigit,
{
    ElmClass { class: CharClass::HexDigit }
}

} // verus!
