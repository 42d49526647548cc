//! Turning a parsed value into another one by a function that may refuse it.

use crate::parse_error::{ParseError, ParseErrorView};
use crate::parse_result::{ParseResult, SpecResult};
use crate::parse_state::ParseState;
use crate::parser::Parser;
use crate::text::push_text;
use vstd::prelude::*;

verus! {

/// The parser made by [`ConversionCombinator::convert`].
pub struct Converted<P, F> {
    pub parser: P,
    pub f: F,
}

/// The error of a conversion that refused the `length` elements parsed at `offset`.
pub open spec fn conversion_error(offset: nat, length: nat) -> ParseErrorView {
    ParseErrorView::Conversion { offset, length, message: "Conversion error"@ }
}

/// What `convert` returns at `offset` once its parser consumed `length`
/// elements and the conversion function gave `converted`.
pub open spec fn converted_of<B, E>(converted: Result<B, E>, offset: nat, length: nat) -> SpecResult<
    B,
> {
    match converted {
        Ok(value) => SpecResult::Success { value, length },
        Err(_) => SpecResult::Failure {
            error: conversion_error(offset, length),
            committed: false,
        },
    }
}

impl<I, B, E, P: Parser<I>, F: Fn(P::Output) -> Result<B, E>> Parser<I> for Converted<P, F> {
    type Output = B;

    open spec fn wf(&self) -> bool {
        &&& self.parser.wf()
        &&& forall|input: Seq<I>, offset: nat, a: P::Output, n: nat| #[trigger]
            self.parser.outcome(input, offset, SpecResult::Success { value: a, length: n })
                ==> call_requires(self.f, (a,))
    }

    open spec fn outcome(&self, input: Seq<I>, offset: nat, r: SpecResult<B>) -> bool {
        exists|r1: SpecResult<P::Output>| #[trigger]
            self.parser.outcome(input, offset, r1) && match r1 {
                SpecResult::Success { value: a, length: n } => exists|converted: Result<B, E>|
                    call_ensures(self.f, (a,), converted) && r == #[trigger] converted_of(
                        converted,
                        offset,
                        n,
                    ),
                SpecResult::Failure { .. } => r == r1.cast::<B>(),
            }
    }

    proof fn lemma_consumption(&self, input: Seq<I>, offset: nat, r: SpecResult<B>) {
        let r1 = choose|r1: SpecResult<P::Output>| #[trigger]
            self.parser.outcome(input, offset, r1) && match r1 {
                SpecResult::Success { value: a, length: n } => exists|converted: Result<B, E>|
                    call_ensures(self.f, (a,), converted) && r == #[trigger] converted_of(
                        converted,
                        offset,
                        n,
                    ),
                SpecResult::Failure { .. } => r == r1.cast::<B>(),
            };
        self.parser.lemma_consumption(input, offset, r1);
    }

    fn run(&self, state: &ParseState<I>) -> (r: ParseResult<B>) {
        let r1 = self.parser.run(state);
        assert(self.parser.outcome(state.input@, state.offset as nat, r1@));
        match r1 {
            ParseResult::Success { value, length } => {
                assert(self.parser.outcome(
                    state.input@,
                    state.offset as nat,
                    SpecResult::Success { value, length: length as nat },
                ));
                let converted = (self.f)(value);
                let ghost expected = converted_of(
                    converted,
                    state.offset as nat,
                    length as nat,
                );
                let r = match converted {
                    Ok(b) => ParseResult::Success { value: b, length },
                    Err(_) => {
                        let mut message = String::new();
                        push_text(&mut message, "Conversion error");
                        ParseResult::Failure {
                            error: ParseError::of_conversion(state.next_offset(), length, message),
                            committed: false,
                        }
                    },
                };
                assert(r@ == expected);
                r
            },
            ParseResult::Failure { error, committed } => ParseResult::Failure { error, committed },
        }
    }
}

/// Conversion of the parsed value, on every parser.
pub trait ConversionCombinator<I>: Parser<I> + Sized {
    /// Replaces the value of a success by what `f` makes of it; where `f`
    /// refuses the value, the parser fails, uncommitted, with a conversion error.
    fn convert<B, E, F: Fn(Self::Output) -> Result<B, E>>(self, f: F) -> (r: Converted<Self, F>)
        ensures
            r.parser == self,
            r.f == f,
    ;
}

impl<I, P: Parser<I>> ConversionCombinator<I> for P {
    fn convert<B, E, F: Fn(P::Output) -> Result<B, E>>(self, f: F) -> (r: Converted<P, F>) {
        Converted { parser: self, f }
    }
}

} // verus!
