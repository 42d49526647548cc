//! Wrappers that label a parser for diagnostics.

use crate::parse_error::{ParseError, ParseErrorView};
use crate::parse_result::{ParseResult, SpecResult};
use crate::parse_state::ParseState;
use crate::parser::Parser;
use crate::text::push_text;
use vstd::prelude::*;

verus! {

/// The parser made by [`LoggingParser::log`].
pub struct Logged<'a, P> {
    pub parser: P,
    pub name: &'a str,
}

/// The parser made by [`LoggingParser::name`].
pub struct Named<'a, P> {
    pub parser: P,
    pub name: &'a str,
}

/// The error `name` reports at `offset` for a production called `name`
/// whose parser failed with `error`.
pub open spec fn named_error(error: ParseErrorView, offset: nat, name: Seq<char>) -> ParseErrorView {
    if error is Custom {
        error
    } else {
        ParseErrorView::Expect {
            offset,
            inner: Box::new(error),
            message: "failed to parse "@ + name,
        }
    }
}

/// What `name` makes of the outcome of its parser: nothing changes but the
/// error of a failure, which is wrapped in the expectation of the named production.
pub open spec fn named_of<A>(r: SpecResult<A>, offset: nat, name: Seq<char>) -> SpecResult<A> {
    match r {
        SpecResult::Success { .. } => r,
        SpecResult::Failure { error, committed } => SpecResult::Failure {
            error: named_error(error, offset, name),
            committed,
        },
    }
}

impl<'a, I, P: Parser<I>> Parser<I> for Logged<'a, P> {
    type Output = P::Output;

    open spec fn wf(&self) -> bool {
        self.parser.wf()
    }

    open spec fn outcome(&self, input: Seq<I>, offset: nat, r: SpecResult<P::Output>) -> bool {
        self.parser.outcome(input, offset, r)
    }

    proof fn lemma_consumption(&self, input: Seq<I>, offset: nat, r: SpecResult<P::Output>) {
        self.parser.lemma_consumption(input, offset, r);
    }

    fn run(&self, state: &ParseState<I>) -> (r: ParseResult<P::Output>) {
        self.parser.run(state)
    }
}

impl<'a, I, P: Parser<I>> Parser<I> for Named<'a, P> {
    type Output = P::Output;

    open spec fn wf(&self) -> bool {
        self.parser.wf()
    }

    open spec fn outcome(&self, input: Seq<I>, offset: nat, r: SpecResult<P::Output>) -> bool {
        exists|r1: SpecResult<P::Output>| #[trigger]
            self.parser.outcome(input, offset, r1) && r == named_of(r1, offset, self.name@)
    }

    proof fn lemma_consumption(&self, input: Seq<I>, offset: nat, r: SpecResult<P::Output>) {
        let r1 = choose|r1: SpecResult<P::Output>| #[trigger]
            self.parser.outcome(input, offset, r1) && r == named_of(r1, offset, self.name@);
        self.parser.lemma_consumption(input, offset, r1);
    }

    fn run(&self, state: &ParseState<I>) -> (r: ParseResult<P::Output>) {
        let r1 = self.parser.run(state);
        assert(self.parser.outcome(state.input@, state.offset as nat, r1@));
        match r1 {
            ParseResult::Success { value, length } => ParseResult::Success { value, length },
            ParseResult::Failure { error, committed } => {
                if error.is_custom() {
                    ParseResult::Failure { error, committed }
                } else {
                    let mut message = String::new();
                    push_text(&mut message, "failed to parse ");
                    push_text(&mut message, self.name);
                    ParseResult::Failure {
                        error: ParseError::of_expect(state.next_offset(), Box::new(error), message),
                        committed,
                    }
                }
            },
        }
    }
}

/// Labels for diagnostics, on every parser.
pub trait LoggingParser<I>: Parser<I> + Sized {
    /// The same parser under a label; it behaves in every respect as this one.
    fn log<'a>(self, name: &'a str) -> (r: Logged<'a, Self>)
        ensures
            r.parser == self,
            r.name == name,
    ;

    /// The same parser, whose failures say which production was expected.
    /// Whether it succeeds, what it consumes and whether a failure is
    /// committed are those of this parser.
    fn name<'a>(self, name: &'a str) -> (r: Named<'a, Self>)
        ensures
            r.parser == self,
            r.name == name,
    ;
}

impl<I, P: Parser<I>> LoggingParser<I> for P {
    fn log<'a>(self, name: &'a str) -> (r: Logged<'a, P>) {
        Logged { parser: self, name }
    }

    fn name<'a>(self, name: &'a str) -> (r: Named<'a, P>) {
        Named { parser: self, name }
    }
}

} // verus!
