//! Sequences that keep the value of one of their parts.

use crate::combinators::operator::AndThen;
use crate::parse_result::{ParseResult, SpecResult};
use crate::parse_state::ParseState;
use crate::parser::Parser;
use vstd::prelude::*;

verus! {

/// The parser made by [`SkipCombinators::skip_left`].
pub struct SkipLeft<P, Q> {
    pub both: AndThen<P, Q>,
}

/// The parser made by [`SkipCombinators::skip_right`].
pub struct SkipRight<P, Q> {
    pub both: AndThen<P, Q>,
}

/// The parser made by [`SkipCombinators::surround`].
pub struct Surround<L, P, R> {
    pub inner: SkipLeft<L, SkipRight<P, R>>,
}

/// The outcome of a pair, reduced to its second value.
pub open spec fn second_of<A, B>(r: SpecResult<(A, B)>) -> SpecResult<B> {
    match r {
        SpecResult::Success { value, length } => SpecResult::Success { value: value.1, length },
        SpecResult::Failure { error, committed } => SpecResult::Failure { error, committed },
    }
}

/// The outcome of a pair, reduced to its first value.
pub open spec fn first_of<A, B>(r: SpecResult<(A, B)>) -> SpecResult<A> {
    match r {
        SpecResult::Success { value, length } => SpecResult::Success { value: value.0, length },
        SpecResult::Failure { error, committed } => SpecResult::Failure { error, committed },
    }
}

impl<I, P: Parser<I>, Q: Parser<I>> Parser<I> for SkipLeft<P, Q> {
    type Output = Q::Output;

    open spec fn wf(&self) -> bool {
        self.both.wf()
    }

    open spec fn outcome(&self, input: Seq<I>, offset: nat, r: SpecResult<Q::Output>) -> bool {
        exists|r0: SpecResult<(P::Output, Q::Output)>| #[trigger]
            self.both.outcome(input, offset, r0) && r == second_of(r0)
    }

    proof fn lemma_consumption(&self, input: Seq<I>, offset: nat, r: SpecResult<Q::Output>) {
        let r0 = choose|r0: SpecResult<(P::Output, Q::Output)>| #[trigger]
            self.both.outcome(input, offset, r0) && r == second_of(r0);
        self.both.lemma_consumption(input, offset, r0);
    }

    fn run(&self, state: &ParseState<I>) -> (r: ParseResult<Q::Output>) {
        let r0 = self.both.run(state);
        assert(self.both.outcome(state.input@, state.offset as nat, r0@));
        match r0 {
            ParseResult::Success { value, length } => ParseResult::Success {
                value: value.1,
                length,
            },
            ParseResult::Failure { error, committed } => ParseResult::Failure { error, committed },
        }
    }
}

impl<I, P: Parser<I>, Q: Parser<I>> Parser<I> for SkipRight<P, Q> {
    type Output = P::Output;

    open spec fn wf(&self) -> bool {
        self.both.wf()
    }

    open spec fn outcome(&self, input: Seq<I>, offset: nat, r: SpecResult<P::Output>) -> bool {
        exists|r0: SpecResult<(P::Output, Q::Output)>| #[trigger]
            self.both.outcome(input, offset, r0) && r == first_of(r0)
    }

    proof fn lemma_consumption(&self, input: Seq<I>, offset: nat, r: SpecResult<P::Output>) {
        let r0 = choose|r0: SpecResult<(P::Output, Q::Output)>| #[trigger]
            self.both.outcome(input, offset, r0) && r == first_of(r0);
        self.both.lemma_consumption(input, offset, r0);
    }

    fn run(&self, state: &ParseState<I>) -> (r: ParseResult<P::Output>) {
        let r0 = self.both.run(state);
        assert(self.both.outcome(state.input@, state.offset as nat, r0@));
        match r0 {
            ParseResult::Success { value, length } => ParseResult::Success {
                value: value.0,
                length,
            },
            ParseResult::Failure { error, committed } => ParseResult::Failure { error, committed },
        }
    }
}

impl<I, L: Parser<I>, P: Parser<I>, R: Parser<I>> Parser<I> for Surround<L, P, R> {
    type Output = P::Output;

    open spec fn wf(&self) -> bool {
        self.inner.wf()
    }

    open spec fn outcome(&self, input: Seq<I>, offset: nat, r: SpecResult<P::Output>) -> bool {
        self.inner.outcome(input, offset, r)
    }

    proof fn lemma_consumption(&self, input: Seq<I>, offset: nat, r: SpecResult<P::Output>) {
        self.inner.lemma_consumption(input, offset, r);
    }

    fn run(&self, state: &ParseState<I>) -> (r: ParseResult<P::Output>) {
        self.inner.run(state)
    }
}

/// Sequences that keep the value of one of their parts, on every parser.
pub trait SkipCombinators<I>: Parser<I> + Sized {
    /// This parser and then `other`; the value is that of `other`.
    fn skip_left<Q: Parser<I>>(self, other: Q) -> (r: SkipLeft<Self, Q>)
        ensures
            r.both == (AndThen { first: self, second: other }),
    ;

    /// This parser and then `other`; the value is that of this parser.
    fn skip_right<Q: Parser<I>>(self, other: Q) -> (r: SkipRight<Self, Q>)
        ensures
            r.both == (AndThen { first: self, second: other }),
    ;

    /// `left`, this parser and `right` in a row; the value is that of this parser.
    fn surround<L: Parser<I>, R: Parser<I>>(self, left: L, right: R) -> (r: Surround<L, Self, R>)
        ensures
            r.inner == (SkipLeft {
                both: AndThen {
                    first: left,
                    second: SkipRight { both: AndThen { first: self, second: right } },
                },
            }),
    ;
}

impl<I, P: Parser<I>> SkipCombinators<I> for P {
    fn skip_left<Q: Parser<I>>(self, other: Q) -> (r: SkipLeft<P, Q>) {
        SkipLeft { both: AndThen { first: self, second: other } }
    }

    fn skip_right<Q: Parser<I>>(self, other: Q) -> (r: SkipRight<P, Q>) {
        SkipRight { both: AndThen { first: self, second: other } }
    }

    fn surround<L: Parser<I>, R: Parser<I>>(self, left: L, right: R) -> (r: Surround<L, P, R>) {
        Surround {
            inner: SkipLeft {
                both: AndThen {
                    first: left,
                    second: SkipRight { both: AndThen { first: self, second: right } },
                },
            },
        }
    }
}

} // verus!
