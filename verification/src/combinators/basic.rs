//! Constant parsers and the two ways of transforming a parsed value.

use crate::parse_error::ParseError;
use crate::parse_result::{ParseResult, SpecResult};
use crate::parse_state::ParseState;
use crate::parser::Parser;
use std::marker::PhantomData;
use vstd::prelude::*;

verus! {

/// The parser made by [`successful`].
pub struct Successful<F> {
    pub value: F,
}

/// The parser made by [`failed`]. It never yields a value; `A` is the type
/// of the value that the parsers beside it yield.
pub struct Failed<F, A> {
    pub error: F,
    pub marker: PhantomData<A>,
}

/// The parser made by [`BasicCombinators::map`].
pub struct Mapped<P, F> {
    pub parser: P,
    pub f: F,
}

/// The parser made by [`BasicCombinators::flat_map`].
pub struct FlatMapped<P, F> {
    pub parser: P,
    pub f: F,
}

/// A parser that consumes nothing and succeeds with the value that `value` returns.
pub fn successful<A, F: Fn() -> A>(value: F) -> (r: Successful<F>)
    ensures
        r.value == value,
{
    Successful { value }
}

/// A parser that consumes nothing and fails, uncommitted, with the error that `error` returns.
pub fn failed<A, F: Fn() -> ParseError>(error: F) -> (r: Failed<F, A>)
    ensures
        r.error == error,
{
    Failed { error, marker: PhantomData }
}

impl<I, A, F: Fn() -> A> Parser<I> for Successful<F> {
    type Output = A;

    open spec fn wf(&self) -> bool {
        call_requires(self.value, ())
    }

    open spec fn outcome(&self, input: Seq<I>, offset: nat, r: SpecResult<A>) -> bool {
        r matches SpecResult::Success { value, length } && length == 0 && call_ensures(
            self.value,
            (),
            value,
        )
    }

    proof fn lemma_consumption(&self, input: Seq<I>, offset: nat, r: SpecResult<A>) {
    }

    fn run(&self, state: &ParseState<I>) -> (r: ParseResult<A>) {
        ParseResult::Success { value: (self.value)(), length: 0 }
    }
}

impl<I, A, F: Fn() -> ParseError> Parser<I> for Failed<F, A> {
    type Output = A;

    open spec fn wf(&self) -> bool {
        call_requires(self.error, ())
    }

    open spec fn outcome(&self, input: Seq<I>, offset: nat, r: SpecResult<A>) -> bool {
        r matches SpecResult::Failure { error, committed } && !committed && exists|e: ParseError|
            #[trigger] call_ensures(self.error, (), e) && e@ == error
    }

    proof fn lemma_consumption(&self, input: Seq<I>, offset: nat, r: SpecResult<A>) {
    }

    fn run(&self, state: &ParseState<I>) -> (r: ParseResult<A>) {
        ParseResult::Failure { error: (self.error)(), committed: false }
    }
}

impl<I, B, P: Parser<I>, F: Fn(P::Output) -> B> Parser<I> for Mapped<P, F> {
    type Output = B;

    open spec fn wf(&self) -> bool {
        &&& self.parser.wf()
        &&& forall|input: Seq<I>, offset: nat, a: P::Output, n: nat| #[trigger]
            self.parser.outcome(input, offset, SpecResult::Success { value: a, length: n })
                ==> call_requires(self.f, (a,))
    }

    open spec fn outcome(&self, input: Seq<I>, offset: nat, r: SpecResult<B>) -> bool {
        exists|r1: SpecResult<P::Output>| #[trigger]
            self.parser.outcome(input, offset, r1) && match r1 {
                SpecResult::Success { value: a, length: n } => r matches SpecResult::Success {
                    value: b,
                    length: m,
                } && m == n && call_ensures(self.f, (a,), b),
                SpecResult::Failure { .. } => r == r1.cast::<B>(),
            }
    }

    proof fn lemma_consumption(&self, input: Seq<I>, offset: nat, r: SpecResult<B>) {
        let r1 = choose|r1: SpecResult<P::Output>| #[trigger]
            self.parser.outcome(input, offset, r1) && match r1 {
                SpecResult::Success { value: a, length: n } => r matches SpecResult::Success {
                    value: b,
                    length: m,
                } && m == n && call_ensures(self.f, (a,), b),
                SpecResult::Failure { .. } => r == r1.cast::<B>(),
            };
        self.parser.lemma_consumption(input, offset, r1);
    }

    fn run(&self, state: &ParseState<I>) -> (r: ParseResult<B>) {
        let r1 = self.parser.run(state);
        assert(self.parser.outcome(state.input@, state.offset as nat, r1@));
        match r1 {
            ParseResult::Success { value, length } => {
                assert(self.parser.outcome(
                    state.input@,
                    state.offset as nat,
                    SpecResult::Success { value, length: length as nat },
                ));
                ParseResult::Success { value: (self.f)(value), length }
            },
            ParseResult::Failure { error, committed } => ParseResult::Failure { error, committed },
        }
    }
}

impl<I, Q: Parser<I>, P: Parser<I>, F: Fn(P::Output) -> Q> Parser<I> for FlatMapped<P, F> {
    type Output = Q::Output;

    open spec fn wf(&self) -> bool {
        &&& self.parser.wf()
        &&& forall|input: Seq<I>, offset: nat, a: P::Output, n: nat| #[trigger]
            self.parser.outcome(input, offset, SpecResult::Success { value: a, length: n })
                ==> call_requires(self.f, (a,))
        &&& forall|a: P::Output, q: Q| #[trigger] call_ensures(self.f, (a,), q) ==> q.wf()
    }

    open spec fn outcome(&self, input: Seq<I>, offset: nat, r: SpecResult<Q::Output>) -> bool {
        exists|r1: SpecResult<P::Output>| #[trigger]
            self.parser.outcome(input, offset, r1) && match r1 {
                SpecResult::Success { value: a, length: n } => exists|
                    q: Q,
                    r2: SpecResult<Q::Output>,
                |
                    {
                        &&& call_ensures(self.f, (a,), q)
                        &&& #[trigger] q.outcome(input, offset + n, r2)
                        &&& r == r2.committed_fallback(n != 0).add_length(n)
                    },
                SpecResult::Failure { .. } => r == r1.cast::<Q::Output>(),
            }
    }

    proof fn lemma_consumption(&self, input: Seq<I>, offset: nat, r: SpecResult<Q::Output>) {
        let r1 = choose|r1: SpecResult<P::Output>| #[trigger]
            self.parser.outcome(input, offset, r1) && match r1 {
                SpecResult::Success { value: a, length: n } => exists|
                    q: Q,
                    r2: SpecResult<Q::Output>,
                |
                    {
                        &&& call_ensures(self.f, (a,), q)
                        &&& #[trigger] q.outcome(input, offset + n, r2)
                        &&& r == r2.committed_fallback(n != 0).add_length(n)
                    },
                SpecResult::Failure { .. } => r == r1.cast::<Q::Output>(),
            };
        self.parser.lemma_consumption(input, offset, r1);
        if let SpecResult::Success { value: a, length: n } = r1 {
            let (q, r2) = choose|q: Q, r2: SpecResult<Q::Output>|
                {
                    &&& call_ensures(self.f, (a,), q)
                    &&& #[trigger] q.outcome(input, offset + n, r2)
                    &&& r == r2.committed_fallback(n != 0).add_length(n)
                };
            q.lemma_consumption(input, offset + n, r2);
        }
    }

    fn run(&self, state: &ParseState<I>) -> (r: ParseResult<Q::Output>) {
        let r1 = self.parser.run(state);
        assert(self.parser.outcome(state.input@, state.offset as nat, r1@));
        match r1 {
            ParseResult::Success { value, length } => {
                assert(self.parser.outcome(
                    state.input@,
                    state.offset as nat,
                    SpecResult::Success { value, length: length as nat },
                ));
                let q = (self.f)(value);
                let next = state.add_offset(length);
                let r2 = q.run(&next);
                assert(q.outcome(state.input@, state.offset as nat + length as nat, r2@));
                r2.with_committed_fallback(length != 0).with_add_length(length)
            },
            ParseResult::Failure { error, committed } => ParseResult::Failure { error, committed },
        }
    }
}

/// The two ways of transforming what a parser produces.
pub trait BasicCombinators<I>: Parser<I> + Sized {
    /// Transforms the value of a success with `f`; failures pass unchanged.
    fn map<B, F: Fn(Self::Output) -> B>(self, f: F) -> (r: Mapped<Self, F>)
        ensures
            r.parser == self,
            r.f == f,
    ;

    /// Runs this parser, then the parser that `f` makes from its value, on
    /// what is left. The lengths add up; a failure of the second parser is
    /// committed if the first one consumed anything.
    fn flat_map<Q: Parser<I>, F: Fn(Self::Output) -> Q>(self, f: F) -> (r: FlatMapped<Self, F>)
        ensures
            r.parser == self,
            r.f == f,
    ;
}

impl<I, P: Parser<I>> BasicCombinators<I> for P {
    fn map<B, F: Fn(P::Output) -> B>(self, f: F) -> (r: Mapped<P, F>) {
        Mapped { parser: self, f }
    }

    fn flat_map<Q: Parser<I>, F: Fn(P::Output) -> Q>(self, f: F) -> (r: FlatMapped<P, F>) {
        FlatMapped { parser: self, f }
    }
}

} // verus!
