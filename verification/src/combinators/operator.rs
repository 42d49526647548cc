//! Sequencing, alternation, lookahead and commit control.

use crate::combinators::chain::{ChainLeft1, RestLeft1};
use crate::parse_error::{ParseError, ParseErrorView};
use crate::parse_result::{ParseResult, SpecResult};
use crate::parse_state::ParseState;
use crate::parser::Parser;
use crate::text::push_text;
use vstd::prelude::*;

verus! {

/// The parser made by [`OperatorParsers::and_then`].
pub struct AndThen<P, Q> {
    pub first: P,
    pub second: Q,
}

/// The parser made by [`OperatorParsers::or`].
pub struct OrElse<P, Q> {
    pub first: P,
    pub second: Q,
}

/// The parser made by [`OperatorParsers::attempt`].
pub struct Attempt<P> {
    pub parser: P,
}

/// The parser made by [`OperatorParsers::opt`].
pub struct Optional<P> {
    pub parser: P,
}

/// The parser made by [`OperatorParsers::exists_ahead`].
pub struct Exists<P> {
    pub parser: P,
}

/// The parser made by [`OperatorParsers::not`].
pub struct Not<P> {
    pub parser: P,
}

/// What a sequence of two parsers returns, given what each of them returned.
/// `r2` is read only where `r1` is a success.
pub open spec fn sequenced<A, B>(r1: SpecResult<A>, r2: SpecResult<B>) -> SpecResult<(A, B)> {
    match r1 {
        SpecResult::Success { value: a, length: n } => match r2 {
            SpecResult::Success { value: b, length: m } => SpecResult::Success {
                value: (a, b),
                length: n + m,
            },
            SpecResult::Failure { error, committed } => SpecResult::Failure {
                error,
                committed: committed || n != 0,
            },
        },
        SpecResult::Failure { error, committed } => SpecResult::Failure { error, committed },
    }
}

/// Whether an alternative may move on to its next branch after `r`.
pub open spec fn recoverable<A>(r: SpecResult<A>) -> bool {
    r matches SpecResult::Failure { committed, .. } && !committed
}

/// Whether `r` is a failure that no alternative may recover from.
pub open spec fn is_final<A>(r: SpecResult<A>) -> bool {
    r matches SpecResult::Failure { committed, .. } && committed
}

/// What `opt` makes of the outcome of its parser.
pub open spec fn optional_of<A>(r: SpecResult<A>) -> SpecResult<Option<A>> {
    match r {
        SpecResult::Success { value, length } => SpecResult::Success { value: Some(value), length },
        SpecResult::Failure { error, committed } => if committed {
            SpecResult::Failure { error, committed }
        } else {
            SpecResult::Success { value: None, length: 0 }
        },
    }
}

/// What the lookahead `exists_ahead` makes of the outcome of its parser.
pub open spec fn exists_of<A>(r: SpecResult<A>) -> SpecResult<bool> {
    match r {
        SpecResult::Success { .. } => SpecResult::Success { value: true, length: 0 },
        SpecResult::Failure { error, committed } => if committed {
            SpecResult::Failure { error, committed }
        } else {
            SpecResult::Success { value: false, length: 0 }
        },
    }
}

/// The error with which `not` fails at `offset` when its parser succeeds.
pub open spec fn not_error(offset: nat) -> ParseErrorView {
    ParseErrorView::Mismatch { offset, length: 0, message: "not predicate failed"@ }
}

/// What `not` makes, at `offset`, of the outcome of its parser.
pub open spec fn not_of<A>(r: SpecResult<A>, offset: nat) -> SpecResult<()> {
    match r {
        SpecResult::Success { .. } => SpecResult::Failure {
            error: not_error(offset),
            committed: false,
        },
        SpecResult::Failure { error, committed } => if committed {
            SpecResult::Failure { error, committed }
        } else {
            SpecResult::Success { value: (), length: 0 }
        },
    }
}

impl<I, P: Parser<I>, Q: Parser<I>> Parser<I> for AndThen<P, Q> {
    type Output = (P::Output, Q::Output);

    open spec fn wf(&self) -> bool {
        self.first.wf() && self.second.wf()
    }

    open spec fn outcome(
        &self,
        input: Seq<I>,
        offset: nat,
        r: SpecResult<(P::Output, Q::Output)>,
    ) -> bool {
        exists|r1: SpecResult<P::Output>| #[trigger]
            self.first.outcome(input, offset, r1) && match r1 {
                SpecResult::Success { length: n, .. } => exists|r2: SpecResult<Q::Output>| #[trigger]
                    self.second.outcome(input, offset + n, r2) && r == sequenced(r1, r2),
                SpecResult::Failure { .. } => r == r1.cast::<(P::Output, Q::Output)>(),
            }
    }

    proof fn lemma_consumption(
        &self,
        input: Seq<I>,
        offset: nat,
        r: SpecResult<(P::Output, Q::Output)>,
    ) {
        let r1 = choose|r1: SpecResult<P::Output>| #[trigger]
            self.first.outcome(input, offset, r1) && match r1 {
                SpecResult::Success { length: n, .. } => exists|r2: SpecResult<Q::Output>| #[trigger]
                    self.second.outcome(input, offset + n, r2) && r == sequenced(r1, r2),
                SpecResult::Failure { .. } => r == r1.cast::<(P::Output, Q::Output)>(),
            };
        self.first.lemma_consumption(input, offset, r1);
        if let SpecResult::Success { length: n, .. } = r1 {
            let r2 = choose|r2: SpecResult<Q::Output>| #[trigger]
                self.second.outcome(input, offset + n, r2) && r == sequenced(r1, r2);
            self.second.lemma_consumption(input, offset + n, r2);
        }
    }

    fn run(&self, state: &ParseState<I>) -> (r: ParseResult<(P::Output, Q::Output)>) {
        let r1 = self.first.run(state);
        assert(self.first.outcome(state.input@, state.offset as nat, r1@));
        match r1 {
            ParseResult::Success { value: a, length: n } => {
                let next = state.add_offset(n);
                let r2 = self.second.run(&next);
                assert(self.second.outcome(state.input@, state.offset as nat + n as nat, r2@));
                match r2 {
                    ParseResult::Success { value: b, length: m } => ParseResult::Success {
                        value: (a, b),
                        length: n + m,
                    },
                    ParseResult::Failure { error, committed } => ParseResult::Failure {
                        error,
                        committed: committed || n != 0,
                    },
                }
            },
            ParseResult::Failure { error, committed } => ParseResult::Failure { error, committed },
        }
    }
}

impl<I, P: Parser<I>, Q: Parser<I, Output = P::Output>> Parser<I> for OrElse<P, Q> {
    type Output = P::Output;

    open spec fn wf(&self) -> bool {
        self.first.wf() && self.second.wf()
    }

    open spec fn outcome(&self, input: Seq<I>, offset: nat, r: SpecResult<P::Output>) -> bool {
        exists|r1: SpecResult<P::Output>| #[trigger]
            self.first.outcome(input, offset, r1) && if recoverable(r1) {
                self.second.outcome(input, offset, r)
            } else {
                r == r1
            }
    }

    proof fn lemma_consumption(&self, input: Seq<I>, offset: nat, r: SpecResult<P::Output>) {
        let r1 = choose|r1: SpecResult<P::Output>| #[trigger]
            self.first.outcome(input, offset, r1) && if recoverable(r1) {
                self.second.outcome(input, offset, r)
            } else {
                r == r1
            };
        if recoverable(r1) {
            self.second.lemma_consumption(input, offset, r);
        } else {
            self.first.lemma_consumption(input, offset, r1);
        }
    }

    fn run(&self, state: &ParseState<I>) -> (r: ParseResult<P::Output>) {
        let r1 = self.first.run(state);
        assert(self.first.outcome(state.input@, state.offset as nat, r1@));
        match r1 {
            ParseResult::Failure { error, committed } => {
                if committed {
                    ParseResult::Failure { error, committed }
                } else {
                    self.second.run(state)
                }
            },
            ParseResult::Success { value, length } => ParseResult::Success { value, length },
        }
    }
}

impl<I, P: Parser<I>> Parser<I> for Attempt<P> {
    type Output = P::Output;

    open spec fn wf(&self) -> bool {
        self.parser.wf()
    }

    open spec fn outcome(&self, input: Seq<I>, offset: nat, r: SpecResult<P::Output>) -> bool {
        exists|r1: SpecResult<P::Output>| #[trigger]
            self.parser.outcome(input, offset, r1) && r == r1.uncommitted()
    }

    proof fn lemma_consumption(&self, input: Seq<I>, offset: nat, r: SpecResult<P::Output>) {
        let r1 = choose|r1: SpecResult<P::Output>| #[trigger]
            self.parser.outcome(input, offset, r1) && r == r1.uncommitted();
        self.parser.lemma_consumption(input, offset, r1);
    }

    fn run(&self, state: &ParseState<I>) -> (r: ParseResult<P::Output>) {
        let r1 = self.parser.run(state);
        assert(self.parser.outcome(state.input@, state.offset as nat, r1@));
        r1.with_uncommitted()
    }
}

impl<I, P: Parser<I>> Parser<I> for Optional<P> {
    type Output = Option<P::Output>;

    open spec fn wf(&self) -> bool {
        self.parser.wf()
    }

    open spec fn outcome(
        &self,
        input: Seq<I>,
        offset: nat,
        r: SpecResult<Option<P::Output>>,
    ) -> bool {
        exists|r1: SpecResult<P::Output>| #[trigger]
            self.parser.outcome(input, offset, r1) && r == optional_of(r1)
    }

    proof fn lemma_consumption(
        &self,
        input: Seq<I>,
        offset: nat,
        r: SpecResult<Option<P::Output>>,
    ) {
        let r1 = choose|r1: SpecResult<P::Output>| #[trigger]
            self.parser.outcome(input, offset, r1) && r == optional_of(r1);
        self.parser.lemma_consumption(input, offset, r1);
    }

    fn run(&self, state: &ParseState<I>) -> (r: ParseResult<Option<P::Output>>) {
        let r1 = self.parser.run(state);
        assert(self.parser.outcome(state.input@, state.offset as nat, r1@));
        match r1 {
            ParseResult::Success { value, length } => ParseResult::Success {
                value: Some(value),
                length,
            },
            ParseResult::Failure { error, committed } => {
                if committed {
                    ParseResult::Failure { error, committed }
                } else {
                    ParseResult::Success { value: None, length: 0 }
                }
            },
        }
    }
}

impl<I, P: Parser<I>> Parser<I> for Exists<P> {
    type Output = bool;

    open spec fn wf(&self) -> bool {
        self.parser.wf()
    }

    open spec fn outcome(&self, input: Seq<I>, offset: nat, r: SpecResult<bool>) -> bool {
        exists|r1: SpecResult<P::Output>| #[trigger]
            self.parser.outcome(input, offset, r1) && r == exists_of(r1)
    }

    proof fn lemma_consumption(&self, input: Seq<I>, offset: nat, r: SpecResult<bool>) {
    }

    fn run(&self, state: &ParseState<I>) -> (r: ParseResult<bool>) {
        let r1 = self.parser.run(state);
        assert(self.parser.outcome(state.input@, state.offset as nat, r1@));
        match r1 {
            ParseResult::Success { .. } => ParseResult::Success { value: true, length: 0 },
            ParseResult::Failure { error, committed } => {
                if committed {
                    ParseResult::Failure { error, committed }
                } else {
                    ParseResult::Success { value: false, length: 0 }
                }
            },
        }
    }
}

impl<I, P: Parser<I>> Parser<I> for Not<P> {
    type Output = ();

    open spec fn wf(&self) -> bool {
        self.parser.wf()
    }

    open spec fn outcome(&self, input: Seq<I>, offset: nat, r: SpecResult<()>) -> bool {
        exists|r1: SpecResult<P::Output>| #[trigger]
            self.parser.outcome(input, offset, r1) && r == not_of(r1, offset)
    }

    proof fn lemma_consumption(&self, input: Seq<I>, offset: nat, r: SpecResult<()>) {
    }

    fn run(&self, state: &ParseState<I>) -> (r: ParseResult<()>) {
        let r1 = self.parser.run(state);
        assert(self.parser.outcome(state.input@, state.offset as nat, r1@));
        match r1 {
            ParseResult::Success { .. } => {
                let mut message = String::new();
                push_text(&mut message, "not predicate failed");
                ParseResult::Failure {
                    error: ParseError::of_mismatch(state.next_offset(), 0, message),
                    committed: false,
                }
            },
            ParseResult::Failure { error, committed } => {
                if committed {
                    ParseResult::Failure { error, committed }
                } else {
                    ParseResult::Success { value: (), length: 0 }
                }
            },
        }
    }
}

/// Sequencing, alternation, lookahead and commit control, on every parser.
pub trait OperatorParsers<I>: Parser<I> + Sized {
    /// Runs this parser without consuming: `true` where it succeeds, `false`
    /// where it fails uncommitted. A committed failure stays a failure.
    fn exists_ahead(self) -> (r: Exists<Self>)
        ensures
            r.parser == self,
    ;

    /// Succeeds, consuming nothing, where this parser fails uncommitted; fails
    /// uncommitted where it succeeds. A committed failure stays a failure.
    fn not(self) -> (r: Not<Self>)
        ensures
            r.parser == self,
    ;

    /// `Some` of the value where this parser succeeds, `None` and nothing
    /// consumed where it fails uncommitted.
    fn opt(self) -> (r: Optional<Self>)
        ensures
            r.parser == self,
    ;

    /// Tries this parser, and `other` at the same offset if and only if this
    /// one failed uncommitted.
    fn or<Q: Parser<I, Output = Self::Output>>(self, other: Q) -> (r: OrElse<Self, Q>)
        ensures
            r.first == self,
            r.second == other,
    ;

    /// Runs this parser and then `other` on what is left, and pairs their
    /// values. A failure of `other` is committed if this parser consumed anything.
    fn and_then<Q: Parser<I>>(self, other: Q) -> (r: AndThen<Self, Q>)
        ensures
            r.first == self,
            r.second == other,
    ;

    /// Makes every failure of this parser uncommitted.
    fn attempt(self) -> (r: Attempt<Self>)
        ensures
            r.parser == self,
    ;

    /// This parser, then `op` and this parser any number of times. The value
    /// is folded from the left with the functions that `op` yields.
    fn chain_left1<Op: Parser<I>>(self, op: Op) -> (r: ChainLeft1<Self, Op>) where
        Op::Output: Fn(Self::Output, Self::Output) -> Self::Output,

        ensures
            r.parser == self,
            r.op == op,
    ;

    /// `op` and this parser any number of times, behind a first operand
    /// `x` that has been read already. The value is folded from the left,
    /// starting with `x`.
    fn rest_left1<Op: Parser<I>>(self, op: Op, x: Self::Output) -> (r: RestLeft1<
        Self,
        Op,
        Self::Output,
    >) where Op::Output: Fn(Self::Output, Self::Output) -> Self::Output, Self::Output: Clone
        ensures
            r.chain.parser == self,
            r.chain.op == op,
            r.first == x,
    ;
}

impl<I, P: Parser<I>> OperatorParsers<I> for P {
    fn exists_ahead(self) -> (r: Exists<P>) {
        Exists { parser: self }
    }

    fn not(self) -> (r: Not<P>) {
        Not { parser: self }
    }

    fn opt(self) -> (r: Optional<P>) {
        Optional { parser: self }
    }

    fn or<Q: Parser<I, Output = P::Output>>(self, other: Q) -> (r: OrElse<P, Q>) {
        OrElse { first: self, second: other }
    }

    fn and_then<Q: Parser<I>>(self, other: Q) -> (r: AndThen<P, Q>) {
        AndThen { first: self, second: other }
    }

    fn attempt(self) -> (r: Attempt<P>) {
        Attempt { parser: self }
    }

    fn chain_left1<Op: Parser<I>>(self, op: Op) -> (r: ChainLeft1<P, Op>) where
        Op::Output: Fn(P::Output, P::Output) -> P::Output,
     {
        ChainLeft1 { parser: self, op }
    }

    fn rest_left1<Op: Parser<I>>(self, op: Op, x: P::Output) -> (r: RestLeft1<P, Op, P::Output>) where
        Op::Output: Fn(P::Output, P::Output) -> P::Output,
        P::Output: Clone,
     {
        RestLeft1 { chain: ChainLeft1 { parser: self, op }, first: x }
    }
}

} // verus!
