//! Left-associative chains of operands and binary operators.
//!
//! A chain is an operand followed by any number of links, each an operator
//! and an operand. The operator yields the function that folds the operand
//! into what stands to its left. A chain ends where the operator fails
//! uncommitted, or after a link that consumed nothing. A link whose operator
//! consumed something and whose operand fails is a committed failure.

use crate::combinators::operator::is_final;
use crate::parse_result::{ParseResult, SpecResult};
use crate::parse_state::ParseState;
use crate::parser::Parser;
use vstd::prelude::*;

verus! {

/// The parser made by [`crate::combinators::operator::OperatorParsers::chain_left1`].
pub struct ChainLeft1<P, Op> {
    /// The operand.
    pub parser: P,
    /// The operator.
    pub op: Op,
}

/// The parser made by [`crate::combinators::operator::OperatorParsers::rest_left1`]:
/// the links of a chain whose first operand has been read already.
pub struct RestLeft1<P, Op, A> {
    /// The operand and the operator of the links.
    pub chain: ChainLeft1<P, Op>,
    /// What stands to the left of the first link.
    pub first: A,
}

/// The `i`-th link runs from `stops[i - 1]` to `stops[i]` and folds its
/// operand into `accs[i - 1]`, which gives `accs[i]`. Unless it is the last
/// one, it consumes something.
pub open spec fn link_ok<I, P: Parser<I>, Op: Parser<I>>(
    chain: &ChainLeft1<P, Op>,
    input: Seq<I>,
    accs: Seq<P::Output>,
    stops: Seq<nat>,
    i: int,
) -> bool where Op::Output: Fn(P::Output, P::Output) -> P::Output {
    &&& stops[i - 1] <= stops[i]
    &&& i + 1 < accs.len() ==> stops[i - 1] < stops[i]
    &&& exists|r1: SpecResult<Op::Output>, r2: SpecResult<P::Output>|
        {
            &&& #[trigger] chain.op.outcome(input, stops[i - 1], r1)
            &&& r1 is Success
            &&& #[trigger] chain.parser.outcome(input, stops[i - 1] + r1->length, r2)
            &&& r2 is Success
            &&& stops[i] == stops[i - 1] + r1->length + r2->length
            &&& call_ensures(r1->value, (accs[i - 1], r2->value), accs[i])
        }
}

/// The operand at `start` and the links behind it can succeed one after the
/// other: the operand ends at `stops[0]` and yields `accs[0]`, and the `i`-th
/// link ends at `stops[i]` and leaves `accs[i]`.
pub open spec fn chained<I, P: Parser<I>, Op: Parser<I>>(
    chain: &ChainLeft1<P, Op>,
    input: Seq<I>,
    start: nat,
    accs: Seq<P::Output>,
    stops: Seq<nat>,
) -> bool where Op::Output: Fn(P::Output, P::Output) -> P::Output {
    &&& start <= stops[0]
    &&& chain.parser.outcome(
        input,
        start,
        SpecResult::Success { value: accs[0], length: (stops[0] - start) as nat },
    )
    &&& linked(chain, input, accs, stops)
}

/// The links behind a first operand can succeed one after the other: the
/// first operand ends at `stops[0]` and is `accs[0]`, and the `i`-th link
/// ends at `stops[i]` and leaves `accs[i]`.
pub open spec fn linked<I, P: Parser<I>, Op: Parser<I>>(
    chain: &ChainLeft1<P, Op>,
    input: Seq<I>,
    accs: Seq<P::Output>,
    stops: Seq<nat>,
) -> bool where Op::Output: Fn(P::Output, P::Output) -> P::Output {
    &&& accs.len() == stops.len()
    &&& accs.len() >= 1
    &&& forall|i: int| 1 <= i < accs.len() ==> #[trigger] link_ok(chain, input, accs, stops, i)
}

/// What a chain returns where the link behind `acc` fails with `failure`:
/// the failure where it is committed, and else `acc`, with the `length`
/// consumed up to there.
pub open spec fn broken_link<A>(failure: SpecResult<A>, acc: A, length: nat) -> SpecResult<A> {
    if is_final(failure) {
        failure
    } else {
        SpecResult::Success { value: acc, length }
    }
}

/// `r` is the outcome of a chain whose operand and links so far left `accs`
/// and ended at `stops`.
pub open spec fn chain_ends<I, P: Parser<I>, Op: Parser<I>>(
    chain: &ChainLeft1<P, Op>,
    input: Seq<I>,
    start: nat,
    accs: Seq<P::Output>,
    stops: Seq<nat>,
    r: SpecResult<P::Output>,
) -> bool where Op::Output: Fn(P::Output, P::Output) -> P::Output {
    let k = accs.len() - 1;
    let length = (stops[k] - start) as nat;
    if k > 0 && stops[k - 1] == stops[k] {
        r == (SpecResult::Success { value: accs[k], length })
    } else {
        exists|r1: SpecResult<Op::Output>| #[trigger]
            chain.op.outcome(input, stops[k], r1) && match r1 {
                SpecResult::Failure { .. } => r == broken_link(
                    r1.cast::<P::Output>(),
                    accs[k],
                    length,
                ),
                SpecResult::Success { length: n, .. } => exists|r2: SpecResult<P::Output>| #[trigger]
                    chain.parser.outcome(input, stops[k] + n, r2) && r2 is Failure && r
                        == broken_link(r2.committed_fallback(n != 0), accs[k], length),
            }
    }
}

/// The links of a chain stay within the input.
pub proof fn lemma_linked_bounds<I, P: Parser<I>, Op: Parser<I>>(
    chain: &ChainLeft1<P, Op>,
    input: Seq<I>,
    accs: Seq<P::Output>,
    stops: Seq<nat>,
    i: int,
) where Op::Output: Fn(P::Output, P::Output) -> P::Output
    requires
        chain.parser.wf(),
        chain.op.wf(),
        stops[0] <= input.len(),
        linked(chain, input, accs, stops),
        0 <= i < accs.len(),
    ensures
        stops[0] <= stops[i] <= input.len(),
    decreases i,
{
    if i > 0 {
        lemma_linked_bounds(chain, input, accs, stops, i - 1);
        assert(link_ok(chain, input, accs, stops, i));
        let (r1, r2) = choose|r1: SpecResult<Op::Output>, r2: SpecResult<P::Output>|
            {
                &&& #[trigger] chain.op.outcome(input, stops[i - 1], r1)
                &&& r1 is Success
                &&& #[trigger] chain.parser.outcome(input, stops[i - 1] + r1->length, r2)
                &&& r2 is Success
                &&& stops[i] == stops[i - 1] + r1->length + r2->length
                &&& call_ensures(r1->value, (accs[i - 1], r2->value), accs[i])
            };
        chain.op.lemma_consumption(input, stops[i - 1], r1);
        chain.parser.lemma_consumption(input, stops[i - 1] + r1->length, r2);
    }
}

/// Whether the functions that the operator of a chain yields can be called
/// on any two operands.
pub open spec fn foldable<I, P: Parser<I>, Op: Parser<I>>(chain: &ChainLeft1<P, Op>) -> bool where
    Op::Output: Fn(P::Output, P::Output) -> P::Output,
 {
    forall|input: Seq<I>, offset: nat, f: Op::Output, n: nat| #[trigger]
        chain.op.outcome(input, offset, SpecResult::Success { value: f, length: n })
            ==> forall|x: P::Output, y: P::Output| call_requires(f, (x, y))
}

/// Runs the links of a chain whose first operand, `first`, ended at `from`.
fn run_links<I, P: Parser<I>, Op: Parser<I>>(
    chain: &ChainLeft1<P, Op>,
    state: &ParseState<I>,
    first: P::Output,
    from: usize,
) -> (r: ParseResult<P::Output>) where Op::Output: Fn(P::Output, P::Output) -> P::Output
    requires
        chain.parser.wf(),
        chain.op.wf(),
        foldable(chain),
        state.wf(),
        state.offset <= from <= state.input@.len(),
    ensures
        exists|accs: Seq<P::Output>, stops: Seq<nat>|
            {
                &&& #[trigger] linked(chain, state.input@, accs, stops)
                &&& accs[0] == first
                &&& stops[0] == from
                &&& chain_ends(chain, state.input@, state.offset as nat, accs, stops, r@)
            },
        r@ matches SpecResult::Success { length, .. } ==> state.offset + length
            <= state.input@.len(),
{
    let ghost input = state.input@;
    let ghost start = state.offset as nat;
    let mut acc = first;
    let mut pos = from;
    let mut links: usize = 0;
    let mut last: usize = 0;
    let ghost mut accs: Seq<P::Output> = seq![acc];
    let ghost mut stops: Seq<nat> = seq![pos as nat];
    loop
        invariant
            chain.parser.wf(),
            chain.op.wf(),
            foldable(chain),
            state.wf(),
            input == state.input@,
            start == state.offset,
            start <= from <= pos <= input.len(),
            linked(chain, input, accs, stops),
            accs[0] == first,
            stops[0] == from,
            accs.last() == acc,
            stops.last() == pos,
            links > 0 ==> accs.len() > 1 && stops[accs.len() - 2] + last == pos,
            links == 0 ==> accs.len() == 1,
        decreases input.len() - pos, if last == 0 && links > 0 { 0int } else { 1int },
    {
        if links > 0 && last == 0 {
            let r = ParseResult::Success { value: acc, length: pos - state.offset };
            assert(chain_ends(chain, input, start, accs, stops, r@));
            return r;
        }
        let here = ParseState::new(state.input, pos);
        let r1 = chain.op.run(&here);
        assert(chain.op.outcome(input, pos as nat, r1@));
        match r1 {
            ParseResult::Failure { error, committed } => {
                let r = if committed {
                    ParseResult::Failure { error, committed }
                } else {
                    ParseResult::Success { value: acc, length: pos - state.offset }
                };
                assert(r@ == broken_link(
                    r1@.cast::<P::Output>(),
                    accs.last(),
                    (pos - start) as nat,
                ));
                assert(chain_ends(chain, input, start, accs, stops, r@));
                return r;
            },
            ParseResult::Success { value: f, length: n1 } => {
                assert(chain.op.outcome(
                    input,
                    pos as nat,
                    SpecResult::Success { value: f, length: n1 as nat },
                ));
                let next = here.add_offset(n1);
                let r2 = chain.parser.run(&next);
                assert(chain.parser.outcome(input, pos as nat + n1 as nat, r2@));
                match r2 {
                    ParseResult::Failure { error, committed } => {
                        let r = if committed || n1 != 0 {
                            ParseResult::Failure { error, committed: true }
                        } else {
                            ParseResult::Success { value: acc, length: pos - state.offset }
                        };
                        assert(r@ == broken_link(
                            r2@.committed_fallback(n1 != 0),
                            accs.last(),
                            (pos - start) as nat,
                        ));
                        assert(chain_ends(chain, input, start, accs, stops, r@));
                        return r;
                    },
                    ParseResult::Success { value: y, length: n2 } => {
                        let ghost old_accs = accs;
                        let ghost old_stops = stops;
                        let ghost x = acc;
                        acc = f(acc, y);
                        last = n1 + n2;
                        pos = pos + last;
                        if links == 0 {
                            links = 1;
                        }
                        proof {
                            accs = accs.push(acc);
                            stops = stops.push(pos as nat);
                            let i = accs.len() - 1;
                            assert(link_ok(chain, input, accs, stops, i)) by {
                                assert(chain.op.outcome(input, stops[i - 1], r1@));
                                assert(chain.parser.outcome(
                                    input,
                                    stops[i - 1] + r1@->length,
                                    r2@,
                                ));
                                assert(call_ensures(f, (x, y), acc));
                            }
                            assert forall|j: int| 1 <= j < accs.len() implies #[trigger] link_ok(
                                chain,
                                input,
                                accs,
                                stops,
                                j,
                            ) by {
                                if j < old_accs.len() {
                                    assert(link_ok(chain, input, old_accs, old_stops, j));
                                }
                            }
                        }
                    },
                }
            },
        }
    }
}

impl<I, P: Parser<I>, Op: Parser<I>> Parser<I> for ChainLeft1<P, Op> where
    Op::Output: Fn(P::Output, P::Output) -> P::Output,
 {
    type Output = P::Output;

    open spec fn wf(&self) -> bool {
        &&& self.parser.wf()
        &&& self.op.wf()
        &&& foldable(self)
    }

    open spec fn outcome(&self, input: Seq<I>, offset: nat, r: SpecResult<P::Output>) -> bool {
        ||| r is Failure && self.parser.outcome(input, offset, r)
        ||| exists|accs: Seq<P::Output>, stops: Seq<nat>|
            {
                &&& #[trigger] chained(self, input, offset, accs, stops)
                &&& chain_ends(self, input, offset, accs, stops, r)
            }
    }

    proof fn lemma_consumption(&self, input: Seq<I>, offset: nat, r: SpecResult<P::Output>) {
        if r is Success {
            let (accs, stops) = choose|accs: Seq<P::Output>, stops: Seq<nat>|
                {
                    &&& #[trigger] chained(self, input, offset, accs, stops)
                    &&& chain_ends(self, input, offset, accs, stops, r)
                };
            self.parser.lemma_consumption(
                input,
                offset,
                SpecResult::Success { value: accs[0], length: (stops[0] - offset) as nat },
            );
            lemma_linked_bounds(self, input, accs, stops, accs.len() - 1);
        }
    }

    fn run(&self, state: &ParseState<I>) -> (r: ParseResult<P::Output>) {
        match self.parser.run(state) {
            ParseResult::Success { value, length } => {
                let r = run_links(self, state, value, state.offset + length);
                proof {
                    let (accs, stops) = choose|accs: Seq<P::Output>, stops: Seq<nat>|
                        {
                            &&& #[trigger] linked(self, state.input@, accs, stops)
                            &&& accs[0] == value
                            &&& stops[0] == state.offset + length
                            &&& chain_ends(
                                self,
                                state.input@,
                                state.offset as nat,
                                accs,
                                stops,
                                r@,
                            )
                        };
                    assert(chained(self, state.input@, state.offset as nat, accs, stops));
                }
                r
            },
            ParseResult::Failure { error, committed } => ParseResult::Failure { error, committed },
        }
    }
}

impl<I, P: Parser<I>, Op: Parser<I>> Parser<I> for RestLeft1<P, Op, P::Output> where
    Op::Output: Fn(P::Output, P::Output) -> P::Output,
    P::Output: Clone,
 {
    type Output = P::Output;

    open spec fn wf(&self) -> bool {
        &&& self.chain.wf()
        &&& call_requires(P::Output::clone, (&self.first,))
    }

    /// The links start at `offset`, with a copy of `first` to their left.
    open spec fn outcome(&self, input: Seq<I>, offset: nat, r: SpecResult<P::Output>) -> bool {
        exists|accs: Seq<P::Output>, stops: Seq<nat>|
            {
                &&& #[trigger] linked(&self.chain, input, accs, stops)
                &&& cloned(self.first, accs[0])
                &&& stops[0] == offset
                &&& chain_ends(&self.chain, input, offset, accs, stops, r)
            }
    }

    proof fn lemma_consumption(&self, input: Seq<I>, offset: nat, r: SpecResult<P::Output>) {
        if r is Success {
            let (accs, stops) = choose|accs: Seq<P::Output>, stops: Seq<nat>|
                {
                    &&& #[trigger] linked(&self.chain, input, accs, stops)
                    &&& cloned(self.first, accs[0])
                    &&& stops[0] == offset
                    &&& chain_ends(&self.chain, input, offset, accs, stops, r)
                };
            lemma_linked_bounds(&self.chain, input, accs, stops, accs.len() - 1);
        }
    }

    fn run(&self, state: &ParseState<I>) -> (r: ParseResult<P::Output>) {
        let first = self.first.clone();
        run_links(&self.chain, state, first, state.offset)
    }
}

} // verus!
