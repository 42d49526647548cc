//! What a parser is, and the driver that runs one over a whole input.

use crate::parse_error::{ParseError, ParseErrorView};
use crate::parse_result::{ParseResult, SpecResult};
use crate::parse_state::ParseState;
use vstd::prelude::*;

verus! {

/// A recogniser over elements of type `I`.
///
/// A parser is a value. What it does is given by `outcome`, a relation
/// between the whole input, the offset at which the parser starts, and the
/// outcome it may return there. `run` is proved against that relation.
pub trait Parser<I> {
    /// The type of the value produced on success.
    type Output;

    /// The parser is put together in such a way that it can be run: every
    /// function it holds accepts the values that will be handed to it.
    spec fn wf(&self) -> bool;

    /// `r` is an outcome of this parser on `input`, started at `offset`.
    spec fn outcome(&self, input: Seq<I>, offset: nat, r: SpecResult<Self::Output>) -> bool;

    /// A success never consumes more than what is left of the input.
    proof fn lemma_consumption(&self, input: Seq<I>, offset: nat, r: SpecResult<Self::Output>)
        requires
            self.wf(),
            offset <= input.len(),
            self.outcome(input, offset, r),
        ensures
            r matches SpecResult::Success { length, .. } ==> offset + length <= input.len(),
    ;

    /// Runs the parser at the cursor.
    fn run(&self, state: &ParseState<I>) -> (r: ParseResult<Self::Output>)
        requires
            self.wf(),
            state.wf(),
        ensures
            self.outcome(state.input@, state.offset as nat, r@),
            r@ matches SpecResult::Success { length, .. } ==> state.offset + length
                <= state.input@.len(),
    ;
}

/// Runs `parser` on `input` from its first element.
pub fn parse<I, P: Parser<I>>(parser: &P, input: &[I]) -> (r: Result<P::Output, ParseError>)
    requires
        parser.wf(),
    ensures
        exists|o: SpecResult<P::Output>|
            {
                &&& #[trigger] parser.outcome(input@, 0, o)
                &&& match r {
                    Ok(value) => o.to_result() == Ok::<P::Output, ParseErrorView>(value),
                    Err(error) => o.to_result() == Err::<P::Output, ParseErrorView>(error@),
                }
            },
{
    let state = ParseState::new(input, 0);
    let res = parser.run(&state);
    assert(parser.outcome(input@, 0, res@));
    res.to_result()
}

} // verus!
