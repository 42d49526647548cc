//! Repetition, with or without a separator between the elements.
//!
//! A repetition is greedy. It ends at the first uncommitted failure of an
//! iteration, when the upper bound is reached, or after an iteration that
//! consumed nothing. A committed failure inside an iteration ends it with
//! that failure. An iteration after the first is the separator followed by
//! the element, so a failure of the element behind a separator that consumed
//! something is committed.

use crate::combinators::operator::is_final;
use crate::parse_error::{ParseError, ParseErrorView};
use crate::parse_result::{ParseResult, SpecResult};
use crate::parse_state::ParseState;
use crate::parser::Parser;
use crate::text::{decimal, push_decimal, push_text};
use vstd::prelude::*;

verus! {

/// The separator of a repetition that has none: it matches the empty input.
pub struct NoSeparator {}

/// The parser made by the methods of [`RepeatCombinators`].
pub struct Repeat<P, S> {
    /// The element.
    pub parser: P,
    /// What stands between two elements.
    pub separator: S,
    /// The least number of elements.
    pub min: usize,
    /// The greatest number of elements, if there is one.
    pub max: Option<usize>,
}

impl<I> Parser<I> for NoSeparator {
    type Output = ();

    open spec fn wf(&self) -> bool {
        true
    }

    open spec fn outcome(&self, input: Seq<I>, offset: nat, r: SpecResult<()>) -> bool {
        r == (SpecResult::Success { value: (), length: 0 })
    }

    proof fn lemma_consumption(&self, input: Seq<I>, offset: nat, r: SpecResult<()>) {
    }

    fn run(&self, state: &ParseState<I>) -> (r: ParseResult<()>) {
        ParseResult::Success { value: (), length: 0 }
    }
}

/// The error of a repetition that found `found` elements where `min` are wanted.
pub open spec fn repeat_error(offset: nat, length: nat, min: nat, found: nat) -> ParseErrorView {
    ParseErrorView::Mismatch {
        offset,
        length,
        message: "expect repeat at least "@ + decimal(min) + " times, found "@ + decimal(found)
            + " times"@,
    }
}

/// `r` is an outcome of the iteration that follows `done` others, at `pos`:
/// of the element for the first iteration, of the separator followed by the
/// element for the others.
pub open spec fn iteration<I, P: Parser<I>, S: Parser<I>>(
    rep: &Repeat<P, S>,
    input: Seq<I>,
    pos: nat,
    done: nat,
    r: SpecResult<P::Output>,
) -> bool {
    if done == 0 {
        rep.parser.outcome(input, pos, r)
    } else {
        exists|r1: SpecResult<S::Output>| #[trigger]
            rep.separator.outcome(input, pos, r1) && match r1 {
                SpecResult::Success { length: n, .. } => exists|r2: SpecResult<P::Output>| #[trigger]
                    rep.parser.outcome(input, pos + n, r2) && r == r2.committed_fallback(
                        n != 0,
                    ).add_length(n),
                SpecResult::Failure { .. } => r == r1.cast::<P::Output>(),
            }
    }
}

/// The `i`-th iteration starts at `stops[i]`, succeeds with `items[i]` and
/// ends at `stops[i + 1]`. Unless it is the last one, it consumes something.
pub open spec fn step_ok<I, P: Parser<I>, S: Parser<I>>(
    rep: &Repeat<P, S>,
    input: Seq<I>,
    items: Seq<P::Output>,
    stops: Seq<nat>,
    i: int,
) -> bool {
    &&& stops[i] <= stops[i + 1]
    &&& i + 1 < items.len() ==> stops[i] < stops[i + 1]
    &&& iteration(
        rep,
        input,
        stops[i],
        i as nat,
        SpecResult::Success { value: items[i], length: (stops[i + 1] - stops[i]) as nat },
    )
}

/// Iterations from `start` on can succeed one after the other and yield
/// `items`, the `i`-th of them running from `stops[i]` to `stops[i + 1]`.
/// Every iteration but the last consumes at least one element.
pub open spec fn repeated<I, P: Parser<I>, S: Parser<I>>(
    rep: &Repeat<P, S>,
    input: Seq<I>,
    start: nat,
    items: Seq<P::Output>,
    stops: Seq<nat>,
) -> bool {
    &&& stops.len() == items.len() + 1
    &&& stops[0] == start
    &&& forall|i: int| 0 <= i < items.len() ==> #[trigger] step_ok(rep, input, items, stops, i)
}

/// Whether the repetition goes on after iterations that ended at `stops`.
pub open spec fn goes_on<P, S>(rep: &Repeat<P, S>, stops: Seq<nat>) -> bool {
    let k = stops.len() - 1;
    &&& rep.max matches Some(m) ==> k < m
    &&& k == 0 || stops[k - 1] < stops[k]
}

/// `r` is the outcome of a repetition that ends with `items` at `pos`.
pub open spec fn finished<P, S, A>(
    rep: &Repeat<P, S>,
    start: nat,
    items: Seq<A>,
    pos: nat,
    r: SpecResult<Vec<A>>,
) -> bool {
    if items.len() >= rep.min {
        r matches SpecResult::Success { value, length } && value@ == items && length == pos - start
    } else {
        r == (SpecResult::<Vec<A>>::Failure {
            error: repeat_error(pos, (pos - start) as nat, rep.min as nat, items.len()),
            committed: false,
        })
    }
}

/// `r` is the outcome of a repetition that has yielded `items` in
/// iterations that ended at `stops`.
pub open spec fn ends<I, P: Parser<I>, S: Parser<I>>(
    rep: &Repeat<P, S>,
    input: Seq<I>,
    start: nat,
    items: Seq<P::Output>,
    stops: Seq<nat>,
    r: SpecResult<Vec<P::Output>>,
) -> bool {
    if goes_on(rep, stops) {
        exists|r1: SpecResult<P::Output>|
            {
                &&& #[trigger] iteration(rep, input, stops.last(), items.len(), r1)
                &&& r1 is Failure
                &&& if is_final(r1) {
                    r == r1.cast::<Vec<P::Output>>()
                } else {
                    finished(rep, start, items, stops.last(), r)
                }
            }
    } else {
        finished(rep, start, items, stops.last(), r)
    }
}

/// An iteration that succeeds stays within the input.
pub proof fn lemma_iteration_bounds<I, P: Parser<I>, S: Parser<I>>(
    rep: &Repeat<P, S>,
    input: Seq<I>,
    pos: nat,
    done: nat,
    r: SpecResult<P::Output>,
)
    requires
        rep.parser.wf(),
        rep.separator.wf(),
        pos <= input.len(),
        iteration(rep, input, pos, done, r),
    ensures
        r matches SpecResult::Success { length, .. } ==> pos + length <= input.len(),
{
    if done == 0 {
        rep.parser.lemma_consumption(input, pos, r);
    } else {
        let r1 = choose|r1: SpecResult<S::Output>| #[trigger]
            rep.separator.outcome(input, pos, r1) && match r1 {
                SpecResult::Success { length: n, .. } => exists|r2: SpecResult<P::Output>| #[trigger]
                    rep.parser.outcome(input, pos + n, r2) && r == r2.committed_fallback(
                        n != 0,
                    ).add_length(n),
                SpecResult::Failure { .. } => r == r1.cast::<P::Output>(),
            };
        rep.separator.lemma_consumption(input, pos, r1);
        if let SpecResult::Success { length: n, .. } = r1 {
            let r2 = choose|r2: SpecResult<P::Output>| #[trigger]
                rep.parser.outcome(input, pos + n, r2) && r == r2.committed_fallback(
                    n != 0,
                ).add_length(n);
            rep.parser.lemma_consumption(input, pos + n, r2);
        }
    }
}

/// Iterations that succeed one after the other stay within the input, and
/// all of them but the last consume something: when the `i`-th iteration
/// starts, at least `i` elements have been consumed.
pub proof fn lemma_repeated_bounds<I, P: Parser<I>, S: Parser<I>>(
    rep: &Repeat<P, S>,
    input: Seq<I>,
    start: nat,
    items: Seq<P::Output>,
    stops: Seq<nat>,
    i: int,
)
    requires
        rep.parser.wf(),
        rep.separator.wf(),
        start <= input.len(),
        repeated(rep, input, start, items, stops),
        0 <= i <= items.len(),
    ensures
        start <= stops[i] <= input.len(),
        i < items.len() ==> start + i <= stops[i],
        i > 0 ==> start + i - 1 <= stops[i],
    decreases i,
{
    if i > 0 {
        lemma_repeated_bounds(rep, input, start, items, stops, i - 1);
        assert(step_ok(rep, input, items, stops, i - 1));
        lemma_iteration_bounds(
            rep,
            input,
            stops[i - 1],
            (i - 1) as nat,
            SpecResult::Success {
                value: items[i - 1],
                length: (stops[i] - stops[i - 1]) as nat,
            },
        );
    }
}

impl<I, P: Parser<I>, S: Parser<I>> Parser<I> for Repeat<P, S> {
    type Output = Vec<P::Output>;

    open spec fn wf(&self) -> bool {
        self.parser.wf() && self.separator.wf()
    }

    open spec fn outcome(
        &self,
        input: Seq<I>,
        offset: nat,
        r: SpecResult<Vec<P::Output>>,
    ) -> bool {
        exists|items: Seq<P::Output>, stops: Seq<nat>|
            {
                &&& #[trigger] repeated(self, input, offset, items, stops)
                &&& ends(self, input, offset, items, stops, r)
            }
    }

    proof fn lemma_consumption(
        &self,
        input: Seq<I>,
        offset: nat,
        r: SpecResult<Vec<P::Output>>,
    ) {
        let (items, stops) = choose|items: Seq<P::Output>, stops: Seq<nat>|
            {
                &&& #[trigger] repeated(self, input, offset, items, stops)
                &&& ends(self, input, offset, items, stops, r)
            };
        lemma_repeated_bounds(self, input, offset, items, stops, items.len() as int);
    }

    fn run(&self, state: &ParseState<I>) -> (r: ParseResult<Vec<P::Output>>) {
        let mut items: Vec<P::Output> = Vec::new();
        let mut pos: usize = state.offset;
        let mut last: usize = 0;
        let ghost input = state.input@;
        let ghost start = state.offset as nat;
        let ghost mut stops: Seq<nat> = seq![start];
        loop
            invariant
                self.wf(),
                state.wf(),
                input == state.input@,
                start == state.offset,
                start <= pos <= input.len(),
                repeated(self, input, start, items@, stops),
                stops.last() == pos,
                items@.len() > 0 ==> stops[items@.len() - 1] + last == pos,
            decreases input.len() - pos, if last == 0 && items@.len() > 0 { 0int } else { 1int },
        {
            let reached = match self.max {
                Some(m) => items.len() >= m,
                None => false,
            };
            if reached || (items.len() > 0 && last == 0) {
                let ghost yielded = items@;
                let r = finish(self, state, items, pos);
                assert(ends(self, input, start, yielded, stops, r@));
                return r;
            }
            let here = ParseState::new(state.input, pos);
            let step = run_iteration(self, &here, items.len());
            match step {
                ParseResult::Success { value, length } => {
                    let ghost old_items = items@;
                    let ghost old_stops = stops;
                    items.push(value);
                    pos = pos + length;
                    last = length;
                    proof {
                        stops = stops.push(pos as nat);
                        assert forall|i: int| 0 <= i < items@.len() implies #[trigger] step_ok(
                            self,
                            input,
                            items@,
                            stops,
                            i,
                        ) by {
                            if i < old_items.len() {
                                assert(step_ok(self, input, old_items, old_stops, i));
                            }
                        }
                    }
                },
                ParseResult::Failure { error, committed } => {
                    let ghost yielded = items@;
                    if committed {
                        let r = ParseResult::Failure { error, committed };
                        assert(ends(self, input, start, yielded, stops, r@));
                        return r;
                    }
                    let r = finish(self, state, items, pos);
                    assert(ends(self, input, start, yielded, stops, r@));
                    return r;
                },
            }
        }
    }
}

/// Runs, at the cursor, the iteration that follows `done` others.
fn run_iteration<I, P: Parser<I>, S: Parser<I>>(
    rep: &Repeat<P, S>,
    state: &ParseState<I>,
    done: usize,
) -> (r: ParseResult<P::Output>)
    requires
        rep.parser.wf(),
        rep.separator.wf(),
        state.wf(),
    ensures
        iteration(rep, state.input@, state.offset as nat, done as nat, r@),
        r@ matches SpecResult::Success { length, .. } ==> state.offset + length
            <= state.input@.len(),
{
    if done == 0 {
        rep.parser.run(state)
    } else {
        let r1 = rep.separator.run(state);
        assert(rep.separator.outcome(state.input@, state.offset as nat, r1@));
        match r1 {
            ParseResult::Success { length: n, .. } => {
                let next = state.add_offset(n);
                let r2 = rep.parser.run(&next);
                assert(rep.parser.outcome(state.input@, state.offset as nat + n as nat, r2@));
                r2.with_committed_fallback(n != 0).with_add_length(n)
            },
            ParseResult::Failure { error, committed } => ParseResult::Failure { error, committed },
        }
    }
}

/// The outcome of a repetition that ends with `items` at `pos`.
fn finish<I, P, S, A>(rep: &Repeat<P, S>, state: &ParseState<I>, items: Vec<A>, pos: usize) -> (r:
    ParseResult<Vec<A>>)
    requires
        state.offset <= pos,
    ensures
        finished(rep, state.offset as nat, items@, pos as nat, r@),
{
    if items.len() >= rep.min {
        ParseResult::Success { value: items, length: pos - state.offset }
    } else {
        let mut message = String::new();
        push_text(&mut message, "expect repeat at least ");
        push_decimal(&mut message, rep.min);
        push_text(&mut message, " times, found ");
        push_decimal(&mut message, items.len());
        push_text(&mut message, " times");
        ParseResult::Failure {
            error: ParseError::of_mismatch(pos, pos - state.offset, message),
            committed: false,
        }
    }
}

/// Repetition, on every parser.
pub trait RepeatCombinators<I>: Parser<I> + Sized {
    /// This parser any number of times.
    fn of_many0(self) -> (r: Repeat<Self, NoSeparator>)
        ensures
            r.parser == self,
            r.min == 0,
            r.max is None,
    ;

    /// This parser once or more.
    fn of_many1(self) -> (r: Repeat<Self, NoSeparator>)
        ensures
            r.parser == self,
            r.min == 1,
            r.max is None,
    ;

    /// This parser at least `min` and at most `max` times.
    fn of_many_n_m(self, min: usize, max: usize) -> (r: Repeat<Self, NoSeparator>)
        ensures
            r.parser == self,
            r.min == min,
            r.max == Some(max),
    ;

    /// This parser exactly `count` times.
    fn of_count(self, count: usize) -> (r: Repeat<Self, NoSeparator>)
        ensures
            r.parser == self,
            r.min == count,
            r.max == Some(count),
    ;

    /// This parser any number of times, with `separator` between two elements.
    fn of_many0_sep<S: Parser<I>>(self, separator: S) -> (r: Repeat<Self, S>)
        ensures
            r.parser == self,
            r.separator == separator,
            r.min == 0,
            r.max is None,
    ;

    /// This parser once or more, with `separator` between two elements.
    fn of_many1_sep<S: Parser<I>>(self, separator: S) -> (r: Repeat<Self, S>)
        ensures
            r.parser == self,
            r.separator == separator,
            r.min == 1,
            r.max is None,
    ;

    /// This parser at least `min` and at most `max` times, with `separator`
    /// between two elements.
    fn of_many_n_m_sep<S: Parser<I>>(self, min: usize, max: usize, separator: S) -> (r: Repeat<
        Self,
        S,
    >)
        ensures
            r.parser == self,
            r.separator == separator,
            r.min == min,
            r.max == Some(max),
    ;

    /// This parser exactly `count` times, with `separator` between two elements.
    fn of_count_sep<S: Parser<I>>(self, count: usize, separator: S) -> (r: Repeat<Self, S>)
        ensures
            r.parser == self,
            r.separator == separator,
            r.min == count,
            r.max == Some(count),
    ;
}

impl<I, P: Parser<I>> RepeatCombinators<I> for P {
    fn of_many0(self) -> (r: Repeat<P, NoSeparator>) {
        Repeat { parser: self, separator: NoSeparator {  }, min: 0, max: None }
    }

    fn of_many1(self) -> (r: Repeat<P, NoSeparator>) {
        Repeat { parser: self, separator: NoSeparator {  }, min: 1, max: None }
    }

    fn of_many_n_m(self, min: usize, max: usize) -> (r: Repeat<P, NoSeparator>) {
        Repeat { parser: self, separator: NoSeparator {  }, min, max: Some(max) }
    }

    fn of_count(self, count: usize) -> (r: Repeat<P, NoSeparator>) {
        Repeat { parser: self, separator: NoSeparator {  }, min: count, max: Some(count) }
    }

    fn of_many0_sep<S: Parser<I>>(self, separator: S) -> (r: Repeat<P, S>) {
        Repeat { parser: self, separator, min: 0, max: None }
    }

    fn of_many1_sep<S: Parser<I>>(self, separator: S) -> (r: Repeat<P, S>) {
        Repeat { parser: self, separator, min: 1, max: None }
    }

    fn of_many_n_m_sep<S: Parser<I>>(self, min: usize, max: usize, separator: S) -> (r: Repeat<
        P,
        S,
    >) {
        Repeat { parser: self, separator, min, max: Some(max) }
    }

    fn of_count_sep<S: Parser<I>>(self, count: usize, separator: S) -> (r: Repeat<P, S>) {
        Repeat { parser: self, separator, min: count, max: Some(count) }
    }
}

} // verus!
