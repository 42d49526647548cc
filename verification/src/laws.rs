//! Laws that relate the combinators to each other.
//!
//! Each law is stated over the `outcome` relation of the parsers involved, so
//! it holds of every input and every offset, whatever the parsers are.

use crate::combinators::basic::{Mapped, Successful};
use crate::combinators::chain::{link_ok, linked, ChainLeft1};
use crate::combinators::repeat::{repeated, step_ok, Repeat};
use crate::combinators::operator::{
    is_final, optional_of, recoverable, sequenced, AndThen, Attempt, Optional, OrElse,
};
use crate::combinators::skip::{first_of, second_of, SkipLeft, SkipRight};
use crate::parse_result::SpecResult;
use crate::parser::Parser;
use vstd::prelude::*;

verus! {

/// Mapping with the identity changes nothing: `map(p, x ↦ x)` and `p` have
/// the same outcomes on every input.
pub proof fn lemma_map_identity<I, P: Parser<I>, F: Fn(P::Output) -> P::Output>(
    mapped: Mapped<P, F>,
    input: Seq<I>,
    offset: nat,
    r: SpecResult<P::Output>,
)
    requires
        forall|a: P::Output, b: P::Output| #[trigger] call_ensures(mapped.f, (a,), b) <==> b == a,
    ensures
        mapped.outcome(input, offset, r) <==> mapped.parser.outcome(input, offset, r),
{
    if mapped.parser.outcome(input, offset, r) {
        match r {
            SpecResult::Success { value, length } => {
                assert(call_ensures(mapped.f, (value,), value));
            },
            SpecResult::Failure { .. } => {
                assert(r == r.cast::<P::Output>());
            },
        }
        assert(mapped.outcome(input, offset, r));
    }
    if mapped.outcome(input, offset, r) {
        let r1 = choose|r1: SpecResult<P::Output>| #[trigger]
            mapped.parser.outcome(input, offset, r1) && match r1 {
                SpecResult::Success { value: a, length: n } => r matches SpecResult::Success {
                    value: b,
                    length: m,
                } && m == n && call_ensures(mapped.f, (a,), b),
                SpecResult::Failure { .. } => r == r1.cast::<P::Output>(),
            };
        assert(r == r1);
    }
}

/// A result of `(p ⊗ q) ⊗ r` with its value regrouped as a result of `p ⊗ (q ⊗ r)`.
pub open spec fn regrouped<A, B, C>(o: SpecResult<((A, B), C)>) -> SpecResult<(A, (B, C))> {
    match o {
        SpecResult::Success { value, length } => SpecResult::Success {
            value: (value.0.0, (value.0.1, value.1)),
            length,
        },
        SpecResult::Failure { error, committed } => SpecResult::Failure { error, committed },
    }
}

/// Sequencing is associative: `(p ⊗ q) ⊗ r` and `p ⊗ (q ⊗ r)` consume the
/// same, fail alike, and produce the same three values, grouped differently.
pub proof fn lemma_and_then_associative<I, P: Parser<I>, Q: Parser<I>, R: Parser<I>>(
    p: P,
    q: Q,
    r: R,
    input: Seq<I>,
    offset: nat,
    o: SpecResult<((P::Output, Q::Output), R::Output)>,
)
    ensures
        (AndThen { first: AndThen { first: p, second: q }, second: r }).outcome(input, offset, o)
            <==> (AndThen { first: p, second: AndThen { first: q, second: r } }).outcome(
            input,
            offset,
            regrouped(o),
        ),
{
    let pq = AndThen { first: p, second: q };
    let qr = AndThen { first: q, second: r };
    let left = AndThen { first: pq, second: r };
    let right = AndThen { first: p, second: qr };
    if left.outcome(input, offset, o) {
        let o12 = and_then_first(pq, r, input, offset, o);
        let o1 = and_then_first(p, q, input, offset, o12);
        match o1 {
            SpecResult::Failure { .. } => {
                and_then_intro_failure(p, qr, input, offset, o1);
            },
            SpecResult::Success { length: n1, .. } => {
                let o2 = and_then_second(p, q, input, offset, o12, o1);
                match o2 {
                    SpecResult::Failure { .. } => {
                        and_then_intro_failure(q, r, input, offset + n1, o2);
                        and_then_intro(
                            p,
                            qr,
                            input,
                            offset,
                            o1,
                            o2.cast::<(Q::Output, R::Output)>(),
                        );
                    },
                    SpecResult::Success { length: n2, .. } => {
                        let o3 = and_then_second(pq, r, input, offset, o, o12);
                        assert(offset + (n1 + n2) == (offset + n1) + n2);
                        and_then_intro(q, r, input, offset + n1, o2, o3);
                        and_then_intro(p, qr, input, offset, o1, sequenced(o2, o3));
                    },
                }
            },
        }
        assert(right.outcome(input, offset, regrouped(o)));
    }
    if right.outcome(input, offset, regrouped(o)) {
        let o1 = and_then_first(p, qr, input, offset, regrouped(o));
        match o1 {
            SpecResult::Failure { .. } => {
                and_then_intro_failure(p, q, input, offset, o1);
                and_then_intro_failure(pq, r, input, offset, o1.cast::<(P::Output, Q::Output)>());
            },
            SpecResult::Success { length: n1, .. } => {
                let o23 = and_then_second(p, qr, input, offset, regrouped(o), o1);
                let o2 = and_then_first(q, r, input, offset + n1, o23);
                match o2 {
                    SpecResult::Failure { .. } => {
                        and_then_intro(p, q, input, offset, o1, o2);
                        and_then_intro_failure(pq, r, input, offset, sequenced(o1, o2));
                    },
                    SpecResult::Success { length: n2, .. } => {
                        let o3 = and_then_second(q, r, input, offset + n1, o23, o2);
                        assert(offset + (n1 + n2) == (offset + n1) + n2);
                        and_then_intro(p, q, input, offset, o1, o2);
                        and_then_intro(pq, r, input, offset, sequenced(o1, o2), o3);
                    },
                }
            },
        }
        assert(left.outcome(input, offset, o));
    }
}

/// An outcome of the first parser that an outcome of a sequence rests on.
proof fn and_then_first<I, P: Parser<I>, Q: Parser<I>>(
    p: P,
    q: Q,
    input: Seq<I>,
    offset: nat,
    o: SpecResult<(P::Output, Q::Output)>,
) -> (o1: SpecResult<P::Output>)
    requires
        (AndThen { first: p, second: q }).outcome(input, offset, o),
    ensures
        p.outcome(input, offset, o1),
        o1 is Failure ==> o == o1.cast::<(P::Output, Q::Output)>(),
        o1 is Success ==> exists|o2: SpecResult<Q::Output>| #[trigger]
            q.outcome(input, offset + o1->length, o2) && o == sequenced(o1, o2),
{
    let both = AndThen { first: p, second: q };
    choose|r1: SpecResult<P::Output>| #[trigger]
        both.first.outcome(input, offset, r1) && match r1 {
            SpecResult::Success { length: n, .. } => exists|r2: SpecResult<Q::Output>| #[trigger]
                both.second.outcome(input, offset + n, r2) && o == sequenced(r1, r2),
            SpecResult::Failure { .. } => o == r1.cast::<(P::Output, Q::Output)>(),
        }
}

/// An outcome of the second parser that, together with the outcome `o1` of
/// the first, gives the outcome `o` of the sequence.
proof fn and_then_second<I, P: Parser<I>, Q: Parser<I>>(
    p: P,
    q: Q,
    input: Seq<I>,
    offset: nat,
    o: SpecResult<(P::Output, Q::Output)>,
    o1: SpecResult<P::Output>,
) -> (o2: SpecResult<Q::Output>)
    requires
        o1 is Success,
        exists|o2: SpecResult<Q::Output>| #[trigger]
            q.outcome(input, offset + o1->length, o2) && o == sequenced(o1, o2),
    ensures
        q.outcome(input, offset + o1->length, o2),
        o == sequenced(o1, o2),
{
    choose|o2: SpecResult<Q::Output>| #[trigger]
        q.outcome(input, offset + o1->length, o2) && o == sequenced(o1, o2)
}

/// The outcome of a sequence whose two parsers gave `o1` and `o2`.
proof fn and_then_intro<I, P: Parser<I>, Q: Parser<I>>(
    p: P,
    q: Q,
    input: Seq<I>,
    offset: nat,
    o1: SpecResult<P::Output>,
    o2: SpecResult<Q::Output>,
)
    requires
        o1 is Success,
        p.outcome(input, offset, o1),
        q.outcome(input, offset + o1->length, o2),
    ensures
        (AndThen { first: p, second: q }).outcome(input, offset, sequenced(o1, o2)),
{
    let both = AndThen { first: p, second: q };
    assert(both.first.outcome(input, offset, o1));
    assert(both.second.outcome(input, offset + o1->length, o2));
}

/// The outcome of a sequence whose first parser failed with `o1`.
proof fn and_then_intro_failure<I, P: Parser<I>, Q: Parser<I>>(
    p: P,
    q: Q,
    input: Seq<I>,
    offset: nat,
    o1: SpecResult<P::Output>,
)
    requires
        o1 is Failure,
        p.outcome(input, offset, o1),
    ensures
        (AndThen { first: p, second: q }).outcome(
            input,
            offset,
            o1.cast::<(P::Output, Q::Output)>(),
        ),
{
    let both = AndThen { first: p, second: q };
    assert(both.first.outcome(input, offset, o1));
}

/// An alternative respects commitment, first half: where the first branch
/// can only fail committed, the alternative fails as the first branch does,
/// committed and with the same error, and the second branch plays no part.
pub proof fn lemma_or_committed<I, P: Parser<I>, Q: Parser<I, Output = P::Output>>(
    p: P,
    q: Q,
    input: Seq<I>,
    offset: nat,
    r: SpecResult<P::Output>,
)
    requires
        forall|o: SpecResult<P::Output>| #[trigger]
            p.outcome(input, offset, o) ==> is_final(o),
    ensures
        (OrElse { first: p, second: q }).outcome(input, offset, r) <==> p.outcome(input, offset, r),
        (OrElse { first: p, second: q }).outcome(input, offset, r) ==> is_final(r),
{
    let alt = OrElse { first: p, second: q };
    if p.outcome(input, offset, r) {
        assert(is_final(r));
        assert(!recoverable(r));
        assert(alt.first.outcome(input, offset, r));
        assert(alt.outcome(input, offset, r));
    }
    if alt.outcome(input, offset, r) {
        let r1 = choose|r1: SpecResult<P::Output>| #[trigger]
            alt.first.outcome(input, offset, r1) && if recoverable(r1) {
                alt.second.outcome(input, offset, r)
            } else {
                r == r1
            };
        assert(p.outcome(input, offset, r1));
        assert(is_final(r1));
        assert(p.outcome(input, offset, r));
    }
}

/// An alternative respects commitment, second half: where the first branch
/// fails uncommitted, the alternative behaves as its second branch.
pub proof fn lemma_or_uncommitted<I, P: Parser<I>, Q: Parser<I, Output = P::Output>>(
    p: P,
    q: Q,
    input: Seq<I>,
    offset: nat,
    r: SpecResult<P::Output>,
)
    requires
        exists|o: SpecResult<P::Output>| #[trigger] p.outcome(input, offset, o),
        forall|o: SpecResult<P::Output>| #[trigger]
            p.outcome(input, offset, o) ==> recoverable(o),
    ensures
        (OrElse { first: p, second: q }).outcome(input, offset, r) <==> q.outcome(input, offset, r),
{
    let alt = OrElse { first: p, second: q };
    if q.outcome(input, offset, r) {
        let o = choose|o: SpecResult<P::Output>| #[trigger] p.outcome(input, offset, o);
        assert(alt.first.outcome(input, offset, o));
        assert(alt.second.outcome(input, offset, r));
        assert(alt.outcome(input, offset, r));
    }
    if alt.outcome(input, offset, r) {
        let r1 = choose|r1: SpecResult<P::Output>| #[trigger]
            alt.first.outcome(input, offset, r1) && if recoverable(r1) {
                alt.second.outcome(input, offset, r)
            } else {
                r == r1
            };
        assert(p.outcome(input, offset, r1));
    }
}

/// `attempt` erases commitment: whenever `attempt(p)` fails, the failure is uncommitted.
pub proof fn lemma_attempt_uncommitted<I, P: Parser<I>>(
    p: P,
    input: Seq<I>,
    offset: nat,
    r: SpecResult<P::Output>,
)
    requires
        (Attempt { parser: p }).outcome(input, offset, r),
    ensures
        r matches SpecResult::Failure { committed, .. } ==> !committed,
{
}

/// Consumption accounting: what a parser reports as consumed lies within
/// the input. Whatever the parser, a success at `offset` with `length`
/// ends at `offset + length`, at or before the end of the input.
pub proof fn lemma_consumption_accounting<I, P: Parser<I>>(
    p: P,
    input: Seq<I>,
    offset: nat,
    r: SpecResult<P::Output>,
)
    requires
        p.wf(),
        offset <= input.len(),
        p.outcome(input, offset, r),
    ensures
        r matches SpecResult::Success { length, .. } ==> offset + length <= input.len(),
{
    p.lemma_consumption(input, offset, r);
}

/// No repetition takes an iteration that consumes nothing more than once:
/// of the iterations of a repetition, every one but the last consumes at
/// least one element.
pub proof fn lemma_repetition_progress<I, P: Parser<I>, S: Parser<I>>(
    rep: Repeat<P, S>,
    input: Seq<I>,
    offset: nat,
    items: Seq<P::Output>,
    stops: Seq<nat>,
    i: int,
)
    requires
        repeated(&rep, input, offset, items, stops),
        0 <= i,
        i + 1 < items.len(),
    ensures
        stops[i] < stops[i + 1],
{
    assert(step_ok(&rep, input, items, stops, i));
}

/// No chain takes a link that consumes nothing more than once: of the
/// links of a chain, every one but the last consumes at least one element.
pub proof fn lemma_chain_progress<I, P: Parser<I>, Op: Parser<I>>(
    chain: ChainLeft1<P, Op>,
    input: Seq<I>,
    accs: Seq<P::Output>,
    stops: Seq<nat>,
    i: int,
) where Op::Output: Fn(P::Output, P::Output) -> P::Output
    requires
        linked(&chain, input, accs, stops),
        1 <= i,
        i + 1 < accs.len(),
    ensures
        stops[i - 1] < stops[i],
{
    assert(link_ok(&chain, input, accs, stops, i));
}

/// `opt(p)` is `or(map(p, Some), successful(None))`: the two have the same
/// outcomes on every input, whatever functions stand for `Some` and `None`.
pub proof fn lemma_opt_is_or_of_map<
    I,
    P: Parser<I>,
    F: Fn(P::Output) -> Option<P::Output>,
    G: Fn() -> Option<P::Output>,
>(p: P, some: F, none: G, input: Seq<I>, offset: nat, r: SpecResult<Option<P::Output>>)
    requires
        forall|a: P::Output, b: Option<P::Output>| #[trigger]
            call_ensures(some, (a,), b) <==> b == Some(a),
        forall|b: Option<P::Output>| #[trigger]
            call_ensures(none, (), b) <==> b == None::<P::Output>,
    ensures
        (Optional { parser: p }).outcome(input, offset, r) <==> (OrElse {
            first: Mapped { parser: p, f: some },
            second: Successful { value: none },
        }).outcome(input, offset, r),
{
    let opt = Optional { parser: p };
    let mapped = Mapped { parser: p, f: some };
    let constant = Successful { value: none };
    let alt = OrElse { first: mapped, second: constant };
    if opt.outcome(input, offset, r) {
        let r1 = choose|r1: SpecResult<P::Output>| #[trigger]
            opt.parser.outcome(input, offset, r1) && r == optional_of(r1);
        assert(mapped.parser.outcome(input, offset, r1));
        match r1 {
            SpecResult::Success { value, length } => {
                assert(call_ensures(some, (value,), Some(value)));
                assert(mapped.outcome(input, offset, r));
                assert(alt.first.outcome(input, offset, r));
            },
            SpecResult::Failure { error, committed } => {
                let failure = r1.cast::<Option<P::Output>>();
                assert(mapped.outcome(input, offset, failure));
                assert(alt.first.outcome(input, offset, failure));
                if !committed {
                    assert(call_ensures(none, (), None::<P::Output>));
                    assert(constant.outcome(input, offset, r));
                    assert(alt.second.outcome(input, offset, r));
                }
            },
        }
        assert(alt.outcome(input, offset, r));
    }
    if alt.outcome(input, offset, r) {
        let m = choose|m: SpecResult<Option<P::Output>>| #[trigger]
            alt.first.outcome(input, offset, m) && if recoverable(m) {
                alt.second.outcome(input, offset, r)
            } else {
                r == m
            };
        assert(mapped.outcome(input, offset, m));
        let r1 = choose|r1: SpecResult<P::Output>| #[trigger]
            mapped.parser.outcome(input, offset, r1) && match r1 {
                SpecResult::Success { value: a, length: n } => m matches SpecResult::Success {
                    value: b,
                    length: k,
                } && k == n && call_ensures(mapped.f, (a,), b),
                SpecResult::Failure { .. } => m == r1.cast::<Option<P::Output>>(),
            };
        assert(opt.parser.outcome(input, offset, r1));
        assert(r == optional_of(r1));
    }
}

/// `skip_left(p, q)` is `map(and_then(p, q), (a, b) ↦ b)`: the two have the
/// same outcomes on every input.
pub proof fn lemma_skip_left_is_map<
    I,
    P: Parser<I>,
    Q: Parser<I>,
    F: Fn((P::Output, Q::Output)) -> Q::Output,
>(p: P, q: Q, second: F, input: Seq<I>, offset: nat, r: SpecResult<Q::Output>)
    requires
        forall|pair: (P::Output, Q::Output), b: Q::Output| #[trigger]
            call_ensures(second, (pair,), b) <==> b == pair.1,
    ensures
        (SkipLeft { both: AndThen { first: p, second: q } }).outcome(input, offset, r) <==> (Mapped {
            parser: AndThen { first: p, second: q },
            f: second,
        }).outcome(input, offset, r),
{
    let both = AndThen { first: p, second: q };
    let skip = SkipLeft { both };
    let mapped = Mapped { parser: both, f: second };
    if skip.outcome(input, offset, r) {
        let r0 = choose|r0: SpecResult<(P::Output, Q::Output)>| #[trigger]
            skip.both.outcome(input, offset, r0) && r == second_of(r0);
        assert(mapped.parser.outcome(input, offset, r0));
        if let SpecResult::Success { value, length } = r0 {
            assert(call_ensures(second, (value,), value.1));
        }
        assert(mapped.outcome(input, offset, r));
    }
    if mapped.outcome(input, offset, r) {
        let r0 = choose|r0: SpecResult<(P::Output, Q::Output)>| #[trigger]
            mapped.parser.outcome(input, offset, r0) && match r0 {
                SpecResult::Success { value: a, length: n } => r matches SpecResult::Success {
                    value: b,
                    length: k,
                } && k == n && call_ensures(mapped.f, (a,), b),
                SpecResult::Failure { .. } => r == r0.cast::<Q::Output>(),
            };
        assert(skip.both.outcome(input, offset, r0));
        assert(r == second_of(r0));
    }
}

/// `skip_right(p, q)` is `map(and_then(p, q), (a, b) ↦ a)`: the two have the
/// same outcomes on every input.
pub proof fn lemma_skip_right_is_map<
    I,
    P: Parser<I>,
    Q: Parser<I>,
    F: Fn((P::Output, Q::Output)) -> P::Output,
>(p: P, q: Q, first: F, input: Seq<I>, offset: nat, r: SpecResult<P::Output>)
    requires
        forall|pair: (P::Output, Q::Output), a: P::Output| #[trigger]
            call_ensures(first, (pair,), a) <==> a == pair.0,
    ensures
        (SkipRight { both: AndThen { first: p, second: q } }).outcome(input, offset, r) <==> (Mapped {
            parser: AndThen { first: p, second: q },
            f: first,
        }).outcome(input, offset, r),
{
    let both = AndThen { first: p, second: q };
    let skip = SkipRight { both };
    let mapped = Mapped { parser: both, f: first };
    if skip.outcome(input, offset, r) {
        let r0 = choose|r0: SpecResult<(P::Output, Q::Output)>| #[trigger]
            skip.both.outcome(input, offset, r0) && r == first_of(r0);
        assert(mapped.parser.outcome(input, offset, r0));
        if let SpecResult::Success { value, length } = r0 {
            assert(call_ensures(first, (value,), value.0));
        }
        assert(mapped.outcome(input, offset, r));
    }
    if mapped.outcome(input, offset, r) {
        let r0 = choose|r0: SpecResult<(P::Output, Q::Output)>| #[trigger]
            mapped.parser.outcome(input, offset, r0) && match r0 {
                SpecResult::Success { value: a, length: n } => r matches SpecResult::Success {
                    value: b,
                    length: k,
                } && k == n && call_ensures(mapped.f, (a,), b),
                SpecResult::Failure { .. } => r == r0.cast::<P::Output>(),
            };
        assert(skip.both.outcome(input, offset, r0));
        assert(r == first_of(r0));
    }
}

} // verus!
