//! The outcome of running a parser once.

use crate::parse_error::{ParseError, ParseErrorView};
use vstd::prelude::*;

verus! {

/// What a parser returns: a value and the number of elements it consumed, or
/// an error and whether the failure is final for an enclosing alternative.
#[derive(Debug)]
pub enum ParseResult<A> {
    Success { value: A, length: usize },
    Failure { error: ParseError, committed: bool },
}

/// The mathematical content of a [`ParseResult`].
pub enum SpecResult<A> {
    Success { value: A, length: nat },
    Failure { error: ParseErrorView, committed: bool },
}

impl<A> View for ParseResult<A> {
    type V = SpecResult<A>;

    open spec fn view(&self) -> SpecResult<A> {
        match self {
            ParseResult::Success { value, length } => SpecResult::Success {
                value: *value,
                length: *length as nat,
            },
            ParseResult::Failure { error, committed } => SpecResult::Failure {
                error: error@,
                committed: *committed,
            },
        }
    }
}

impl<A> SpecResult<A> {
    /// The same outcome, uncommitted where it is a failure.
    pub open spec fn uncommitted(self) -> SpecResult<A> {
        match self {
            SpecResult::Success { .. } => self,
            SpecResult::Failure { error, .. } => SpecResult::Failure { error, committed: false },
        }
    }

    /// The same outcome, committed where it is a failure and `fallback` holds.
    pub open spec fn committed_fallback(self, fallback: bool) -> SpecResult<A> {
        match self {
            SpecResult::Success { .. } => self,
            SpecResult::Failure { error, committed } => SpecResult::Failure {
                error,
                committed: committed || fallback,
            },
        }
    }

    /// The same outcome, `n` elements longer where it is a success.
    pub open spec fn add_length(self, n: nat) -> SpecResult<A> {
        match self {
            SpecResult::Success { value, length } => SpecResult::Success {
                value,
                length: length + n,
            },
            SpecResult::Failure { .. } => self,
        }
    }

    /// A failure carried over to another value type.
    pub open spec fn cast<B>(self) -> SpecResult<B>
        recommends
            self is Failure,
    {
        SpecResult::Failure { error: self->error, committed: self->committed }
    }

    /// The outcome as seen by the caller of the top-level driver.
    pub open spec fn to_result(self) -> Result<A, ParseErrorView> {
        match self {
            SpecResult::Success { value, .. } => Ok(value),
            SpecResult::Failure { error, .. } => Err(error),
        }
    }
}

impl<A> ParseResult<A> {
    pub fn successful(value: A, length: usize) -> (r: Self)
        ensures
            r@ == (SpecResult::Success { value, length: length as nat }),
    {
        ParseResult::Success { value, length }
    }

    pub fn failed(error: ParseError, committed: bool) -> (r: Self)
        ensures
            r@ == (SpecResult::<A>::Failure { error: error@, committed }),
    {
        ParseResult::Failure { error, committed }
    }

    pub fn failed_with_uncommitted(error: ParseError) -> (r: Self)
        ensures
            r@ == (SpecResult::<A>::Failure { error: error@, committed: false }),
    {
        ParseResult::Failure { error, committed: false }
    }

    pub fn failed_with_commit(error: ParseError) -> (r: Self)
        ensures
            r@ == (SpecResult::<A>::Failure { error: error@, committed: true }),
    {
        ParseResult::Failure { error, committed: true }
    }

    pub fn is_success(&self) -> (r: bool)
        ensures
            r == (self@ is Success),
    {
        match self {
            ParseResult::Success { .. } => true,
            ParseResult::Failure { .. } => false,
        }
    }

    pub fn is_failure(&self) -> (r: bool)
        ensures
            r == (self@ is Failure),
    {
        match self {
            ParseResult::Success { .. } => false,
            ParseResult::Failure { .. } => true,
        }
    }

    /// Whether this is a failure that an enclosing alternative must not recover from.
    pub fn is_committed(&self) -> (r: bool)
        ensures
            r == (self@ matches SpecResult::Failure { committed, .. } && committed),
    {
        match self {
            ParseResult::Success { .. } => false,
            ParseResult::Failure { committed, .. } => *committed,
        }
    }

    /// The value and nothing else of a success; the error and nothing else of a failure.
    pub fn to_result(self) -> (r: Result<A, ParseError>)
        ensures
            match r {
                Ok(value) => self@.to_result() == Ok::<A, ParseErrorView>(value),
                Err(error) => self@.to_result() == Err::<A, ParseErrorView>(error@),
            },
    {
        match self {
            ParseResult::Success { value, .. } => Ok(value),
            ParseResult::Failure { error, .. } => Err(error),
        }
    }

    /// The value of a success.
    pub fn success(self) -> (r: Option<A>)
        ensures
            r == match self@ {
                SpecResult::Success { value, .. } => Some(value),
                SpecResult::Failure { .. } => None,
            },
    {
        match self {
            ParseResult::Success { value, .. } => Some(value),
            ParseResult::Failure { .. } => None,
        }
    }

    /// The error of a failure.
    pub fn failure(self) -> (r: Option<ParseError>)
        ensures
            match r {
                Some(error) => self@ is Failure && self@->error == error@,
                None => self@ is Success,
            },
    {
        match self {
            ParseResult::Success { .. } => None,
            ParseResult::Failure { error, .. } => Some(error),
        }
    }

    /// Makes a failure uncommitted.
    pub fn with_uncommitted(self) -> (r: Self)
        ensures
            r@ == self@.uncommitted(),
    {
        match self {
            ParseResult::Failure { error, .. } => ParseResult::Failure { error, committed: false },
            other => other,
        }
    }

    /// Makes a failure committed where `fallback` holds.
    pub fn with_committed_fallback(self, fallback: bool) -> (r: Self)
        ensures
            r@ == self@.committed_fallback(fallback),
    {
        match self {
            ParseResult::Failure { error, committed } => ParseResult::Failure {
                error,
                committed: committed || fallback,
            },
            other => other,
        }
    }

    /// Adds `n` to the consumed length of a success.
    pub fn with_add_length(self, n: usize) -> (r: Self)
        requires
            self@ is Success ==> self@->length + n <= usize::MAX,
        ensures
            r@ == self@.add_length(n as nat),
    {
        match self {
            ParseResult::Success { value, length } => ParseResult::Success {
                value,
                length: length + n,
            },
            other => other,
        }
    }
}

} // verus!
