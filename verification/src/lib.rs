//! Parser combinators with an explicit commit/backtrack discipline, and a
//! HOCON-style configuration evaluator built on top of them.
//!
//! Every parser is a value whose behaviour is described by a relation between
//! the input, the offset at which it starts, and the outcome it may produce.
//! Running a parser is proved to produce an outcome admitted by that relation.
//!
//! One rule governs backtracking: an alternative tries its second branch if
//! and only if the first one failed uncommitted. A failure is committed once
//! input has been consumed before it; `attempt` makes a failure uncommitted
//! again.
//!
//! - [`parse_error`], [`parse_state`], [`parse_result`]: the data that
//!   parsers read and return.
//! - [`parser`]: what a parser is, and the driver.
//! - [`combinators`]: the primitives and the combinators.
//! - [`laws`]: what holds of the combinators taken together.
//! - [`hocon`]: configuration values, their grammar, merging, resolution
//!   and lookup.
//! - [`text`]: helpers on strings.

pub mod text;
pub mod parse_error;
pub mod parse_state;
pub mod parse_result;
pub mod parser;
pub mod combinators;
pub mod laws;
pub mod hocon;
