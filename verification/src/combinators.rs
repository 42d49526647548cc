//! The combinators: parsers built from other parsers.

pub mod basic;
pub mod operator;
pub mod skip;
pub mod conversion;
pub mod logging;
pub mod element;
pub mod elements;
pub mod pattern;
pub mod repeat;
pub mod chain;
