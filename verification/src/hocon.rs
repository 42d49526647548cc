//! A HOCON-style configuration model: values, merging, resolution of
//! substitutions, lookup by dotted path, and the grammar that reads them.

pub mod value;
pub mod number;
pub mod history;
pub mod members;
pub mod merge;
pub mod lookup;
pub mod error;
pub mod resolve;
pub mod lexical;
pub mod literal;
pub mod grammar;
pub mod wellformed;
pub mod includes;
pub mod factory;
