//! What can go wrong when a configuration is loaded.

use vstd::prelude::*;

verus! {

/// What can go wrong when a configuration is loaded.
#[derive(Debug)]
pub enum ConfigError {
    /// A file to include is not there.
    FileNotFoundError,
    /// A file to include cannot be read.
    FileReadError,
    /// The grammar rejected the text; the message holds the offset and the reason.
    ParseError(String),
    /// A substitution could not be resolved.
    ResolveError(String),
}

/// The mathematical content of a [`ConfigError`].
pub enum ConfigErrorView {
    FileNotFoundError,
    FileReadError,
    ParseError(Seq<char>),
    ResolveError(Seq<char>),
}

impl View for ConfigError {
    type V = ConfigErrorView;

    open spec fn view(&self) -> ConfigErrorView {
        match self {
            ConfigError::FileNotFoundError => ConfigErrorView::FileNotFoundError,
            ConfigError::FileReadError => ConfigErrorView::FileReadError,
            ConfigError::ParseError(message) => ConfigErrorView::ParseError(message@),
            ConfigError::ResolveError(message) => ConfigErrorView::ResolveError(message@),
        }
    }
}

impl Clone for ConfigError {
    fn clone(&self) -> (r: ConfigError)
        ensures
            r@ == self@,
    {
        match self {
            ConfigError::FileNotFoundError => ConfigError::FileNotFoundError,
            ConfigError::FileReadError => ConfigError::FileReadError,
            ConfigError::ParseError(message) => ConfigError::ParseError(message.clone()),
            ConfigError::ResolveError(message) => ConfigError::ResolveError(message.clone()),
        }
    }
}

impl ConfigError {
    /// Whether two errors are of the same kind and carry the same message.
    pub fn same(&self, other: &ConfigError) -> (r: bool)
        ensures
            r == (self@ == other@),
    {
        match (self, other) {
            (ConfigError::FileNotFoundError, ConfigError::FileNotFoundError) => true,
            (ConfigError::FileReadError, ConfigError::FileReadError) => true,
            (ConfigError::ParseError(a), ConfigError::ParseError(b)) => *a == *b,
            (ConfigError::ResolveError(a), ConfigError::ResolveError(b)) => *a == *b,
            _ => false,
        }
    }
}

} // verus!
