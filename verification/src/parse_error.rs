//! The diagnostic carried by a failed parse.

use crate::text::{decimal, push_decimal, push_text};
use vstd::prelude::*;
use vstd::std_specs::cmp::PartialEqSpecImpl;

verus! {

/// Why a parser failed.
#[allow(inconsistent_fields)]
#[derive(Debug)]
pub enum ParseError {
    /// A predicate failed on input that was present.
    Mismatch { offset: usize, length: usize, message: String },
    /// A conversion function rejected a parsed value.
    Conversion { offset: usize, length: usize, message: String },
    /// The input ended in the middle of a match.
    Incomplete,
    /// A child error wrapped with the name of what was expected.
    Expect { offset: usize, inner: Box<ParseError>, message: String },
    /// An error injected by the user of the library.
    Custom { offset: usize, inner: Option<Box<ParseError>>, message: String },
}

/// The mathematical content of a [`ParseError`].
#[allow(inconsistent_fields)]
pub enum ParseErrorView {
    Mismatch { offset: nat, length: nat, message: Seq<char> },
    Conversion { offset: nat, length: nat, message: Seq<char> },
    Incomplete,
    Expect { offset: nat, inner: Box<ParseErrorView>, message: Seq<char> },
    Custom { offset: nat, inner: Option<Box<ParseErrorView>>, message: Seq<char> },
}

impl View for ParseError {
    type V = ParseErrorView;

    open spec fn view(&self) -> ParseErrorView
        decreases self,
    {
        match self {
            ParseError::Mismatch { offset, length, message } => ParseErrorView::Mismatch {
                offset: *offset as nat,
                length: *length as nat,
                message: message@,
            },
            ParseError::Conversion { offset, length, message } => ParseErrorView::Conversion {
                offset: *offset as nat,
                length: *length as nat,
                message: message@,
            },
            ParseError::Incomplete => ParseErrorView::Incomplete,
            ParseError::Expect { offset, inner, message } => ParseErrorView::Expect {
                offset: *offset as nat,
                inner: Box::new((**inner)@),
                message: message@,
            },
            ParseError::Custom { offset, inner, message } => ParseErrorView::Custom {
                offset: *offset as nat,
                inner: match inner {
                    Some(e) => Some(Box::new((**e)@)),
                    None => None,
                },
                message: message@,
            },
        }
    }
}

impl ParseErrorView {
    /// The text shown for this error.
    pub open spec fn display(self) -> Seq<char>
        decreases self,
    {
        match self {
            ParseErrorView::Incomplete => "Incomplete"@,
            ParseErrorView::Mismatch { offset, message, .. } => "Mismatch at "@ + decimal(offset)
                + ": "@ + message,
            ParseErrorView::Conversion { offset, message, .. } => "Conversion failed at "@
                + decimal(offset) + ": "@ + message,
            ParseErrorView::Expect { offset, inner, message } => message + " at "@ + decimal(
                offset,
            ) + ": "@ + inner.display(),
            ParseErrorView::Custom { offset, inner: Some(inner), message } => message + " at "@
                + decimal(offset) + ", (inner: "@ + inner.display() + ")"@,
            ParseErrorView::Custom { offset, inner: None, message } => message + " at "@
                + decimal(offset),
        }
    }
}

impl ParseError {
    pub fn is_expect(&self) -> (r: bool)
        ensures
            r == (self@ is Expect),
    {
        match self {
            ParseError::Expect { .. } => true,
            _ => false,
        }
    }

    pub fn is_custom(&self) -> (r: bool)
        ensures
            r == (self@ is Custom),
    {
        match self {
            ParseError::Custom { .. } => true,
            _ => false,
        }
    }

    pub fn is_mismatch(&self) -> (r: bool)
        ensures
            r == (self@ is Mismatch),
    {
        match self {
            ParseError::Mismatch { .. } => true,
            _ => false,
        }
    }

    pub fn is_conversion(&self) -> (r: bool)
        ensures
            r == (self@ is Conversion),
    {
        match self {
            ParseError::Conversion { .. } => true,
            _ => false,
        }
    }

    pub fn is_in_complete(&self) -> (r: bool)
        ensures
            r == (self@ is Incomplete),
    {
        match self {
            ParseError::Incomplete => true,
            _ => false,
        }
    }

    pub fn of_expect(offset: usize, inner: Box<ParseError>, message: String) -> (r: Self)
        ensures
            r@ == (ParseErrorView::Expect {
                offset: offset as nat,
                inner: Box::new((*inner)@),
                message: message@,
            }),
    {
        ParseError::Expect { offset, inner, message }
    }

    pub fn of_custom(offset: usize, inner: Option<Box<ParseError>>, message: String) -> (r: Self)
        ensures
            r@ == (ParseErrorView::Custom {
                offset: offset as nat,
                inner: match inner {
                    Some(e) => Some(Box::new((*e)@)),
                    None => None,
                },
                message: message@,
            }),
    {
        ParseError::Custom { offset, inner, message }
    }

    pub fn of_mismatch(offset: usize, length: usize, message: String) -> (r: Self)
        ensures
            r@ == (ParseErrorView::Mismatch {
                offset: offset as nat,
                length: length as nat,
                message: message@,
            }),
    {
        ParseError::Mismatch { offset, length, message }
    }

    pub fn of_conversion(offset: usize, length: usize, message: String) -> (r: Self)
        ensures
            r@ == (ParseErrorView::Conversion {
                offset: offset as nat,
                length: length as nat,
                message: message@,
            }),
    {
        ParseError::Conversion { offset, length, message }
    }

    pub fn of_in_complete() -> (r: Self)
        ensures
            r@ == ParseErrorView::Incomplete,
    {
        ParseError::Incomplete
    }

    /// Appends the text of this error to `out`.
    pub fn write_to(&self, out: &mut String)
        ensures
            final(out)@ == old(out)@ + self@.display(),
        decreases self,
    {
        match self {
            ParseError::Incomplete => {
                push_text(out, "Incomplete");
            },
            ParseError::Mismatch { offset, message, .. } => {
                push_text(out, "Mismatch at ");
                push_decimal(out, *offset);
                push_text(out, ": ");
                push_text(out, message.as_str());
            },
            ParseError::Conversion { offset, message, .. } => {
                push_text(out, "Conversion failed at ");
                push_decimal(out, *offset);
                push_text(out, ": ");
                push_text(out, message.as_str());
            },
            ParseError::Expect { offset, inner, message } => {
                push_text(out, message.as_str());
                push_text(out, " at ");
                push_decimal(out, *offset);
                push_text(out, ": ");
                inner.write_to(out);
            },
            ParseError::Custom { offset, inner: Some(inner), message } => {
                push_text(out, message.as_str());
                push_text(out, " at ");
                push_decimal(out, *offset);
                push_text(out, ", (inner: ");
                inner.write_to(out);
                push_text(out, ")");
            },
            ParseError::Custom { offset, inner: None, message } => {
                push_text(out, message.as_str());
                push_text(out, " at ");
                push_decimal(out, *offset);
            },
        }
    }

    /// The text shown for this error.
    pub fn to_string(&self) -> (r: String)
        ensures
            r@ == self@.display(),
    {
        let mut out = String::new();
        self.write_to(&mut out);
        out
    }
}

impl Clone for ParseError {
    fn clone(&self) -> (r: ParseError)
        ensures
            r@ == self@,
        decreases self,
    {
        match self {
            ParseError::Mismatch { offset, length, message } => ParseError::Mismatch {
                offset: *offset,
                length: *length,
                message: message.clone(),
            },
            ParseError::Conversion { offset, length, message } => ParseError::Conversion {
                offset: *offset,
                length: *length,
                message: message.clone(),
            },
            ParseError::Incomplete => ParseError::Incomplete,
            ParseError::Expect { offset, inner, message } => ParseError::Expect {
                offset: *offset,
                inner: Box::new((**inner).clone()),
                message: message.clone(),
            },
            ParseError::Custom { offset, inner, message } => ParseError::Custom {
                offset: *offset,
                inner: match inner {
                    Some(e) => Some(Box::new((**e).clone())),
                    None => None,
                },
                message: message.clone(),
            },
        }
    }
}

impl PartialEq for ParseError {
    fn eq(&self, other: &ParseError) -> (r: bool)
        decreases self,
    {
        match (self, other) {
            (
                ParseError::Mismatch { offset: o1, length: l1, message: m1 },
                ParseError::Mismatch { offset: o2, length: l2, message: m2 },
            ) => *o1 == *o2 && *l1 == *l2 && *m1 == *m2,
            (
                ParseError::Conversion { offset: o1, length: l1, message: m1 },
                ParseError::Conversion { offset: o2, length: l2, message: m2 },
            ) => *o1 == *o2 && *l1 == *l2 && *m1 == *m2,
            (ParseError::Incomplete, ParseError::Incomplete) => true,
            (
                ParseError::Expect { offset: o1, inner: i1, message: m1 },
                ParseError::Expect { offset: o2, inner: i2, message: m2 },
            ) => *o1 == *o2 && *m1 == *m2 && (**i1).eq(&**i2),
            (
                ParseError::Custom { offset: o1, inner: i1, message: m1 },
                ParseError::Custom { offset: o2, inner: i2, message: m2 },
            ) => *o1 == *o2 && *m1 == *m2 && match (i1, i2) {
                (Some(e1), Some(e2)) => (**e1).eq(&**e2),
                (None, None) => true,
                _ => false,
            },
            _ => false,
        }
    }
}

impl PartialEqSpecImpl for ParseError {
    open spec fn obeys_eq_spec() -> bool {
        true
    }

    open spec fn eq_spec(&self, other: &ParseError) -> bool {
        self@ == other@
    }
}

} // verus!
