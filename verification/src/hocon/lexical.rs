//! The lexical layer of the grammar: blanks, comments, tokens and quoted strings.
//!
//! Every function reads the whole input and a position in it, and says
//! where what it recognises ends.

use crate::combinators::element::is_space;
use crate::parse_error::{ParseError, ParseErrorView};
use crate::text::push_text;
use vstd::prelude::*;

verus! {

/// `core::char::from_u32` gives the character with the code `i`, where `i`
/// is the code of a character: at most `0x10FFFF` and no surrogate.
pub assume_specification[ core::char::from_u32 ](i: u32) -> (r: Option<char>)
    ensures
        r == if i <= 0xD7FF || 0xE000 <= i <= 0x10FFFF {
            Some(i as char)
        } else {
            None
        },
;

/// What the grammar yields at a position: a value and the position behind it, or an error.
pub type Parsed<T> = Result<(T, int), ParseErrorView>;

/// The error that says what was expected at `offset`.
pub open spec fn expected(offset: nat, what: Seq<char>) -> ParseErrorView {
    ParseErrorView::Mismatch { offset, length: 0, message: "expected "@ + what }
}

/// The error for an input that ends where more has to follow.
pub open spec fn ended(input: Seq<char>) -> ParseErrorView {
    expected(input.len(), "more input"@)
}

/// The executable counterpart of [`ended`].
pub fn ended_error(input: &[char]) -> (r: ParseError)
    ensures
        r@ == ended(input@),
{
    expected_error(input.len(), "more input")
}

/// The executable counterpart of [`expected`].
pub fn expected_error(offset: usize, what: &str) -> (r: ParseError)
    ensures
        r@ == expected(offset as nat, what@),
{
    let mut message = String::new();
    push_text(&mut message, "expected ");
    push_text(&mut message, what);
    ParseError::of_mismatch(offset, 0, message)
}

/// `r` is the executable form of the outcome `s`.
pub open spec fn agrees<T: View>(r: Result<(T, usize), ParseError>, s: Parsed<T::V>) -> bool {
    match r {
        Ok((v, next)) => s == Ok::<(T::V, int), ParseErrorView>((v@, next as int)),
        Err(e) => s == Err::<(T::V, int), ParseErrorView>(e@),
    }
}

/// The position of the next line feed from `pos` on, or the end of the input.
pub open spec fn line_end(input: Seq<char>, pos: int) -> int
    decreases input.len() - pos,
{
    if pos < 0 || pos >= input.len() {
        input.len() as int
    } else if input[pos] == '\n' {
        pos
    } else {
        line_end(input, pos + 1)
    }
}

/// Whether a comment starts at `pos`: `#`, or `//`.
pub open spec fn comment_at(input: Seq<char>, pos: int) -> bool {
    0 <= pos < input.len() && (input[pos] == '#' || (input[pos] == '/' && pos + 1
        < input.len() && input[pos + 1] == '/'))
}

/// Whether `c` separates two members or two elements.
pub open spec fn is_separator(c: char) -> bool {
    c == ',' || c == ';'
}

/// The position behind the blanks and comments that start at `pos`; with
/// `separators`, commas and semicolons are skipped as well.
pub open spec fn skipped(input: Seq<char>, pos: int, separators: bool) -> int
    decreases input.len() - pos,
{
    if pos < 0 || pos >= input.len() {
        pos
    } else if is_space(input[pos]) || (separators && is_separator(input[pos])) {
        skipped(input, pos + 1, separators)
    } else if comment_at(input, pos) {
        let end = line_end(input, pos + 1);
        if pos < end <= input.len() {
            skipped(input, end, separators)
        } else {
            pos
        }
    } else {
        pos
    }
}

/// Whether `c` can stand in a key or in a value that is written without quotes.
pub open spec fn is_token_char(c: char) -> bool {
    !is_space(c) && c != ',' && c != ';' && c != '{' && c != '}' && c != '[' && c != ']' && c
        != '=' && c != ':' && c != '"' && c != '#' && c != '$'
}

/// The position behind the token characters that start at `pos`.
pub open spec fn token_end(input: Seq<char>, pos: int) -> int
    decreases input.len() - pos,
{
    if 0 <= pos < input.len() && is_token_char(input[pos]) {
        token_end(input, pos + 1)
    } else {
        pos
    }
}

/// The value of a hexadecimal digit.
pub open spec fn hex_value(c: char) -> Option<nat> {
    if '0' <= c <= '9' {
        Some((c as u32 - '0' as u32) as nat)
    } else if 'a' <= c <= 'f' {
        Some((c as u32 - 'a' as u32 + 10) as nat)
    } else if 'A' <= c <= 'F' {
        Some((c as u32 - 'A' as u32 + 10) as nat)
    } else {
        None
    }
}

/// The code that four hexadecimal digits from `pos` on spell.
pub open spec fn hex4(input: Seq<char>, pos: int) -> Option<nat> {
    if 0 <= pos && pos + 4 <= input.len() {
        match (
            hex_value(input[pos]),
            hex_value(input[pos + 1]),
            hex_value(input[pos + 2]),
            hex_value(input[pos + 3]),
        ) {
            (Some(a), Some(b), Some(c), Some(d)) => Some(a * 4096 + b * 256 + c * 16 + d),
            _ => None,
        }
    } else {
        None
    }
}

/// Whether `code` is the code of a character.
pub open spec fn is_scalar(code: nat) -> bool {
    code <= 0xD7FF || 0xE000 <= code <= 0x10FFFF
}

/// The character that the escape behind a backslash stands for, and how
/// many characters the escape takes; `pos` is the position behind the backslash.
pub open spec fn escape(input: Seq<char>, pos: int) -> Option<(char, int)> {
    if pos < 0 || pos >= input.len() {
        None
    } else {
        let c = input[pos];
        if c == '"' || c == '\\' || c == '/' {
            Some((c, 1))
        } else if c == 'n' {
            Some(('\n', 1))
        } else if c == 'r' {
            Some(('\r', 1))
        } else if c == 't' {
            Some(('\t', 1))
        } else if c == 'b' {
            Some(('\u{8}', 1))
        } else if c == 'f' {
            Some(('\u{c}', 1))
        } else if c == 'u' {
            match hex4(input, pos + 1) {
                Some(code) => if is_scalar(code) {
                    Some((code as char, 5))
                } else {
                    None
                },
                None => None,
            }
        } else {
            None
        }
    }
}

/// The rest of a quoted string from `pos` on, given the characters `acc`
/// that it has so far: the text of the string and the position behind its
/// closing quote.
pub open spec fn quoted_rest(input: Seq<char>, pos: int, acc: Seq<char>) -> Parsed<Seq<char>>
    decreases input.len() - pos,
{
    if pos < 0 || pos >= input.len() {
        Err(ended(input))
    } else if input[pos] == '"' {
        Ok((acc, pos + 1))
    } else if input[pos] == '\\' {
        match escape(input, pos + 1) {
            Some((c, n)) => quoted_rest(input, pos + 1 + n, acc.push(c)),
            None => Err(expected(pos as nat, "an escape sequence"@)),
        }
    } else {
        quoted_rest(input, pos + 1, acc.push(input[pos]))
    }
}

/// A quoted string at `pos`.
pub open spec fn quoted(input: Seq<char>, pos: int) -> Parsed<Seq<char>> {
    if 0 <= pos < input.len() && input[pos] == '"' {
        quoted_rest(input, pos + 1, Seq::empty())
    } else {
        Err(expected(pos as nat, "a quoted string"@))
    }
}

/// The end of a token lies within the input, at or behind the position.
pub proof fn lemma_token_end_bounds(input: Seq<char>, pos: int)
    requires
        0 <= pos <= input.len(),
    ensures
        pos <= token_end(input, pos) <= input.len(),
    decreases input.len() - pos,
{
    if pos < input.len() && is_token_char(input[pos]) {
        lemma_token_end_bounds(input, pos + 1);
    }
}

/// The executable counterpart of [`is_space`].
pub fn space_char(c: char) -> (r: bool)
    ensures
        r == is_space(c),
{
    c == ' ' || c == '\t' || c == '\r' || c == '\n'
}

/// The executable counterpart of [`is_token_char`].
pub fn token_char(c: char) -> (r: bool)
    ensures
        r == is_token_char(c),
{
    !space_char(c) && c != ',' && c != ';' && c != '{' && c != '}' && c != '[' && c != ']' && c
        != '=' && c != ':' && c != '"' && c != '#' && c != '$'
}

/// The executable counterpart of [`line_end`].
pub fn find_line_end(input: &[char], pos: usize) -> (r: usize)
    requires
        pos <= input@.len(),
    ensures
        r == line_end(input@, pos as int),
        pos <= r <= input@.len(),
{
    let mut i = pos;
    while i < input.len() && input[i] != '\n'
        invariant
            pos <= i <= input@.len(),
            line_end(input@, pos as int) == line_end(input@, i as int),
        decreases input@.len() - i,
    {
        i += 1;
    }
    i
}

/// The executable counterpart of [`skipped`].
pub fn skip(input: &[char], pos: usize, separators: bool) -> (r: usize)
    requires
        pos <= input@.len(),
    ensures
        r == skipped(input@, pos as int, separators),
        pos <= r <= input@.len(),
{
    let mut i = pos;
    loop
        invariant
            pos <= i <= input@.len(),
            skipped(input@, pos as int, separators) == skipped(input@, i as int, separators),
        decreases input@.len() - i,
    {
        if i >= input.len() {
            return i;
        }
        let c = input[i];
        if space_char(c) || (separators && (c == ',' || c == ';')) {
            i += 1;
        } else if c == '#' || (c == '/' && i + 1 < input.len() && input[i + 1] == '/') {
            i = find_line_end(input, i + 1);
        } else {
            return i;
        }
    }
}

/// The executable counterpart of [`token_end`].
pub fn find_token_end(input: &[char], pos: usize) -> (r: usize)
    requires
        pos <= input@.len(),
    ensures
        r == token_end(input@, pos as int),
        pos <= r <= input@.len(),
{
    let mut i = pos;
    while i < input.len() && token_char(input[i])
        invariant
            pos <= i <= input@.len(),
            token_end(input@, pos as int) == token_end(input@, i as int),
        decreases input@.len() - i,
    {
        i += 1;
    }
    i
}

/// The executable counterpart of [`hex_value`].
pub fn hex_digit(c: char) -> (r: Option<u32>)
    ensures
        match r {
            Some(v) => hex_value(c) == Some(v as nat) && v < 16,
            None => hex_value(c) is None,
        },
{
    if '0' <= c && c <= '9' {
        Some(c as u32 - '0' as u32)
    } else if 'a' <= c && c <= 'f' {
        Some(c as u32 - 'a' as u32 + 10)
    } else if 'A' <= c && c <= 'F' {
        Some(c as u32 - 'A' as u32 + 10)
    } else {
        None
    }
}

/// The executable counterpart of [`hex4`].
pub fn read_hex4(input: &[char], pos: usize) -> (r: Option<u32>)
    requires
        pos <= input@.len(),
    ensures
        match r {
            Some(code) => hex4(input@, pos as int) == Some(code as nat) && code <= 0xFFFF,
            None => hex4(input@, pos as int) is None,
        },
{
    if input.len() - pos < 4 {
        return None;
    }
    let a = hex_digit(input[pos]);
    let b = hex_digit(input[pos + 1]);
    let c = hex_digit(input[pos + 2]);
    let d = hex_digit(input[pos + 3]);
    match (a, b, c, d) {
        (Some(a), Some(b), Some(c), Some(d)) => Some(a * 4096 + b * 256 + c * 16 + d),
        _ => None,
    }
}

/// The executable counterpart of [`escape`].
pub fn read_escape(input: &[char], pos: usize) -> (r: Option<(char, usize)>)
    requires
        pos <= input@.len(),
    ensures
        match r {
            Some((c, n)) => escape(input@, pos as int) == Some((c, n as int)) && pos + n
                <= input@.len() && n >= 1,
            None => escape(input@, pos as int) is None,
        },
{
    if pos >= input.len() {
        return None;
    }
    let c = input[pos];
    if c == '"' || c == '\\' || c == '/' {
        Some((c, 1))
    } else if c == 'n' {
        Some(('\n', 1))
    } else if c == 'r' {
        Some(('\r', 1))
    } else if c == 't' {
        Some(('\t', 1))
    } else if c == 'b' {
        Some(('\u{8}', 1))
    } else if c == 'f' {
        Some(('\u{c}', 1))
    } else if c == 'u' {
        match read_hex4(input, pos + 1) {
            Some(code) => match core::char::from_u32(code) {
                Some(ch) => Some((ch, 5)),
                None => None,
            },
            None => None,
        }
    } else {
        None
    }
}

/// Reads a quoted string at `pos`: its text, with the escapes replaced by
/// what they stand for, and the position behind its closing quote.
pub fn read_quoted(input: &[char], pos: usize) -> (r: Result<(String, usize), ParseError>)
    requires
        pos <= input@.len(),
    ensures
        agrees(r, quoted(input@, pos as int)),
        r matches Ok((_, next)) ==> pos < next <= input@.len(),
{
    if !(pos < input.len() && input[pos] == '"') {
        return Err(expected_error(pos, "a quoted string"));
    }
    let mut text = String::new();
    let mut i = pos + 1;
    loop
        invariant
            pos < i <= input@.len(),
            quoted(input@, pos as int) == quoted_rest(input@, i as int, text@),
        decreases input@.len() - i,
    {
        if i >= input.len() {
            return Err(ended_error(input));
        }
        let c = input[i];
        if c == '"' {
            return Ok((text, i + 1));
        } else if c == '\\' {
            match read_escape(input, i + 1) {
                Some((ch, n)) => {
                    text.push(ch);
                    i = i + 1 + n;
                },
                None => {
                    return Err(expected_error(i, "an escape sequence"));
                },
            }
        } else {
            text.push(c);
            i += 1;
        }
    }
}

} // verus!
