//! Values that are written without quotes: booleans, `null`, numbers,
//! durations and plain strings.

use crate::combinators::element::is_digit;
use crate::hocon::number::{decimal_of, ConfigNumberValue};
use crate::hocon::value::{ConfigValue, TimeUnit, ValueView};
use crate::parse_error::{ParseError, ParseErrorView};
use crate::text::{chars_of, push_text, string_of};
use vstd::prelude::*;
use vstd::slice::slice_subrange;

verus! {

/// The position behind the digits of `t` that start at `pos`.
pub open spec fn digits_end(t: Seq<char>, pos: int) -> int
    decreases t.len() - pos,
{
    if 0 <= pos < t.len() && is_digit(t[pos]) {
        digits_end(t, pos + 1)
    } else {
        pos
    }
}

/// The number that the first `n` characters of `t`, all digits, spell in base ten.
pub open spec fn digits_value(t: Seq<char>, n: int) -> nat
    decreases n,
{
    if n <= 0 {
        0
    } else {
        digits_value(t, n - 1) * 10 + (t[n - 1] as u32 - '0' as u32) as nat
    }
}

/// Whether `t` is a decimal number: an optional sign, digits and, optionally,
/// a point followed by digits.
pub open spec fn is_decimal_text(t: Seq<char>) -> bool {
    let start: int = if t.len() > 0 && (t[0] == '-' || t[0] == '+') {
        1
    } else {
        0
    };
    let whole = digits_end(t, start);
    &&& whole > start
    &&& whole == t.len() || (t[whole] == '.' && whole + 1 < t.len() && digits_end(t, whole + 1)
        == t.len())
}

/// The unit that `t` names.
pub open spec fn unit_of(t: Seq<char>) -> Option<TimeUnit> {
    if t == "ns"@ {
        Some(TimeUnit::Nanosecond)
    } else if t == "us"@ || t == "\u{b5}s"@ {
        Some(TimeUnit::Microsecond)
    } else if t == "ms"@ {
        Some(TimeUnit::Millisecond)
    } else if t == "s"@ {
        Some(TimeUnit::Second)
    } else if t == "m"@ {
        Some(TimeUnit::Minute)
    } else if t == "h"@ {
        Some(TimeUnit::Hour)
    } else if t == "d"@ {
        Some(TimeUnit::Day)
    } else {
        None
    }
}

/// Whether `t` is a duration: digits followed by a unit.
pub open spec fn is_duration_text(t: Seq<char>) -> bool {
    digits_end(t, 0) > 0 && unit_of(t.skip(digits_end(t, 0))) is Some
}

/// The error for a number or a duration at `offset` that is too large to be held.
pub open spec fn out_of_range(offset: nat, length: nat) -> ParseErrorView {
    ParseErrorView::Conversion { offset, length, message: "number out of range"@ }
}

/// The value that the token `t`, found at `offset`, stands for.
pub open spec fn literal(t: Seq<char>, offset: nat) -> Result<ValueView, ParseErrorView> {
    if t == "true"@ || t == "yes"@ || t == "on"@ {
        Ok(ValueView::Bool(true))
    } else if t == "false"@ || t == "no"@ || t == "off"@ {
        Ok(ValueView::Bool(false))
    } else if t == "null"@ {
        Ok(ValueView::Null)
    } else if is_decimal_text(t) {
        match decimal_of(t) {
            Some((mantissa, scale)) => Ok(
                ValueView::Number { mantissa: mantissa as int, scale: scale as nat },
            ),
            None => Err(out_of_range(offset, t.len())),
        }
    } else if is_duration_text(t) {
        let k = digits_end(t, 0);
        if digits_value(t, k) <= u64::MAX {
            Ok(ValueView::Duration { magnitude: digits_value(t, k), unit: unit_of(t.skip(k))->0 })
        } else {
            Err(out_of_range(offset, t.len()))
        }
    } else {
        Ok(ValueView::String(t))
    }
}

/// The digits of a token end within it.
pub proof fn lemma_digits_end_bounds(t: Seq<char>, pos: int)
    requires
        0 <= pos <= t.len(),
    ensures
        pos <= digits_end(t, pos) <= t.len(),
        forall|i: int| pos <= i < digits_end(t, pos) ==> is_digit(#[trigger] t[i]),
    decreases t.len() - pos,
{
    if pos < t.len() && is_digit(t[pos]) {
        lemma_digits_end_bounds(t, pos + 1);
    }
}

/// More digits never spell a smaller number.
pub proof fn lemma_digits_value_grows(t: Seq<char>, n: int, m: int)
    requires
        0 <= n <= m <= t.len(),
        forall|i: int| 0 <= i < m ==> is_digit(#[trigger] t[i]),
    ensures
        digits_value(t, n) <= digits_value(t, m),
    decreases m - n,
{
    if n < m {
        lemma_digits_value_grows(t, n, m - 1);
        assert(is_digit(t[m - 1]));
    }
}

/// Whether the characters of `t` are those of `word`.
pub fn is_word(t: &[char], word: &str) -> (r: bool)
    ensures
        r == (t@ == word@),
{
    let chars = chars_of(word);
    if chars.len() != t.len() {
        return false;
    }
    let mut i: usize = 0;
    while i < t.len()
        invariant
            i <= t@.len(),
            chars@ == word@,
            chars@.len() == t@.len(),
            forall|j: int| 0 <= j < i ==> chars@[j] == t@[j],
        decreases t@.len() - i,
    {
        if chars[i] != t[i] {
            return false;
        }
        i += 1;
    }
    assert(t@ =~= chars@);
    true
}

/// The executable counterpart of [`digits_end`].
pub fn find_digits_end(t: &[char], pos: usize) -> (r: usize)
    requires
        pos <= t@.len(),
    ensures
        r == digits_end(t@, pos as int),
        pos <= r <= t@.len(),
{
    let mut i = pos;
    while i < t.len() && '0' <= t[i] && t[i] <= '9'
        invariant
            pos <= i <= t@.len(),
            digits_end(t@, pos as int) == digits_end(t@, i as int),
        decreases t@.len() - i,
    {
        i += 1;
    }
    i
}

/// The executable counterpart of [`is_decimal_text`].
pub fn decimal_text(t: &[char]) -> (r: bool)
    ensures
        r == is_decimal_text(t@),
{
    let start: usize = if t.len() > 0 && (t[0] == '-' || t[0] == '+') {
        1
    } else {
        0
    };
    let whole = find_digits_end(t, start);
    if whole <= start {
        return false;
    }
    if whole == t.len() {
        return true;
    }
    if t[whole] == '.' && whole + 1 < t.len() {
        find_digits_end(t, whole + 1) == t.len()
    } else {
        false
    }
}

/// The executable counterpart of [`unit_of`].
pub fn read_unit(t: &[char]) -> (r: Option<TimeUnit>)
    ensures
        r == unit_of(t@),
{
    if is_word(t, "ns") {
        Some(TimeUnit::Nanosecond)
    } else if is_word(t, "us") || is_word(t, "\u{b5}s") {
        Some(TimeUnit::Microsecond)
    } else if is_word(t, "ms") {
        Some(TimeUnit::Millisecond)
    } else if is_word(t, "s") {
        Some(TimeUnit::Second)
    } else if is_word(t, "m") {
        Some(TimeUnit::Minute)
    } else if is_word(t, "h") {
        Some(TimeUnit::Hour)
    } else if is_word(t, "d") {
        Some(TimeUnit::Day)
    } else {
        None
    }
}

/// The number that the first `n` characters of `t`, all digits, spell,
/// where it fits into a `u64`.
pub fn read_digits(t: &[char], n: usize) -> (r: Option<u64>)
    requires
        n <= t@.len(),
        forall|i: int| 0 <= i < n ==> is_digit(#[trigger] t@[i]),
    ensures
        match r {
            Some(v) => v == digits_value(t@, n as int),
            None => digits_value(t@, n as int) > u64::MAX,
        },
{
    let mut acc: u64 = 0;
    let mut i: usize = 0;
    while i < n
        invariant
            i <= n <= t@.len(),
            forall|j: int| 0 <= j < n ==> is_digit(#[trigger] t@[j]),
            acc == digits_value(t@, i as int),
        decreases n - i,
    {
        assert(is_digit(t@[i as int]));
        let d: u64 = (t[i] as u32 - '0' as u32) as u64;
        if acc > (u64::MAX - d) / 10 {
            proof {
                assert(digits_value(t@, i + 1) > u64::MAX);
                lemma_digits_value_grows(t@, i + 1, n as int);
            }
            return None;
        }
        acc = acc * 10 + d;
        i += 1;
    }
    Some(acc)
}

/// The error for a number or a duration that is too large to be held.
fn out_of_range_error(offset: usize, length: usize) -> (r: ParseError)
    ensures
        r@ == out_of_range(offset as nat, length as nat),
{
    let mut message = String::new();
    push_text(&mut message, "number out of range");
    ParseError::of_conversion(offset, length, message)
}

/// The value that the token `t`, found at `offset`, stands for.
pub fn read_literal(t: &[char], offset: usize) -> (r: Result<ConfigValue, ParseError>)
    ensures
        match r {
            Ok(v) => literal(t@, offset as nat) == Ok::<ValueView, ParseErrorView>(v@),
            Err(e) => literal(t@, offset as nat) == Err::<ValueView, ParseErrorView>(e@),
        },
{
    if is_word(t, "true") || is_word(t, "yes") || is_word(t, "on") {
        Ok(ConfigValue::Bool(true))
    } else if is_word(t, "false") || is_word(t, "no") || is_word(t, "off") {
        Ok(ConfigValue::Bool(false))
    } else if is_word(t, "null") {
        Ok(ConfigValue::Null)
    } else if decimal_text(t) {
        let text = string_of(t);
        match ConfigNumberValue::try_new(text.as_str()) {
            Some(n) => Ok(ConfigValue::Number(n)),
            None => Err(out_of_range_error(offset, t.len())),
        }
    } else {
        let k = find_digits_end(t, 0);
        let unit = read_unit(slice_subrange(t, k, t.len()));
        match unit {
            Some(unit) => {
                if k > 0 {
                    proof {
                        lemma_digits_end_bounds(t@, 0);
                    }
                    match read_digits(t, k) {
                        Some(magnitude) => Ok(ConfigValue::Duration { magnitude, unit }),
                        None => Err(out_of_range_error(offset, t.len())),
                    }
                } else {
                    Ok(ConfigValue::String(string_of(t)))
                }
            },
            None => Ok(ConfigValue::String(string_of(t))),
        }
    }
}

} // verus!
