//! The grammar of configuration documents.
//!
//! A document is either a run of objects in braces, or the members of one
//! object written without the outer braces. Members are separated by
//! commas, semicolons or line ends; a key is bound to its value by `=` or
//! `:`, or stands directly before an object. A key written without quotes
//! is a path: `a.b = v` is `a { b = v }`. A key that is declared again is
//! redeclared, so the object always holds the effective value of each key.
//! The directive `include "file"` stands where a member can stand; it is
//! kept as a member of its own until the file is spliced in.

use crate::hocon::lexical::{
    agrees, ended, ended_error, expected, expected_error, find_token_end, is_token_char, lemma_token_end_bounds,
    quoted, read_quoted, skip, skipped, token_char, token_end, Parsed,
};
use crate::hocon::literal::{is_word, literal, read_literal};
use crate::hocon::lookup::{dot_index, first_dot};
use crate::hocon::members::{distinct_keys, lemma_member_views_push};
use crate::hocon::wellformed::{lemma_array_wf, lemma_declared_wf, lemma_object_wf};
use crate::hocon::merge::{declare, declared};
use crate::hocon::value::{
    lemma_array_view, lemma_object_view, member_views, views, ConfigValue, Members, ValueView,
};
use crate::parse_error::{ParseError, ParseErrorView};
use crate::text::{push_text, string_of};
use vstd::prelude::*;
use vstd::slice::slice_subrange;

verus! {

/// The position of the next closing brace from `pos` on, or the end of the input.
pub open spec fn brace_end(input: Seq<char>, pos: int) -> int
    decreases input.len() - pos,
{
    if pos < 0 || pos >= input.len() {
        input.len() as int
    } else if input[pos] == '}' {
        pos
    } else {
        brace_end(input, pos + 1)
    }
}

/// A substitution at `pos`: `${path}`, or `${?path}` for the optional form.
pub open spec fn substitution(input: Seq<char>, pos: int) -> Parsed<ValueView> {
    if 0 <= pos && pos + 1 < input.len() && input[pos] == '$' && input[pos + 1] == '{' {
        let optional = pos + 2 < input.len() && input[pos + 2] == '?';
        let start = if optional {
            pos + 3
        } else {
            pos + 2
        };
        let end = brace_end(input, start);
        if end >= input.len() {
            Err(ended(input))
        } else {
            Ok(
                (
                    ValueView::Reference {
                        prev: None,
                        path: input.subrange(start, end),
                        missing: optional,
                    },
                    end + 1,
                ),
            )
        }
    } else {
        Err(expected(pos as nat, "a substitution"@))
    }
}

/// The member that a key written as the path `path` declares with `value`:
/// the first part of the path is the key, and the rest wraps the value in objects.
pub open spec fn path_member(path: Seq<char>, value: ValueView) -> (Seq<char>, ValueView)
    decreases path.len(),
{
    let dot = dot_index(path, 0);
    if 0 <= dot < path.len() {
        (path.take(dot), ValueView::Object(seq![path_member(path.skip(dot + 1), value)]))
    } else {
        (path, value)
    }
}

/// The key under which the directive that names the file `name` is held
/// until the file is spliced in.
pub open spec fn directive_key(name: Seq<char>) -> Seq<char> {
    "include "@ + name
}

/// Whether the directive that names a file to be spliced in stands at `pos`:
/// the word `include`, followed by a quoted string.
pub open spec fn directive_at(input: Seq<char>, pos: int) -> bool {
    let end = token_end(input, pos);
    let name = skipped(input, end, false);
    &&& 0 <= pos <= end <= input.len()
    &&& input.subrange(pos, end) == "include"@
    &&& 0 <= name < input.len()
    &&& input[name] == '"'
}

/// The value at `pos`.
pub open spec fn value_at(input: Seq<char>, pos: int) -> Parsed<ValueView>
    decreases input.len() - pos, 0nat,
{
    if pos < 0 || pos >= input.len() {
        Err(ended(input))
    } else if input[pos] == '{' {
        members_rest(input, pos + 1, Seq::empty(), true)
    } else if input[pos] == '[' {
        array_rest(input, pos + 1, Seq::empty())
    } else if input[pos] == '"' {
        match quoted(input, pos) {
            Ok((text, next)) => Ok((ValueView::String(text), next)),
            Err(e) => Err(e),
        }
    } else if input[pos] == '$' {
        substitution(input, pos)
    } else if is_token_char(input[pos]) {
        let end = token_end(input, pos);
        match literal(input.subrange(pos, end), pos as nat) {
            Ok(v) => Ok((v, end)),
            Err(e) => Err(e),
        }
    } else {
        Err(expected(pos as nat, "a value"@))
    }
}

/// The rest of an array from `pos` on, given the elements `acc` that it has so far.
pub open spec fn array_rest(input: Seq<char>, pos: int, acc: Seq<ValueView>) -> Parsed<ValueView>
    decreases input.len() - pos, 3nat,
{
    if pos < 0 || pos > input.len() {
        Err(ended(input))
    } else {
        let p = skipped(input, pos, true);
        if p < pos || p >= input.len() {
            Err(ended(input))
        } else if input[p] == ']' {
            Ok((ValueView::Array(acc), p + 1))
        } else {
            match value_at(input, p) {
                Ok((v, next)) => if p < next <= input.len() {
                    array_rest(input, next, acc.push(v))
                } else {
                    Err(ended(input))
                },
                Err(e) => Err(e),
            }
        }
    }
}

/// The rest of the members of an object from `pos` on, given the members
/// `acc` that it has so far. With `closing`, the object ends at its closing
/// brace; without, at the end of the input.
pub open spec fn members_rest(input: Seq<char>, pos: int, acc: Members, closing: bool) -> Parsed<
    ValueView,
>
    decreases input.len() - pos, 3nat,
{
    if pos < 0 || pos > input.len() {
        Err(ended(input))
    } else {
        let p = skipped(input, pos, true);
        if p < pos {
            Err(ended(input))
        } else if p >= input.len() {
            if closing {
                Err(ended(input))
            } else {
                Ok((ValueView::Object(acc), p))
            }
        } else if input[p] == '}' {
            if closing {
                Ok((ValueView::Object(acc), p + 1))
            } else {
                Err(expected(p as nat, "a key"@))
            }
        } else {
            match member_at(input, p) {
                Ok((member, next)) => if p < next <= input.len() {
                    members_rest(input, next, declared(acc, member.0, member.1), closing)
                } else {
                    Err(ended(input))
                },
                Err(e) => Err(e),
            }
        }
    }
}

/// The value of the member whose key ends at `after_key`, with `pos` the
/// position of the key: what a `=` or a `:` binds, or the object that
/// stands directly behind the key.
pub open spec fn bound_value(input: Seq<char>, pos: int, after_key: int) -> Parsed<ValueView>
    decreases input.len() - pos, 1nat,
{
    let q = skipped(input, after_key, false);
    if q <= pos || q >= input.len() {
        Err(ended(input))
    } else if input[q] == '=' || input[q] == ':' {
        let start = skipped(input, q + 1, false);
        if pos < start <= input.len() {
            value_at(input, start)
        } else {
            Err(ended(input))
        }
    } else if input[q] == '{' {
        value_at(input, q)
    } else {
        Err(expected(q as nat, "'=', ':' or '{'"@))
    }
}

/// The member at `pos`: its key and its value.
pub open spec fn member_at(input: Seq<char>, pos: int) -> Parsed<(Seq<char>, ValueView)>
    decreases input.len() - pos, 2nat,
{
    if pos < 0 || pos >= input.len() {
        Err(ended(input))
    } else if directive_at(input, pos) {
        match quoted(input, skipped(input, token_end(input, pos), false)) {
            Ok((name, next)) => Ok(((directive_key(name), ValueView::Include(name)), next)),
            Err(e) => Err(e),
        }
    } else if input[pos] == '"' {
        match quoted(input, pos) {
            Ok((key, after_key)) => match bound_value(input, pos, after_key) {
                Ok((v, next)) => Ok(((key, v), next)),
                Err(e) => Err(e),
            },
            Err(e) => Err(e),
        }
    } else {
        let after_key = token_end(input, pos);
        if after_key <= pos || after_key > input.len() {
            Err(expected(pos as nat, "a key"@))
        } else {
            match bound_value(input, pos, after_key) {
                Ok((v, next)) => Ok((path_member(input.subrange(pos, after_key), v), next)),
                Err(e) => Err(e),
            }
        }
    }
}

/// The objects of a document that is a run of objects in braces, from the
/// opening brace at `pos` on, given the objects `acc` that it has so far.
pub open spec fn objects_rest(input: Seq<char>, pos: int, acc: Seq<ValueView>) -> Result<
    Seq<ValueView>,
    ParseErrorView,
>
    decreases input.len() - pos,
{
    match value_at(input, pos) {
        Ok((v, next)) => {
            let p = skipped(input, next, true);
            if p >= input.len() {
                Ok(acc.push(v))
            } else if input[p] == '{' && pos < p {
                objects_rest(input, p, acc.push(v))
            } else {
                Err(expected(p as nat, "the end of the input"@))
            }
        },
        Err(e) => Err(e),
    }
}

/// The top-level values of the document `input`.
pub open spec fn document(input: Seq<char>) -> Result<Seq<ValueView>, ParseErrorView> {
    let p = skipped(input, 0, true);
    if 0 <= p < input.len() && input[p] == '{' {
        objects_rest(input, p, Seq::empty())
    } else {
        match members_rest(input, p, Seq::empty(), false) {
            Ok((v, _)) => Ok(seq![v]),
            Err(e) => Err(e),
        }
    }
}

/// The member that a path declares with a well-formed value has a well-formed value.
pub proof fn lemma_path_member_wf(path: Seq<char>, value: ValueView)
    requires
        value.wf(),
    ensures
        path_member(path, value).1.wf(),
    decreases path.len(),
{
    let dot = dot_index(path, 0);
    if 0 <= dot < path.len() {
        lemma_path_member_wf(path.skip(dot + 1), value);
        lemma_object_wf(seq![path_member(path.skip(dot + 1), value)]);
    }
}

/// A value that the grammar reads is well-formed.
pub proof fn lemma_value_at_wf(input: Seq<char>, pos: int)
    ensures
        value_at(input, pos) matches Ok((v, _)) ==> v.wf(),
    decreases input.len() - pos, 0nat,
{
    if 0 <= pos < input.len() {
        if input[pos] == '{' {
            lemma_members_rest_wf(input, pos + 1, Seq::empty(), true);
        } else if input[pos] == '[' {
            lemma_array_rest_wf(input, pos + 1, Seq::empty());
        }
    }
}

/// An array that the grammar reads is well-formed, given that the elements
/// that it has so far are.
pub proof fn lemma_array_rest_wf(input: Seq<char>, pos: int, acc: Seq<ValueView>)
    requires
        forall|i: int| 0 <= i < acc.len() ==> (#[trigger] acc[i]).wf(),
    ensures
        array_rest(input, pos, acc) matches Ok((v, _)) ==> v.wf(),
    decreases input.len() - pos, 3nat,
{
    if 0 <= pos <= input.len() {
        let p = skipped(input, pos, true);
        if pos <= p < input.len() {
            if input[p] == ']' {
                lemma_array_wf(acc);
            } else {
                lemma_value_at_wf(input, p);
                if let Ok((v, next)) = value_at(input, p) {
                    if p < next <= input.len() {
                        lemma_array_rest_wf(input, next, acc.push(v));
                    }
                }
            }
        }
    }
}

/// An object that the grammar reads is well-formed, given that the members
/// that it has so far have distinct keys and well-formed values.
pub proof fn lemma_members_rest_wf(input: Seq<char>, pos: int, acc: Members, closing: bool)
    requires
        distinct_keys(acc),
        forall|i: int| 0 <= i < acc.len() ==> (#[trigger] acc[i]).1.wf(),
    ensures
        members_rest(input, pos, acc, closing) matches Ok((v, _)) ==> v.wf(),
    decreases input.len() - pos, 3nat,
{
    lemma_object_wf(acc);
    if 0 <= pos <= input.len() {
        let p = skipped(input, pos, true);
        if pos <= p < input.len() && input[p] != '}' {
            lemma_member_at_wf(input, p);
            if let Ok((member, next)) = member_at(input, p) {
                if p < next <= input.len() {
                    lemma_declared_wf(acc, member.0, member.1);
                    lemma_members_rest_wf(
                        input,
                        next,
                        declared(acc, member.0, member.1),
                        closing,
                    );
                }
            }
        }
    }
}

/// The value that a key is bound to is well-formed.
pub proof fn lemma_bound_value_wf(input: Seq<char>, pos: int, after_key: int)
    ensures
        bound_value(input, pos, after_key) matches Ok((v, _)) ==> v.wf(),
    decreases input.len() - pos, 1nat,
{
    let q = skipped(input, after_key, false);
    if pos < q < input.len() {
        if input[q] == '=' || input[q] == ':' {
            let start = skipped(input, q + 1, false);
            if pos < start <= input.len() {
                lemma_value_at_wf(input, start);
            }
        } else if input[q] == '{' {
            lemma_value_at_wf(input, q);
        }
    }
}

/// A member that the grammar reads has a well-formed value.
pub proof fn lemma_member_at_wf(input: Seq<char>, pos: int)
    ensures
        member_at(input, pos) matches Ok((member, _)) ==> member.1.wf(),
    decreases input.len() - pos, 2nat,
{
    if 0 <= pos < input.len() && !directive_at(input, pos) {
        if input[pos] == '"' {
            if let Ok((key, after_key)) = quoted(input, pos) {
                lemma_bound_value_wf(input, pos, after_key);
            }
        } else {
            let after_key = token_end(input, pos);
            if pos < after_key <= input.len() {
                lemma_bound_value_wf(input, pos, after_key);
                if let Ok((v, next)) = bound_value(input, pos, after_key) {
                    lemma_path_member_wf(input.subrange(pos, after_key), v);
                }
            }
        }
    }
}

/// The objects of a document in braces are well-formed, and there is at least one.
pub proof fn lemma_objects_rest_wf(input: Seq<char>, pos: int, acc: Seq<ValueView>)
    requires
        forall|i: int| 0 <= i < acc.len() ==> (#[trigger] acc[i]).wf(),
    ensures
        objects_rest(input, pos, acc) matches Ok(values) ==> values.len() >= 1 && forall|i: int|
            0 <= i < values.len() ==> (#[trigger] values[i]).wf(),
    decreases input.len() - pos,
{
    lemma_value_at_wf(input, pos);
    if let Ok((v, next)) = value_at(input, pos) {
        let p = skipped(input, next, true);
        if p < input.len() && input[p] == '{' && pos < p {
            lemma_objects_rest_wf(input, p, acc.push(v));
        }
    }
}

/// The top-level values of a document are well-formed, and there is at least one.
pub proof fn lemma_document_wf(input: Seq<char>)
    ensures
        document(input) matches Ok(values) ==> values.len() >= 1 && forall|i: int|
            0 <= i < values.len() ==> (#[trigger] values[i]).wf(),
{
    let p = skipped(input, 0, true);
    if 0 <= p < input.len() && input[p] == '{' {
        lemma_objects_rest_wf(input, p, Seq::empty());
    } else {
        lemma_members_rest_wf(input, p, Seq::empty(), false);
    }
}

/// The executable counterpart of [`brace_end`].
fn find_brace_end(input: &[char], pos: usize) -> (r: usize)
    requires
        pos <= input@.len(),
    ensures
        r == brace_end(input@, pos as int),
        pos <= r <= input@.len(),
{
    let mut i = pos;
    while i < input.len() && input[i] != '}'
        invariant
            pos <= i <= input@.len(),
            brace_end(input@, pos as int) == brace_end(input@, i as int),
        decreases input@.len() - i,
    {
        i += 1;
    }
    i
}

/// Reads the substitution at `pos`.
fn read_substitution(input: &[char], pos: usize) -> (r: Result<(ConfigValue, usize), ParseError>)
    requires
        pos < input@.len(),
    ensures
        agrees(r, substitution(input@, pos as int)),
        r matches Ok((_, next)) ==> pos < next <= input@.len(),
{
    if !(input.len() - pos > 1 && input[pos] == '$' && input[pos + 1] == '{') {
        return Err(expected_error(pos, "a substitution"));
    }
    let optional = input.len() - pos > 2 && input[pos + 2] == '?';
    let start = if optional {
        pos + 3
    } else {
        pos + 2
    };
    let end = find_brace_end(input, start);
    if end >= input.len() {
        return Err(ended_error(input));
    }
    let path = string_of(slice_subrange(input, start, end));
    Ok((ConfigValue::of_reference(None, path, optional), end + 1))
}

/// The member that a key written as the path `path` declares with `value`.
fn read_path_member(path: &[char], value: ConfigValue) -> (r: (String, ConfigValue))
    ensures
        (r.0@, r.1@) == path_member(path@, value@),
    decreases path@.len(),
{
    let dot = first_dot(path);
    if dot < path.len() {
        let key = string_of(slice_subrange(path, 0, dot));
        let inner = read_path_member(slice_subrange(path, dot + 1, path.len()), value);
        let mut members: Vec<(String, ConfigValue)> = Vec::new();
        proof {
            lemma_member_views_push(members@, inner);
            assert(member_views(members@) =~= Seq::<(Seq<char>, ValueView)>::empty());
        }
        members.push(inner);
        assert(member_views(members@) =~= seq![(inner.0@, inner.1@)]);
        (key, ConfigValue::of_object(members))
    } else {
        (string_of(path), value)
    }
}

/// Reads the value at `pos`.
pub fn read_value(input: &[char], pos: usize) -> (r: Result<(ConfigValue, usize), ParseError>)
    requires
        pos <= input@.len(),
    ensures
        agrees(r, value_at(input@, pos as int)),
        r matches Ok((v, next)) ==> pos < next <= input@.len() && v@.wf(),
    decreases input@.len() - pos, 0nat,
{
    proof {
        lemma_value_at_wf(input@, pos as int);
    }
    if pos >= input.len() {
        return Err(ended_error(input));
    }
    let c = input[pos];
    if c == '{' {
        read_members(input, pos + 1, true)
    } else if c == '[' {
        read_array(input, pos + 1)
    } else if c == '"' {
        match read_quoted(input, pos) {
            Ok((text, next)) => Ok((ConfigValue::String(text), next)),
            Err(e) => Err(e),
        }
    } else if c == '$' {
        read_substitution(input, pos)
    } else if token_char(c) {
        let end = find_token_end(input, pos);
        proof {
            lemma_token_end_bounds(input@, pos + 1);
        }
        match read_literal(slice_subrange(input, pos, end), pos) {
            Ok(v) => Ok((v, end)),
            Err(e) => Err(e),
        }
    } else {
        Err(expected_error(pos, "a value"))
    }
}

/// Reads the rest of an array whose opening bracket stands before `start`.
fn read_array(input: &[char], start: usize) -> (r: Result<(ConfigValue, usize), ParseError>)
    requires
        start <= input@.len(),
    ensures
        agrees(r, array_rest(input@, start as int, Seq::empty())),
        r matches Ok((_, next)) ==> start < next <= input@.len(),
    decreases input@.len() - start, 3nat,
{
    let mut items: Vec<ConfigValue> = Vec::new();
    let mut pos = start;
    assert(views(items@) =~= Seq::<ValueView>::empty());
    loop
        invariant
            start <= pos <= input@.len(),
            array_rest(input@, start as int, Seq::empty()) == array_rest(
                input@,
                pos as int,
                views(items@),
            ),
        decreases input@.len() - pos,
    {
        let p = skip(input, pos, true);
        if p >= input.len() {
            return Err(ended_error(input));
        }
        if input[p] == ']' {
            return Ok((ConfigValue::of_array(items), p + 1));
        }
        match read_value(input, p) {
            Ok((v, next)) => {
                let ghost before = items@;
                items.push(v);
                assert(views(items@) =~= views(before).push(v@));
                pos = next;
            },
            Err(e) => {
                return Err(e);
            },
        }
    }
}

/// Reads the rest of the members of an object from `start` on.
fn read_members(input: &[char], start: usize, closing: bool) -> (r: Result<
    (ConfigValue, usize),
    ParseError,
>)
    requires
        start <= input@.len(),
    ensures
        agrees(r, members_rest(input@, start as int, Seq::empty(), closing)),
        r matches Ok((_, next)) ==> start <= next <= input@.len() && (closing ==> start < next),
    decreases input@.len() - start, 3nat,
{
    let mut members: Vec<(String, ConfigValue)> = Vec::new();
    let mut pos = start;
    assert(member_views(members@) =~= Seq::<(Seq<char>, ValueView)>::empty());
    loop
        invariant
            start <= pos <= input@.len(),
            members_rest(input@, start as int, Seq::empty(), closing) == members_rest(
                input@,
                pos as int,
                member_views(members@),
                closing,
            ),
        decreases input@.len() - pos,
    {
        let p = skip(input, pos, true);
        if p >= input.len() {
            if closing {
                return Err(ended_error(input));
            } else {
                return Ok((ConfigValue::of_object(members), p));
            }
        }
        if input[p] == '}' {
            if closing {
                return Ok((ConfigValue::of_object(members), p + 1));
            } else {
                return Err(expected_error(p, "a key"));
            }
        }
        match read_member(input, p) {
            Ok((member, next)) => {
                declare(&mut members, member.0, member.1);
                pos = next;
            },
            Err(e) => {
                return Err(e);
            },
        }
    }
}

/// Reads the value of the member whose key stands at `pos` and ends at `after_key`.
fn read_bound_value(input: &[char], pos: usize, after_key: usize) -> (r: Result<
    (ConfigValue, usize),
    ParseError,
>)
    requires
        pos < after_key <= input@.len(),
    ensures
        agrees(r, bound_value(input@, pos as int, after_key as int)),
        r matches Ok((_, next)) ==> pos < next <= input@.len(),
    decreases input@.len() - pos, 1nat,
{
    let q = skip(input, after_key, false);
    if q >= input.len() {
        return Err(ended_error(input));
    }
    if input[q] == '=' || input[q] == ':' {
        let start = skip(input, q + 1, false);
        read_value(input, start)
    } else if input[q] == '{' {
        read_value(input, q)
    } else {
        Err(expected_error(q, "'=', ':' or '{'"))
    }
}

/// Reads the member at `pos`.
fn read_member(input: &[char], pos: usize) -> (r: Result<((String, ConfigValue), usize), ParseError>)
    requires
        pos < input@.len(),
    ensures
        agrees(r, member_at(input@, pos as int)),
        r matches Ok((_, next)) ==> pos < next <= input@.len(),
    decreases input@.len() - pos, 2nat,
{
    let end = find_token_end(input, pos);
    let name = skip(input, end, false);
    if is_word(slice_subrange(input, pos, end), "include") && name < input.len() && input[name]
        == '"' {
        return match read_quoted(input, name) {
            Ok((file, next)) => {
                let mut key = String::new();
                push_text(&mut key, "include ");
                push_text(&mut key, file.as_str());
                Ok(((key, ConfigValue::Include(file)), next))
            },
            Err(e) => Err(e),
        };
    }
    if input[pos] == '"' {
        match read_quoted(input, pos) {
            Ok((key, after_key)) => match read_bound_value(input, pos, after_key) {
                Ok((v, next)) => Ok(((key, v), next)),
                Err(e) => Err(e),
            },
            Err(e) => Err(e),
        }
    } else {
        if end <= pos {
            return Err(expected_error(pos, "a key"));
        }
        match read_bound_value(input, pos, end) {
            Ok((v, next)) => Ok((read_path_member(slice_subrange(input, pos, end), v), next)),
            Err(e) => Err(e),
        }
    }
}

/// Reads a document: its top-level values, in order. There is at least
/// one, and in none of them does an object have a key twice.
pub fn parse_document(input: &[char]) -> (r: Result<Vec<ConfigValue>, ParseError>)
    ensures
        match r {
            Ok(values) => document(input@) == Ok::<Seq<ValueView>, ParseErrorView>(views(values@)),
            Err(e) => document(input@) == Err::<Seq<ValueView>, ParseErrorView>(e@),
        },
        r matches Ok(values) ==> values@.len() >= 1 && forall|i: int|
            0 <= i < values@.len() ==> (#[trigger] values@[i])@.wf(),
{
    let r = read_document(input);
    proof {
        lemma_document_wf(input@);
        if r is Ok {
            let values = r->Ok_0;
            assert forall|i: int| 0 <= i < values@.len() implies (#[trigger] values@[i])@.wf() by {
                assert(views(values@)[i].wf());
            }
        }
    }
    r
}

/// Reads the top-level values of a document.
fn read_document(input: &[char]) -> (r: Result<Vec<ConfigValue>, ParseError>)
    ensures
        match r {
            Ok(values) => document(input@) == Ok::<Seq<ValueView>, ParseErrorView>(views(values@)),
            Err(e) => document(input@) == Err::<Seq<ValueView>, ParseErrorView>(e@),
        },
{
    let mut out: Vec<ConfigValue> = Vec::new();
    let first = skip(input, 0, true);
    if first < input.len() && input[first] == '{' {
        let mut pos = first;
        assert(views(out@) =~= Seq::<ValueView>::empty());
        loop
            invariant
                first <= pos < input@.len(),
                input@[pos as int] == '{',
                document(input@) == objects_rest(input@, pos as int, views(out@)),
            decreases input@.len() - pos,
        {
            match read_value(input, pos) {
                Ok((v, next)) => {
                    let ghost before = out@;
                    out.push(v);
                    assert(views(out@) =~= views(before).push(v@));
                    let p = skip(input, next, true);
                    if p >= input.len() {
                        return Ok(out);
                    }
                    if input[p] == '{' {
                        pos = p;
                    } else {
                        return Err(expected_error(p, "the end of the input"));
                    }
                },
                Err(e) => {
                    return Err(e);
                },
            }
        }
    } else {
        match read_members(input, first, false) {
            Ok((v, _)) => {
                out.push(v);
                assert(views(out@) =~= seq![v@]);
                Ok(out)
            },
            Err(e) => Err(e),
        }
    }
}

} // verus!
