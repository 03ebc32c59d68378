//! The grammar, as functions from a text and a position to what is read there.
//!
//! A position is an index into the sequence of characters. Every function
//! that reads something returns the position just behind it.

use vstd::prelude::*;
use crate::json::error::ParseError;
use crate::json::number::{
    char_at, is_digit, lemma_number_literal, lemma_number_span_bounds, number_span,
    span_is_number,
};
use crate::json::object::{lemma_members_with_wf, members_with};
use crate::json::value::{lemma_wf_unfolds, JsonModel};

verus! {

/// What reading one value gives: the value and the position behind it.
pub type Parsed = Result<(JsonModel, int), ParseError>;

/// What reading a run of members or elements gives.
pub type ParsedMembers = Result<(Seq<(Seq<char>, JsonModel)>, int), ParseError>;

pub type ParsedItems = Result<(Seq<JsonModel>, int), ParseError>;

pub type ParsedText = Result<(Seq<char>, int), ParseError>;

/// The text holds `word` at position `i`.
pub open spec fn holds_at(s: Seq<char>, i: int, word: Seq<char>) -> bool {
    &&& 0 <= i
    &&& i + word.len() <= s.len()
    &&& s.subrange(i, i + word.len()) == word
}

pub open spec fn is_whitespace(c: char) -> bool {
    c == ' ' || c == '\t' || c == '\r' || c == '\n'
}

/// The first position from `i` on that holds no whitespace.
pub open spec fn skip_whitespace(s: Seq<char>, i: int) -> int
    decreases s.len() - i,
{
    if 0 <= i < s.len() && is_whitespace(s[i]) {
        skip_whitespace(s, i + 1)
    } else {
        i
    }
}

/// The character that stands behind a backslash for `c`, where there is one.
pub open spec fn unescape(c: char) -> Option<char> {
    if c == '"' {
        Some('"')
    } else if c == '\\' {
        Some('\\')
    } else if c == 'n' {
        Some('\n')
    } else if c == 'r' {
        Some('\r')
    } else if c == 't' {
        Some('\t')
    } else {
        None
    }
}

/// Reads the inside of a string from position `i`, which lies behind the
/// opening quote, up to and including the closing quote. `read` is what the
/// string holds so far.
pub open spec fn scan_string(s: Seq<char>, i: int, read: Seq<char>) -> ParsedText
    decreases s.len() - i,
{
    if !(0 <= i < s.len()) {
        Err(ParseError::UnterminatedString)
    } else if s[i] == '"' {
        Ok((read, i + 1))
    } else if s[i] == '\\' {
        if i + 1 >= s.len() {
            Err(ParseError::UnterminatedString)
        } else {
            match unescape(s[i + 1]) {
                Some(c) => scan_string(s, i + 2, read.push(c)),
                None => Err(ParseError::UnknownEscape(s[i + 1])),
            }
        }
    } else {
        scan_string(s, i + 1, read.push(s[i]))
    }
}

/// Reads the number at position `i`.
pub open spec fn parse_number(s: Seq<char>, i: int) -> ParsedText {
    let span = number_span(s, i);
    if 0 <= i <= span.end <= s.len() && span_is_number(span) {
        Ok((s.subrange(i, span.end), span.end))
    } else {
        Err(ParseError::InvalidNumber)
    }
}

pub open spec fn word_true() -> Seq<char> {
    seq!['t', 'r', 'u', 'e']
}

pub open spec fn word_false() -> Seq<char> {
    seq!['f', 'a', 'l', 's', 'e']
}

pub open spec fn word_null() -> Seq<char> {
    seq!['n', 'u', 'l', 'l']
}

/// Reads `true` or `false` at position `i`.
pub open spec fn parse_boolean(s: Seq<char>, i: int) -> Parsed {
    if holds_at(s, i, word_true()) {
        Ok((JsonModel::Boolean(true), i + 4))
    } else if holds_at(s, i, word_false()) {
        Ok((JsonModel::Boolean(false), i + 5))
    } else {
        Err(ParseError::InvalidBoolean)
    }
}

/// Reads `null` at position `i`.
pub open spec fn parse_null(s: Seq<char>, i: int) -> Parsed {
    if holds_at(s, i, word_null()) {
        Ok((JsonModel::Null, i + 4))
    } else {
        Err(ParseError::InvalidNull)
    }
}

/// Reads the value that starts at the first position from `i` on that holds
/// no whitespace.
///
/// Here and in the functions below, the conditions that order positions
/// always hold (see [`lemma_parse_value_advances`]); they are written out so
/// that the recursion is well founded.
pub open spec fn parse_value(s: Seq<char>, i: int) -> Parsed
    decreases s.len() - i, 2int,
{
    let start = skip_whitespace(s, i);
    if !(0 <= i <= start < s.len()) {
        Err(ParseError::UnexpectedEnd)
    } else {
        let c = s[start];
        if c == '{' {
            parse_object(s, start)
        } else if c == '[' {
            parse_array(s, start)
        } else if c == '"' {
            match scan_string(s, start + 1, Seq::empty()) {
                Ok((text, end)) => Ok((JsonModel::String(text), end)),
                Err(e) => Err(e),
            }
        } else if is_digit(c) || c == '-' {
            match parse_number(s, start) {
                Ok((text, end)) => Ok((JsonModel::Number(text), end)),
                Err(e) => Err(e),
            }
        } else if c == 't' || c == 'f' {
            parse_boolean(s, start)
        } else if c == 'n' {
            parse_null(s, start)
        } else {
            Err(ParseError::UnexpectedChar(c))
        }
    }
}

/// Reads the object whose opening brace stands at position `i`.
pub open spec fn parse_object(s: Seq<char>, i: int) -> Parsed
    decreases s.len() - i, 1int,
{
    if !(0 <= i < s.len()) {
        Err(ParseError::UnexpectedEnd)
    } else if char_at(s, skip_whitespace(s, i + 1)) == Some('}') {
        Ok((JsonModel::Object(Seq::empty()), skip_whitespace(s, i + 1) + 1))
    } else {
        match parse_members(s, i + 1, Seq::empty()) {
            Ok((members, end)) => Ok((JsonModel::Object(members), end)),
            Err(e) => Err(e),
        }
    }
}

/// Reads the members of an object from position `i`, where a key is due, up
/// to and including the closing brace. `read` holds the members read so far.
pub open spec fn parse_members(
    s: Seq<char>,
    i: int,
    read: Seq<(Seq<char>, JsonModel)>,
) -> ParsedMembers
    decreases s.len() - i, 3int,
{
    match parse_value(s, i) {
        Err(e) => Err(e),
        Ok((JsonModel::String(key), key_end)) => {
            let colon = skip_whitespace(s, key_end);
            if !(i < key_end <= colon && char_at(s, colon) == Some(':')) {
                Err(ParseError::MissingColon)
            } else {
                match parse_value(s, colon + 1) {
                    Err(e) => Err(e),
                    Ok((value, value_end)) => {
                        let members = members_with(read, key, value);
                        let next = skip_whitespace(s, value_end);
                        if colon < value_end <= next && char_at(s, next) == Some(',') {
                            parse_members(s, next + 1, members)
                        } else if char_at(s, next) == Some('}') {
                            Ok((members, next + 1))
                        } else {
                            Err(ParseError::MissingBrace)
                        }
                    },
                }
            }
        },
        Ok(_) => Err(ParseError::KeyNotString),
    }
}

/// Reads the array whose opening bracket stands at position `i`.
pub open spec fn parse_array(s: Seq<char>, i: int) -> Parsed
    decreases s.len() - i, 1int,
{
    if !(0 <= i < s.len()) {
        Err(ParseError::UnexpectedEnd)
    } else if char_at(s, skip_whitespace(s, i + 1)) == Some(']') {
        Ok((JsonModel::Array(Seq::empty()), skip_whitespace(s, i + 1) + 1))
    } else {
        match parse_items(s, i + 1, Seq::empty()) {
            Ok((items, end)) => Ok((JsonModel::Array(items), end)),
            Err(e) => Err(e),
        }
    }
}

/// Reads the elements of an array from position `i`, where a value is due,
/// up to and including the closing bracket. `read` holds the elements read
/// so far.
pub open spec fn parse_items(s: Seq<char>, i: int, read: Seq<JsonModel>) -> ParsedItems
    decreases s.len() - i, 3int,
{
    match parse_value(s, i) {
        Err(e) => Err(e),
        Ok((value, value_end)) => {
            let items = read.push(value);
            let next = skip_whitespace(s, value_end);
            if i < value_end <= next && char_at(s, next) == Some(',') {
                parse_items(s, next + 1, items)
            } else if char_at(s, next) == Some(']') {
                Ok((items, next + 1))
            } else {
                Err(ParseError::MissingBracket)
            }
        },
    }
}

/// Reads a whole text: one value, with nothing but whitespace around it.
pub open spec fn parse_document(s: Seq<char>) -> Result<JsonModel, ParseError> {
    match parse_value(s, 0) {
        Err(e) => Err(e),
        Ok((value, end)) => {
            if skip_whitespace(s, end) < s.len() {
                Err(ParseError::TrailingData)
            } else {
                Ok(value)
            }
        },
    }
}

/// Skipping whitespace moves forward, stays inside the text, ends at a
/// character that is no whitespace, and skips nothing when done again.
pub proof fn lemma_skip_whitespace(s: Seq<char>, i: int)
    requires
        0 <= i,
    ensures
        i <= skip_whitespace(s, i),
        i <= s.len() ==> skip_whitespace(s, i) <= s.len(),
        char_at(s, skip_whitespace(s, i)) matches Some(c) ==> !is_whitespace(c),
        skip_whitespace(s, skip_whitespace(s, i)) == skip_whitespace(s, i),
    decreases s.len() - i,
{
    if i < s.len() && is_whitespace(s[i]) {
        lemma_skip_whitespace(s, i + 1);
    }
}

/// Whitespace before a value does not change what is read.
pub proof fn lemma_parse_value_skips(s: Seq<char>, i: int)
    requires
        0 <= i,
    ensures
        parse_value(s, skip_whitespace(s, i)) == parse_value(s, i),
{
    lemma_skip_whitespace(s, i);
}

/// A string that is read ends behind its start and inside the text.
pub proof fn lemma_scan_string_advances(s: Seq<char>, i: int, read: Seq<char>)
    requires
        0 <= i,
    ensures
        scan_string(s, i, read) matches Ok((_, end)) ==> i < end <= s.len(),
    decreases s.len() - i,
{
    if i < s.len() && s[i] != '"' {
        if s[i] == '\\' {
            if i + 1 < s.len() && unescape(s[i + 1]) is Some {
                lemma_scan_string_advances(s, i + 2, read.push(unescape(s[i + 1])->0));
            }
        } else {
            lemma_scan_string_advances(s, i + 1, read.push(s[i]));
        }
    }
}

/// A value that is read ends behind its start and inside the text.
pub proof fn lemma_parse_value_advances(s: Seq<char>, i: int)
    requires
        0 <= i,
    ensures
        parse_value(s, i) matches Ok((_, end)) ==> i <= skip_whitespace(s, i) < end <= s.len(),
    decreases s.len() - i, 2int,
{
    let start = skip_whitespace(s, i);
    lemma_skip_whitespace(s, i);
    if start < s.len() {
        let c = s[start];
        if c == '{' {
            lemma_parse_object_advances(s, start);
        } else if c == '[' {
            lemma_parse_array_advances(s, start);
        } else if c == '"' {
            lemma_scan_string_advances(s, start + 1, Seq::empty());
        } else if is_digit(c) || c == '-' {
            lemma_number_span_bounds(s, start);
        }
    }
}

/// An object that is read ends behind its opening brace and inside the
/// text.
pub proof fn lemma_parse_object_advances(s: Seq<char>, i: int)
    requires
        0 <= i,
    ensures
        parse_object(s, i) matches Ok((_, end)) ==> i < end <= s.len(),
    decreases s.len() - i, 1int,
{
    if i < s.len() {
        lemma_skip_whitespace(s, i + 1);
        if char_at(s, skip_whitespace(s, i + 1)) != Some('}') {
            lemma_parse_members_advances(s, i + 1, Seq::empty());
        }
    }
}

/// Members that are read end behind their start and inside the text.
pub proof fn lemma_parse_members_advances(
    s: Seq<char>,
    i: int,
    read: Seq<(Seq<char>, JsonModel)>,
)
    requires
        0 <= i,
    ensures
        parse_members(s, i, read) matches Ok((_, end)) ==> i < end <= s.len(),
    decreases s.len() - i, 3int,
{
    lemma_parse_value_advances(s, i);
    match parse_value(s, i) {
        Ok((JsonModel::String(key), key_end)) => {
            let colon = skip_whitespace(s, key_end);
            lemma_skip_whitespace(s, key_end);
            if char_at(s, colon) == Some(':') {
                lemma_parse_value_advances(s, colon + 1);
                match parse_value(s, colon + 1) {
                    Ok((value, value_end)) => {
                        let next = skip_whitespace(s, value_end);
                        lemma_skip_whitespace(s, value_end);
                        if char_at(s, next) == Some(',') {
                            lemma_parse_members_advances(
                                s,
                                next + 1,
                                members_with(read, key, value),
                            );
                        }
                    },
                    Err(_) => {},
                }
            }
        },
        _ => {},
    }
}

/// An array that is read ends behind its opening bracket and inside the
/// text.
pub proof fn lemma_parse_array_advances(s: Seq<char>, i: int)
    requires
        0 <= i,
    ensures
        parse_array(s, i) matches Ok((_, end)) ==> i < end <= s.len(),
    decreases s.len() - i, 1int,
{
    if i < s.len() {
        lemma_skip_whitespace(s, i + 1);
        if char_at(s, skip_whitespace(s, i + 1)) != Some(']') {
            lemma_parse_items_advances(s, i + 1, Seq::empty());
        }
    }
}

/// Elements that are read end behind their start and inside the text.
pub proof fn lemma_parse_items_advances(s: Seq<char>, i: int, read: Seq<JsonModel>)
    requires
        0 <= i,
    ensures
        parse_items(s, i, read) matches Ok((_, end)) ==> i < end <= s.len(),
    decreases s.len() - i, 3int,
{
    lemma_parse_value_advances(s, i);
    match parse_value(s, i) {
        Ok((value, value_end)) => {
            let next = skip_whitespace(s, value_end);
            lemma_skip_whitespace(s, value_end);
            if char_at(s, next) == Some(',') {
                lemma_parse_items_advances(s, next + 1, read.push(value));
            }
        },
        Err(_) => {},
    }
}

/// A value that is read is well formed.
pub proof fn lemma_parse_value_wf(s: Seq<char>, i: int)
    requires
        0 <= i,
    ensures
        parse_value(s, i) matches Ok((value, _)) ==> value.wf(),
    decreases s.len() - i, 2int,
{
    let start = skip_whitespace(s, i);
    lemma_skip_whitespace(s, i);
    if start < s.len() {
        let c = s[start];
        if c == '{' {
            lemma_skip_whitespace(s, start + 1);
            if char_at(s, skip_whitespace(s, start + 1)) != Some('}') {
                lemma_parse_members_wf(s, start + 1, Seq::empty());
            }
        } else if c == '[' {
            lemma_skip_whitespace(s, start + 1);
            if char_at(s, skip_whitespace(s, start + 1)) != Some(']') {
                lemma_parse_items_wf(s, start + 1, Seq::empty());
            }
        } else if is_digit(c) || c == '-' {
            if span_is_number(number_span(s, start)) {
                lemma_number_literal(s, start);
            }
        }
    }
}

/// Members that are read after well-formed members with distinct keys are
/// well formed and have distinct keys.
pub proof fn lemma_parse_members_wf(s: Seq<char>, i: int, read: Seq<(Seq<char>, JsonModel)>)
    requires
        0 <= i,
        JsonModel::Object(read).wf(),
    ensures
        parse_members(s, i, read) matches Ok((members, _)) ==> JsonModel::Object(members).wf(),
    decreases s.len() - i, 3int,
{
    lemma_parse_value_advances(s, i);
    match parse_value(s, i) {
        Ok((JsonModel::String(key), key_end)) => {
            let colon = skip_whitespace(s, key_end);
            lemma_skip_whitespace(s, key_end);
            if char_at(s, colon) == Some(':') {
                lemma_parse_value_advances(s, colon + 1);
                lemma_parse_value_wf(s, colon + 1);
                match parse_value(s, colon + 1) {
                    Ok((value, value_end)) => {
                        let next = skip_whitespace(s, value_end);
                        lemma_skip_whitespace(s, value_end);
                        lemma_members_with_wf(read, key, value);
                        if char_at(s, next) == Some(',') {
                            lemma_parse_members_wf(s, next + 1, members_with(read, key, value));
                        }
                    },
                    Err(_) => {},
                }
            }
        },
        _ => {},
    }
}

/// Elements that are read after well-formed elements are well formed.
pub proof fn lemma_parse_items_wf(s: Seq<char>, i: int, read: Seq<JsonModel>)
    requires
        0 <= i,
        JsonModel::Array(read).wf(),
    ensures
        parse_items(s, i, read) matches Ok((items, _)) ==> JsonModel::Array(items).wf(),
    decreases s.len() - i, 3int,
{
    lemma_parse_value_advances(s, i);
    lemma_parse_value_wf(s, i);
    match parse_value(s, i) {
        Ok((value, value_end)) => {
            let next = skip_whitespace(s, value_end);
            lemma_skip_whitespace(s, value_end);
            let items = read.push(value);
            lemma_wf_unfolds(JsonModel::Array(read));
            lemma_wf_unfolds(JsonModel::Array(items));
            assert forall|k: int| 0 <= k < items.len() implies (#[trigger] items[k]).wf() by {
                if k < read.len() {
                    assert(items[k] == read[k]);
                }
            }
            if char_at(s, next) == Some(',') {
                lemma_parse_items_wf(s, next + 1, items);
            }
        },
        Err(_) => {},
    }
}

} // verus!
