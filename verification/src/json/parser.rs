//! The reader: a cursor over the characters of a text.

use vstd::prelude::*;
use crate::json::error::ParseError;
use crate::json::grammar;
use crate::json::grammar::{lemma_parse_value_skips, lemma_skip_whitespace};
use crate::json::number::{
    char_at, digits_end, is_digit, lemma_number_literal, number_span, span_is_number,
};
use crate::json::object::{insert_member, lemma_members_with_wf};
use crate::json::value::{
    items_model, lemma_view_unfolds, lemma_wf_unfolds, members_model, JsonModel, JsonValue,
};
use crate::text::{chars_of, push_char};

verus! {

/// A text and the position up to which it has been read.
pub struct JsonParser {
    pub chars: Vec<char>,
    pub index: usize,
}

/// Whether `c` is a space, a tab, a carriage return or a line feed.
pub fn is_whitespace(c: char) -> (r: bool)
    ensures
        r == grammar::is_whitespace(c),
{
    c == ' ' || c == '\t' || c == '\r' || c == '\n'
}

/// Whether `c` is one of the digits `0` to `9`.
pub fn is_ascii_digit(c: char) -> (r: bool)
    ensures
        r == is_digit(c),
{
    '0' <= c && c <= '9'
}

impl JsonParser {
    /// A cursor at the start of `input`.
    pub fn new(input: &str) -> (parser: Self)
        ensures
            parser.chars@ == input@,
            parser.index == 0,
    {
        JsonParser { chars: chars_of(input), index: 0 }
    }

    /// Moves the cursor to the next character that is no whitespace.
    pub fn skip_whitespace(&mut self)
        ensures
            final(self).chars == old(self).chars,
            final(self).index == grammar::skip_whitespace(
                old(self).chars@,
                old(self).index as int,
            ),
    {
        while self.index < self.chars.len() && is_whitespace(self.chars[self.index])
            invariant
                self.chars == old(self).chars,
                grammar::skip_whitespace(self.chars@, self.index as int)
                    == grammar::skip_whitespace(old(self).chars@, old(self).index as int),
            decreases self.chars.len() - self.index,
        {
            self.index += 1;
        }
    }

    /// The character under the cursor, if the text has not ended.
    pub fn peek(&self) -> (c: Option<char>)
        ensures
            c == char_at(self.chars@, self.index as int),
    {
        if self.index < self.chars.len() {
            Some(self.chars[self.index])
        } else {
            None
        }
    }

    /// The character under the cursor, which then moves behind it. At the
    /// end of the text the cursor stays where it is.
    pub fn next_char(&mut self) -> (c: Option<char>)
        ensures
            final(self).chars == old(self).chars,
            c == char_at(old(self).chars@, old(self).index as int),
            final(self).index == (if c is Some {
                old(self).index + 1
            } else {
                old(self).index as int
            }),
    {
        if self.index < self.chars.len() {
            let c = self.chars[self.index];
            self.index += 1;
            Some(c)
        } else {
            None
        }
    }

    /// Reads a string. The cursor stands on its opening quote and ends
    /// behind its closing quote.
    pub fn parse_string(&mut self) -> (r: Result<String, ParseError>)
        ensures
            final(self).chars == old(self).chars,
            match grammar::scan_string(old(self).chars@, old(self).index + 1, Seq::empty()) {
                Ok((text, end)) => r matches Ok(t) && t@ == text && final(self).index == end
                    && old(self).index < end <= old(self).chars.len(),
                Err(e) => r matches Err(f) && f == e,
            },
    {
        self.next_char();
        let mut result = String::new();
        loop
            invariant
                self.chars == old(self).chars,
                old(self).index < self.chars.len() ==> old(self).index < self.index
                    <= self.chars.len(),
                old(self).index >= self.chars.len() ==> self.index == old(self).index,
                grammar::scan_string(old(self).chars@, old(self).index + 1, Seq::empty())
                    == grammar::scan_string(self.chars@, self.index as int, result@),
            decreases self.chars.len() - self.index,
        {
            let c = match self.next_char() {
                Some(c) => c,
                None => {
                    return Err(ParseError::UnterminatedString);
                },
            };
            if c == '"' {
                return Ok(result);
            } else if c == '\\' {
                let e = match self.next_char() {
                    Some(e) => e,
                    None => {
                        return Err(ParseError::UnterminatedString);
                    },
                };
                if e == '"' {
                    push_char(&mut result, '"');
                } else if e == '\\' {
                    push_char(&mut result, '\\');
                } else if e == 'n' {
                    push_char(&mut result, '\n');
                } else if e == 'r' {
                    push_char(&mut result, '\r');
                } else if e == 't' {
                    push_char(&mut result, '\t');
                } else {
                    return Err(ParseError::UnknownEscape(e));
                }
            } else {
                push_char(&mut result, c);
            }
        }
    }

    /// Moves the cursor behind the digits under it. Returns whether there
    /// was a digit.
    fn scan_digits(&mut self) -> (any: bool)
        requires
            old(self).index <= old(self).chars.len(),
        ensures
            final(self).chars == old(self).chars,
            final(self).index == digits_end(old(self).chars@, old(self).index as int),
            old(self).index <= final(self).index <= final(self).chars.len(),
            any == (old(self).index < final(self).index),
    {
        let start = self.index;
        while self.index < self.chars.len() && is_ascii_digit(self.chars[self.index])
            invariant
                self.chars == old(self).chars,
                start == old(self).index,
                start <= self.index <= self.chars.len(),
                digits_end(self.chars@, self.index as int) == digits_end(
                    old(self).chars@,
                    old(self).index as int,
                ),
            decreases self.chars.len() - self.index,
        {
            self.index += 1;
        }
        self.index > start
    }

    /// The characters from position `from` up to the cursor, as a text.
    fn text_from(&self, from: usize) -> (text: String)
        requires
            from <= self.index <= self.chars.len(),
        ensures
            text@ == self.chars@.subrange(from as int, self.index as int),
    {
        let mut text = String::new();
        let mut i = from;
        while i < self.index
            invariant
                from <= i <= self.index <= self.chars.len(),
                text@ == self.chars@.subrange(from as int, i as int),
            decreases self.index - i,
        {
            push_char(&mut text, self.chars[i]);
            i += 1;
            assert(self.chars@.subrange(from as int, i as int) =~= self.chars@.subrange(
                from as int,
                i - 1,
            ).push(self.chars@[i - 1]));
        }
        text
    }

    /// Reads a number and returns its literal. The cursor stands on its
    /// first character and ends behind its last, also where the literal
    /// denotes no number.
    pub fn parse_number(&mut self) -> (r: Result<String, ParseError>)
        ensures
            final(self).chars == old(self).chars,
            match grammar::parse_number(old(self).chars@, old(self).index as int) {
                Ok((text, end)) => r matches Ok(t) && t@ == text && final(self).index == end
                    && old(self).index < end <= old(self).chars.len(),
                Err(e) => r matches Err(f) && f == e && final(self).index == number_span(
                    old(self).chars@,
                    old(self).index as int,
                ).end,
            },
    {
        if self.index >= self.chars.len() {
            return Err(ParseError::InvalidNumber);
        }
        let ghost s = self.chars@;
        let start = self.index;
        if self.chars[self.index] == '-' {
            self.index += 1;
        }
        let ghost whole = self.index as int;
        let whole_digits = self.scan_digits();
        let ghost point = self.index as int;
        let mut fraction_digits = false;
        if self.index < self.chars.len() && self.chars[self.index] == '.' {
            self.index += 1;
            fraction_digits = self.scan_digits();
        }
        let ghost mark = self.index as int;
        let ghost mantissa = (point - whole) + (if char_at(s, point) == Some('.') {
            mark - (point + 1)
        } else {
            0
        });
        assert(whole_digits || fraction_digits <==> mantissa >= 1);
        let is_number = if self.index < self.chars.len() && (self.chars[self.index] == 'e'
            || self.chars[self.index] == 'E') {
            self.index += 1;
            if self.index < self.chars.len() && (self.chars[self.index] == '+'
                || self.chars[self.index] == '-') {
                self.index += 1;
            }
            let exponent_digits = self.scan_digits();
            (whole_digits || fraction_digits) && exponent_digits
        } else {
            whole_digits || fraction_digits
        };
        assert(self.index == number_span(s, start as int).end);
        assert(is_number == span_is_number(number_span(s, start as int)));
        if is_number {
            Ok(self.text_from(start))
        } else {
            Err(ParseError::InvalidNumber)
        }
    }

    /// The text holds the four characters at the cursor.
    fn holds_four(&self, a: char, b: char, c: char, d: char) -> (r: bool)
        ensures
            r == grammar::holds_at(self.chars@, self.index as int, seq![a, b, c, d]),
            r ==> self.index + 4 <= self.chars.len(),
    {
        let n = self.chars.len();
        let i = self.index;
        let r = i < n && n - i >= 4 && self.chars[i] == a && self.chars[i + 1] == b && self.chars[i
            + 2] == c && self.chars[i + 3] == d;
        proof {
            let word = seq![a, b, c, d];
            if r {
                assert(self.chars@.subrange(i as int, i + 4) =~= word);
            }
            if grammar::holds_at(self.chars@, i as int, word) {
                let window = self.chars@.subrange(i as int, i + 4);
                assert(window[0] == a && window[1] == b && window[2] == c && window[3] == d);
            }
        }
        r
    }

    /// Reads `true` or `false`. The cursor ends behind the word, or stays
    /// where it is if the word is neither.
    pub fn parse_boolean(&mut self) -> (r: Result<JsonValue, ParseError>)
        ensures
            final(self).chars == old(self).chars,
            match grammar::parse_boolean(old(self).chars@, old(self).index as int) {
                Ok((value, end)) => r matches Ok(v) && v@ == value && final(self).index == end
                    && old(self).index < end <= old(self).chars.len(),
                Err(e) => r matches Err(f) && f == e && final(self).index == old(self).index,
            },
    {
        let n = self.chars.len();
        let i = self.index;
        if self.holds_four('t', 'r', 'u', 'e') {
            self.index += 4;
            Ok(JsonValue::Boolean(true))
        } else if self.holds_four('f', 'a', 'l', 's') && n - i >= 5 && self.chars[i + 4] == 'e' {
            proof {
                assert(self.chars@.subrange(i as int, i + 4) =~= self.chars@.subrange(
                    i as int,
                    i + 5,
                ).subrange(0, 4));
                assert(self.chars@.subrange(i as int, i + 5) =~= grammar::word_false());
            }
            self.index += 5;
            Ok(JsonValue::Boolean(false))
        } else {
            proof {
                if grammar::holds_at(self.chars@, i as int, grammar::word_false()) {
                    let window = self.chars@.subrange(i as int, i + 5);
                    assert(window[4] == 'e');
                    assert(self.chars@.subrange(i as int, i + 4) =~= seq!['f', 'a', 'l', 's']) by {
                        assert(window[0] == 'f' && window[1] == 'a' && window[2] == 'l'
                            && window[3] == 's');
                    }
                }
            }
            Err(ParseError::InvalidBoolean)
        }
    }

    /// Reads `null`. The cursor ends behind the word, or stays where it is
    /// if the word is another.
    pub fn parse_null(&mut self) -> (r: Result<JsonValue, ParseError>)
        ensures
            final(self).chars == old(self).chars,
            match grammar::parse_null(old(self).chars@, old(self).index as int) {
                Ok((value, end)) => r matches Ok(v) && v@ == value && final(self).index == end
                    && old(self).index < end <= old(self).chars.len(),
                Err(e) => r matches Err(f) && f == e && final(self).index == old(self).index,
            },
    {
        if self.holds_four('n', 'u', 'l', 'l') {
            self.index += 4;
            Ok(JsonValue::Null)
        } else {
            Err(ParseError::InvalidNull)
        }
    }

    /// Reads the value at the cursor, behind any whitespace. The cursor
    /// ends behind the value.
    pub fn parse_value(&mut self) -> (r: Result<JsonValue, ParseError>)
        ensures
            final(self).chars == old(self).chars,
            match grammar::parse_value(old(self).chars@, old(self).index as int) {
                Ok((value, end)) => r matches Ok(v) && v@ == value && v@.wf() && final(self).index
                    == end && old(self).index < end <= old(self).chars.len(),
                Err(e) => r matches Err(f) && f == e,
            },
        decreases old(self).chars.len() - old(self).index, 2int,
    {
        proof {
            lemma_skip_whitespace(self.chars@, self.index as int);
        }
        self.skip_whitespace();
        let c = match self.peek() {
            Some(c) => c,
            None => {
                return Err(ParseError::UnexpectedEnd);
            },
        };
        if c == '{' {
            self.parse_object()
        } else if c == '[' {
            self.parse_array()
        } else if c == '"' {
            match self.parse_string() {
                Ok(text) => Ok(JsonValue::String(text)),
                Err(e) => Err(e),
            }
        } else if is_ascii_digit(c) || c == '-' {
            proof {
                if span_is_number(number_span(self.chars@, self.index as int)) {
                    lemma_number_literal(self.chars@, self.index as int);
                }
            }
            match self.parse_number() {
                Ok(text) => Ok(JsonValue::Number(text)),
                Err(e) => Err(e),
            }
        } else if c == 't' || c == 'f' {
            self.parse_boolean()
        } else if c == 'n' {
            self.parse_null()
        } else {
            Err(ParseError::UnexpectedChar(c))
        }
    }

    /// Reads an object. The cursor stands on its opening brace and ends
    /// behind its closing brace.
    pub fn parse_object(&mut self) -> (r: Result<JsonValue, ParseError>)
        ensures
            final(self).chars == old(self).chars,
            match grammar::parse_object(old(self).chars@, old(self).index as int) {
                Ok((value, end)) => r matches Ok(v) && v@ == value && v@.wf() && final(self).index
                    == end && old(self).index < end <= old(self).chars.len(),
                Err(e) => r matches Err(f) && f == e,
            },
        decreases old(self).chars.len() - old(self).index, 1int,
    {
        if self.index >= self.chars.len() {
            return Err(ParseError::UnexpectedEnd);
        }
        let ghost s = self.chars@;
        let ghost opening = self.index as int;
        self.next_char();
        let mut object: Vec<(String, JsonValue)> = Vec::new();
        proof {
            lemma_skip_whitespace(s, opening + 1);
        }
        self.skip_whitespace();
        if self.index < self.chars.len() && self.chars[self.index] == '}' {
            self.index += 1;
            let value = JsonValue::Object(object);
            proof {
                lemma_view_unfolds(value);
                assert(members_model(object@) =~= Seq::empty());
            }
            return Ok(value);
        }
        let ghost mut due = opening + 1;
        assert(members_model(object@) =~= Seq::empty());
        loop
            invariant
                self.chars == old(self).chars,
                s == self.chars@,
                opening == old(self).index,
                opening < due <= self.index <= self.chars.len(),
                grammar::skip_whitespace(s, self.index as int) == grammar::skip_whitespace(s, due),
                JsonModel::Object(members_model(object@)).wf(),
                grammar::parse_members(s, opening + 1, Seq::empty()) == grammar::parse_members(
                    s,
                    due,
                    members_model(object@),
                ),
                !(char_at(s, grammar::skip_whitespace(s, opening + 1)) == Some('}')),
            decreases self.chars.len() - due,
        {
            proof {
                lemma_skip_whitespace(s, due);
                lemma_skip_whitespace(s, self.index as int);
                lemma_parse_value_skips(s, due);
            }
            self.skip_whitespace();
            let key = match self.parse_value() {
                Err(e) => {
                    return Err(e);
                },
                Ok(JsonValue::String(key)) => key,
                Ok(_) => {
                    return Err(ParseError::KeyNotString);
                },
            };
            proof {
                lemma_skip_whitespace(s, self.index as int);
            }
            self.skip_whitespace();
            match self.next_char() {
                Some(':') => {},
                _ => {
                    return Err(ParseError::MissingColon);
                },
            }
            let value = match self.parse_value() {
                Err(e) => {
                    return Err(e);
                },
                Ok(value) => value,
            };
            proof {
                lemma_members_with_wf(members_model(object@), key@, value@);
                lemma_skip_whitespace(s, self.index as int);
            }
            insert_member(&mut object, key, value);
            self.skip_whitespace();
            match self.next_char() {
                Some(',') => {
                    proof {
                        due = self.index as int;
                    }
                },
                Some('}') => {
                    let value = JsonValue::Object(object);
                    proof {
                        lemma_view_unfolds(value);
                    }
                    return Ok(value);
                },
                _ => {
                    return Err(ParseError::MissingBrace);
                },
            }
        }
    }

    /// Reads an array. The cursor stands on its opening bracket and ends
    /// behind its closing bracket.
    pub fn parse_array(&mut self) -> (r: Result<JsonValue, ParseError>)
        ensures
            final(self).chars == old(self).chars,
            match grammar::parse_array(old(self).chars@, old(self).index as int) {
                Ok((value, end)) => r matches Ok(v) && v@ == value && v@.wf() && final(self).index
                    == end && old(self).index < end <= old(self).chars.len(),
                Err(e) => r matches Err(f) && f == e,
            },
        decreases old(self).chars.len() - old(self).index, 1int,
    {
        if self.index >= self.chars.len() {
            return Err(ParseError::UnexpectedEnd);
        }
        let ghost s = self.chars@;
        let ghost opening = self.index as int;
        self.next_char();
        let mut array: Vec<JsonValue> = Vec::new();
        proof {
            lemma_skip_whitespace(s, opening + 1);
        }
        self.skip_whitespace();
        if self.index < self.chars.len() && self.chars[self.index] == ']' {
            self.index += 1;
            let value = JsonValue::Array(array);
            proof {
                lemma_view_unfolds(value);
                assert(items_model(array@) =~= Seq::empty());
            }
            return Ok(value);
        }
        let ghost mut due = opening + 1;
        assert(items_model(array@) =~= Seq::empty());
        loop
            invariant
                self.chars == old(self).chars,
                s == self.chars@,
                opening == old(self).index,
                opening < due <= self.index <= self.chars.len(),
                grammar::skip_whitespace(s, self.index as int) == grammar::skip_whitespace(s, due),
                JsonModel::Array(items_model(array@)).wf(),
                grammar::parse_items(s, opening + 1, Seq::empty()) == grammar::parse_items(
                    s,
                    due,
                    items_model(array@),
                ),
                !(char_at(s, grammar::skip_whitespace(s, opening + 1)) == Some(']')),
            decreases self.chars.len() - due,
        {
            proof {
                lemma_skip_whitespace(s, due);
                lemma_parse_value_skips(s, due);
                lemma_parse_value_skips(s, self.index as int);
            }
            let value = match self.parse_value() {
                Err(e) => {
                    return Err(e);
                },
                Ok(value) => value,
            };
            proof {
                lemma_skip_whitespace(s, self.index as int);
                let before = items_model(array@);
                let after = before.push(value@);
                assert(items_model(array@.push(value)) =~= after);
                lemma_wf_unfolds(JsonModel::Array(before));
                lemma_wf_unfolds(JsonModel::Array(after));
                assert forall|i: int| 0 <= i < after.len() implies (#[trigger] after[i]).wf() by {
                    if i < before.len() {
                        assert(after[i] == before[i]);
                    }
                }
            }
            array.push(value);
            self.skip_whitespace();
            match self.next_char() {
                Some(',') => {
                    proof {
                        due = self.index as int;
                    }
                },
                Some(']') => {
                    let value = JsonValue::Array(array);
                    proof {
                        lemma_view_unfolds(value);
                    }
                    return Ok(value);
                },
                _ => {
                    return Err(ParseError::MissingBracket);
                },
            }
        }
    }
}

impl JsonValue {
    /// Reads a whole text: one value, with nothing but whitespace around it.
    pub fn parse(input: &str) -> (r: Result<JsonValue, ParseError>)
        ensures
            match grammar::parse_document(input@) {
                Ok(value) => r matches Ok(v) && v@ == value && v@.wf(),
                Err(e) => r matches Err(f) && f == e,
            },
    {
        let mut parser = JsonParser::new(input);
        let value = match parser.parse_value() {
            Ok(value) => value,
            Err(e) => {
                return Err(e);
            },
        };
        parser.skip_whitespace();
        if parser.index < parser.chars.len() {
            return Err(ParseError::TrailingData);
        }
        Ok(value)
    }
}

} // verus!
