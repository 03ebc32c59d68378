//! The writer: the one text that stands for a value.

use vstd::prelude::*;
use vstd::string::StringExecFns;
use crate::json::grammar::{word_false, word_null, word_true};
use crate::json::value::{items_model, lemma_view_unfolds, members_model, JsonModel, JsonValue};
use crate::text::push_char;

verus! {

/// How one character of a string is written: a quote, a backslash, a line
/// feed, a carriage return and a tab get a backslash before them or their
/// letter, every other character stands for itself.
pub open spec fn escape_char(c: char) -> Seq<char> {
    if c == '"' {
        seq!['\\', '"']
    } else if c == '\\' {
        seq!['\\', '\\']
    } else if c == '\n' {
        seq!['\\', 'n']
    } else if c == '\r' {
        seq!['\\', 'r']
    } else if c == '\t' {
        seq!['\\', 't']
    } else {
        seq![c]
    }
}

/// How the inside of a string is written: each character escaped, in order.
pub open spec fn escape(text: Seq<char>) -> Seq<char>
    decreases text.len(),
{
    if text.len() == 0 {
        Seq::empty()
    } else {
        escape(text.drop_last()) + escape_char(text.last())
    }
}

/// A string between its quotes.
pub open spec fn quoted(text: Seq<char>) -> Seq<char> {
    seq!['"'] + escape(text) + seq!['"']
}

/// The text that stands for `value`: an object as its members between
/// braces, an array as its elements between brackets, a string between
/// quotes, a number as its literal.
pub open spec fn render(value: JsonModel) -> Seq<char>
    decreases value, 0int,
{
    match value {
        JsonModel::Object(members) => seq!['{'] + render_members(members, members.len() as int)
            + seq!['}'],
        JsonModel::Array(items) => seq!['['] + render_items(items, items.len() as int) + seq![']'],
        JsonModel::String(text) => quoted(text),
        JsonModel::Number(text) => text,
        JsonModel::Boolean(b) => if b {
            word_true()
        } else {
            word_false()
        },
        JsonModel::Null => word_null(),
    }
}

/// The first `n` elements of an array, in order, with a comma between
/// neighbours.
pub open spec fn render_items(items: Seq<JsonModel>, n: int) -> Seq<char>
    decreases items, n,
{
    if n <= 0 || n > items.len() {
        Seq::empty()
    } else if n == 1 {
        render(items[0])
    } else {
        render_items(items, n - 1) + seq![','] + render(items[n - 1])
    }
}

/// One member of an object: its quoted key, a colon and its value.
pub open spec fn render_member(members: Seq<(Seq<char>, JsonModel)>, k: int) -> Seq<char>
    decreases members, 0int,
{
    if 0 <= k < members.len() {
        quoted(members[k].0) + seq![':'] + render(members[k].1)
    } else {
        Seq::empty()
    }
}

/// The first `n` members of an object, in order, with a comma between
/// neighbours.
pub open spec fn render_members(members: Seq<(Seq<char>, JsonModel)>, n: int) -> Seq<char>
    decreases members, n,
{
    if n <= 0 || n > members.len() {
        Seq::empty()
    } else if n == 1 {
        render_member(members, 0)
    } else {
        render_members(members, n - 1) + seq![','] + render_member(members, n - 1)
    }
}

/// Adds the escaped form of `c` to `out`.
fn push_escaped(out: &mut String, c: char)
    ensures
        final(out)@ == old(out)@ + escape_char(c),
{
    if c == '"' {
        push_char(out, '\\');
        push_char(out, '"');
    } else if c == '\\' {
        push_char(out, '\\');
        push_char(out, '\\');
    } else if c == '\n' {
        push_char(out, '\\');
        push_char(out, 'n');
    } else if c == '\r' {
        push_char(out, '\\');
        push_char(out, 'r');
    } else if c == '\t' {
        push_char(out, '\\');
        push_char(out, 't');
    } else {
        push_char(out, c);
    }
    assert(out@ =~= old(out)@ + escape_char(c));
}

/// The inside of a string as it is written between the quotes.
pub fn escape_string(text: &str) -> (escaped: String)
    ensures
        escaped@ == escape(text@),
{
    broadcast use vstd::string::group_string_axioms;

    let mut escaped = String::new();
    for c in it: text.chars()
        invariant
            it.seq() == text@,
            escaped@ == escape(text@.take(it.index() as int)),
    {
        proof {
            let k = it.index() as int;
            assert(text@.take(k + 1).drop_last() =~= text@.take(k));
        }
        push_escaped(&mut escaped, c);
    }
    assert(text@.take(text@.len() as int) =~= text@);
    escaped
}

/// Adds `text` between quotes to `out`.
fn push_quoted(out: &mut String, text: &str)
    ensures
        final(out)@ == old(out)@ + quoted(text@),
{
    push_char(out, '"');
    let escaped = escape_string(text);
    out.append(escaped.as_str());
    push_char(out, '"');
    assert(out@ =~= old(out)@ + quoted(text@));
}

impl JsonValue {
    /// The text that stands for this value.
    pub fn to_json_string(&self) -> (text: String)
        ensures
            text@ == render(self@),
        decreases self,
    {
        proof {
            lemma_view_unfolds(*self);
        }
        match self {
            JsonValue::Object(members) => {
                let mut out = String::new();
                push_char(&mut out, '{');
                let ghost model = members_model(members@);
                for i in 0..members.len()
                    invariant
                        *self == JsonValue::Object(*members),
                        model == members_model(members@),
                        out@ == seq!['{'] + render_members(model, i as int),
                {
                    if i > 0 {
                        push_char(&mut out, ',');
                    }
                    push_quoted(&mut out, members[i].0.as_str());
                    push_char(&mut out, ':');
                    assert(decreases_to!(*self => self->Object_0[i as int].1));
                    let value = members[i].1.to_json_string();
                    out.append(value.as_str());
                    assert(render_member(model, i as int) == quoted(model[i as int].0) + seq![':']
                        + render(model[i as int].1));
                    assert(out@ =~= seq!['{'] + render_members(model, i + 1));
                }
                push_char(&mut out, '}');
                out
            },
            JsonValue::Array(items) => {
                let mut out = String::new();
                push_char(&mut out, '[');
                let ghost model = items_model(items@);
                for i in 0..items.len()
                    invariant
                        *self == JsonValue::Array(*items),
                        model == items_model(items@),
                        out@ == seq!['['] + render_items(model, i as int),
                {
                    if i > 0 {
                        push_char(&mut out, ',');
                    }
                    assert(decreases_to!(*self => self->Array_0[i as int]));
                    let value = items[i].to_json_string();
                    out.append(value.as_str());
                    assert(out@ =~= seq!['['] + render_items(model, i + 1));
                }
                push_char(&mut out, ']');
                out
            },
            JsonValue::String(text) => {
                let mut out = String::new();
                push_quoted(&mut out, text.as_str());
                assert(out@ =~= quoted(text@));
                out
            },
            JsonValue::Number(text) => text.clone(),
            JsonValue::Boolean(b) => {
                proof {
                    reveal_strlit("true");
                    reveal_strlit("false");
                }
                if *b {
                    let out = String::from_str("true");
                    assert(out@ =~= word_true());
                    out
                } else {
                    let out = String::from_str("false");
                    assert(out@ =~= word_false());
                    out
                }
            },
            JsonValue::Null => {
                proof {
                    reveal_strlit("null");
                }
                let out = String::from_str("null");
                assert(out@ =~= word_null());
                out
            },
        }
    }
}

} // verus!
