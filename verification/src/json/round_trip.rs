//! Why a value is read back from its text: the steps behind the round
//! trip.

use vstd::prelude::*;
use crate::json::error::ParseError;
use crate::json::grammar::{
    holds_at, is_whitespace, parse_items, parse_members, parse_value, scan_string,
    skip_whitespace, word_true,
};
use crate::json::number::{
    char_at, is_digit, is_number_literal, lemma_number_span_window, number_stops_at,
};
use crate::json::object::{find_key, lemma_find_key, members_with};
use crate::json::render::{
    escape, escape_char, quoted, render, render_items, render_member, render_members,
};
use crate::json::value::{lemma_wf_unfolds, JsonModel};

verus! {


/// A text that holds a word holds each of its characters.
pub proof fn lemma_holds_at_char(s: Seq<char>, i: int, word: Seq<char>, k: int)
    requires
        holds_at(s, i, word),
        0 <= k < word.len(),
    ensures
        char_at(s, i + k) == Some(word[k]),
{
    assert(s.subrange(i, i + word.len())[k] == word[k]);
}

/// A text that holds a word holds each part of it.
pub proof fn lemma_holds_at_part(s: Seq<char>, i: int, word: Seq<char>, from: int, to: int)
    requires
        holds_at(s, i, word),
        0 <= from <= to <= word.len(),
    ensures
        holds_at(s, i + from, word.subrange(from, to)),
{
    assert(s.subrange(i + from, i + to) =~= s.subrange(i, i + word.len()).subrange(from, to));
}

/// A text that holds two words in a row holds the first and then the second.
pub proof fn lemma_holds_at_split(s: Seq<char>, i: int, first: Seq<char>, second: Seq<char>)
    requires
        holds_at(s, i, first + second),
    ensures
        holds_at(s, i, first),
        holds_at(s, i + first.len(), second),
{
    let word = first + second;
    lemma_holds_at_part(s, i, word, 0, first.len() as int);
    lemma_holds_at_part(s, i, word, first.len() as int, word.len() as int);
    assert(word.subrange(0, first.len() as int) =~= first);
    assert(word.subrange(first.len() as int, word.len() as int) =~= second);
}

/// Escaping goes through a text piece by piece.
pub proof fn lemma_escape_concat(a: Seq<char>, b: Seq<char>)
    ensures
        escape(a + b) == escape(a) + escape(b),
    decreases b.len(),
{
    if b.len() == 0 {
        assert(a + b =~= a);
        assert(escape(a) + escape(b) =~= escape(a));
    } else {
        assert((a + b).drop_last() =~= a + b.drop_last());
        assert((a + b).last() == b.last());
        lemma_escape_concat(a, b.drop_last());
        assert(escape(a + b) =~= escape(a) + escape(b));
    }
}

/// The escaped form of a text starts with that of its first character.
pub proof fn lemma_escape_first(text: Seq<char>)
    requires
        text.len() > 0,
    ensures
        escape(text) == escape_char(text[0]) + escape(text.drop_first()),
{
    let head = seq![text[0]];
    assert(head.drop_last() =~= Seq::<char>::empty());
    assert(escape(Seq::<char>::empty()) =~= Seq::<char>::empty());
    assert(escape(head) =~= escape_char(text[0]));
    assert(head + text.drop_first() =~= text);
    lemma_escape_concat(head, text.drop_first());
}

/// Reading what stands for a string gives the string back: the escaped
/// text and the closing quote are read as the text itself.
pub proof fn lemma_scan_escaped(s: Seq<char>, i: int, text: Seq<char>, read: Seq<char>)
    requires
        holds_at(s, i, escape(text) + seq!['"']),
    ensures
        scan_string(s, i, read) == Ok::<(Seq<char>, int), ParseError>(
            (read + text, i + escape(text).len() + 1),
        ),
    decreases text.len(),
{
    let word = escape(text) + seq!['"'];
    if text.len() == 0 {
        lemma_holds_at_char(s, i, word, 0);
        assert(read + text =~= read);
    } else {
        let c = text[0];
        let rest = text.drop_first();
        lemma_escape_first(text);
        let head = escape_char(c);
        assert(word =~= head + (escape(rest) + seq!['"']));
        lemma_holds_at_split(s, i, head, escape(rest) + seq!['"']);
        lemma_holds_at_char(s, i, head, 0);
        if head.len() == 2 {
            lemma_holds_at_char(s, i, head, 1);
        }
        lemma_scan_escaped(s, i + head.len(), rest, read.push(c));
        assert(read.push(c) + rest =~= read + text);
    }
}

/// The first `n` of `pieces`, with a comma between neighbours.
pub open spec fn join(pieces: Seq<Seq<char>>, n: int) -> Seq<char>
    decreases n,
{
    if n <= 0 || n > pieces.len() {
        Seq::empty()
    } else if n == 1 {
        pieces[0]
    } else {
        join(pieces, n - 1) + seq![','] + pieces[n - 1]
    }
}

/// Where piece `k` starts in a join.
pub open spec fn piece_offset(pieces: Seq<Seq<char>>, k: int) -> int {
    if k <= 0 {
        0
    } else {
        (join(pieces, k).len() + 1) as int
    }
}

/// A join holds each of its pieces at its offset, followed by a comma
/// unless it is the last.
pub proof fn lemma_join_piece(pieces: Seq<Seq<char>>, k: int, n: int)
    requires
        0 <= k < n <= pieces.len(),
    ensures
        piece_offset(pieces, k) + pieces[k].len() == join(pieces, k + 1).len(),
        join(pieces, k + 1).len() <= join(pieces, n).len(),
        join(pieces, n).subrange(
            piece_offset(pieces, k),
            piece_offset(pieces, k) + pieces[k].len(),
        ) == pieces[k],
        k + 1 < n ==> join(pieces, k + 1).len() < join(pieces, n).len() && join(
            pieces,
            n,
        )[join(pieces, k + 1).len() as int] == ',',
        k + 1 == n ==> join(pieces, k + 1) == join(pieces, n),
    decreases n,
{
    let off = piece_offset(pieces, k);
    let piece = pieces[k];
    if n == k + 1 {
        if k == 0 {
            assert(join(pieces, 1).subrange(0, piece.len() as int) =~= piece);
        } else {
            assert(join(pieces, n) == join(pieces, k) + seq![','] + piece);
            assert(join(pieces, n).subrange(off, off + piece.len()) =~= piece);
        }
    } else {
        lemma_join_piece(pieces, k, n - 1);
        let shorter = join(pieces, n - 1);
        let longer = join(pieces, n);
        assert(longer == shorter + seq![','] + pieces[n - 1]);
        assert(longer.subrange(off, off + piece.len()) =~= shorter.subrange(
            off,
            off + piece.len(),
        ));
        if k + 1 < n - 1 {
            assert(longer[join(pieces, k + 1).len() as int] == shorter[join(
                pieces,
                k + 1,
            ).len() as int]);
        } else {
            assert(longer[shorter.len() as int] == ',');
        }
    }
}

/// The texts of the elements of an array.
pub open spec fn item_texts(items: Seq<JsonModel>) -> Seq<Seq<char>> {
    Seq::new(items.len(), |k: int| render(items[k]))
}

/// The texts of the members of an object.
pub open spec fn member_texts(members: Seq<(Seq<char>, JsonModel)>) -> Seq<Seq<char>> {
    Seq::new(members.len(), |k: int| render_member(members, k))
}

/// The elements of an array are written as the join of their texts.
pub proof fn lemma_render_items_join(items: Seq<JsonModel>, n: int)
    requires
        0 <= n <= items.len(),
    ensures
        render_items(items, n) == join(item_texts(items), n),
    decreases n,
{
    if n > 1 {
        lemma_render_items_join(items, n - 1);
    }
}

/// The members of an object are written as the join of their texts.
pub proof fn lemma_render_members_join(members: Seq<(Seq<char>, JsonModel)>, n: int)
    requires
        0 <= n <= members.len(),
    ensures
        render_members(members, n) == join(member_texts(members), n),
    decreases n,
{
    if n > 1 {
        lemma_render_members_join(members, n - 1);
    }
}

/// `c` is a character with which the text of `value` may start.
pub open spec fn starts(value: JsonModel, c: char) -> bool {
    match value {
        JsonModel::Object(_) => c == '{',
        JsonModel::Array(_) => c == '[',
        JsonModel::String(_) => c == '"',
        JsonModel::Number(_) => is_digit(c) || c == '-',
        JsonModel::Boolean(b) => if b {
            c == 't'
        } else {
            c == 'f'
        },
        JsonModel::Null => c == 'n',
    }
}

/// The text of a well-formed value is not empty, and its first character
/// tells what kind of value it is.
pub proof fn lemma_render_starts(value: JsonModel)
    requires
        value.wf(),
    ensures
        render(value).len() > 0,
        starts(value, render(value)[0]),
{
    match value {
        JsonModel::Object(members) => {
            assert(render(value)[0] == '{');
        },
        JsonModel::Array(items) => {
            assert(render(value)[0] == '[');
        },
        JsonModel::String(text) => {
            assert(render(value)[0] == '"');
        },
        _ => {},
    }
}

/// A string is read back from its text.
pub proof fn lemma_parse_rendered_string(s: Seq<char>, i: int, text: Seq<char>)
    requires
        holds_at(s, i, quoted(text)),
    ensures
        parse_value(s, i) == Ok::<(JsonModel, int), ParseError>(
            (JsonModel::String(text), i + quoted(text).len()),
        ),
{
    let inside = escape(text) + seq!['"'];
    assert(quoted(text) =~= seq!['"'] + inside);
    lemma_holds_at_split(s, i, seq!['"'], inside);
    lemma_holds_at_char(s, i, seq!['"'], 0);
    lemma_scan_escaped(s, i + 1, text, Seq::empty());
    assert(Seq::<char>::empty() + text =~= text);
    assert(skip_whitespace(s, i) == i);
}

/// A number is read back from its literal, where no character that a
/// literal can hold follows it.
pub proof fn lemma_parse_rendered_number(s: Seq<char>, i: int, text: Seq<char>)
    requires
        is_number_literal(text),
        holds_at(s, i, text),
        number_stops_at(s, i + text.len()),
    ensures
        parse_value(s, i) == Ok::<(JsonModel, int), ParseError>(
            (JsonModel::Number(text), i + text.len()),
        ),
{
    lemma_holds_at_char(s, i, text, 0);
    assert(skip_whitespace(s, i) == i);
    assert(text.subrange(0, text.len() as int) =~= text);
    lemma_number_span_window(text, 0, s, i, text.len() as int);
}

/// `true`, `false` and `null` are read back from their words.
pub proof fn lemma_parse_rendered_word(s: Seq<char>, i: int, value: JsonModel)
    requires
        value is Boolean || value is Null,
        holds_at(s, i, render(value)),
    ensures
        parse_value(s, i) == Ok::<(JsonModel, int), ParseError>((value, i + render(value).len())),
{
    lemma_holds_at_char(s, i, render(value), 0);
    assert(skip_whitespace(s, i) == i);
    if value == JsonModel::Boolean(false) {
        if holds_at(s, i, word_true()) {
            lemma_holds_at_char(s, i, word_true(), 0);
        }
    }
}

/// The text of an array is a bracket, the text of its elements and a
/// bracket; that of an object is a brace, the text of its members and a
/// brace.
pub proof fn lemma_container_frame(s: Seq<char>, i: int, value: JsonModel)
    requires
        value is Array || value is Object,
        holds_at(s, i, render(value)),
    ensures
        value matches JsonModel::Array(items) ==> {
            &&& char_at(s, i) == Some('[')
            &&& holds_at(s, i + 1, render_items(items, items.len() as int))
            &&& char_at(s, i + 1 + render_items(items, items.len() as int).len()) == Some(']')
            &&& render(value).len() == render_items(items, items.len() as int).len() + 2
        },
        value matches JsonModel::Object(members) ==> {
            &&& char_at(s, i) == Some('{')
            &&& holds_at(s, i + 1, render_members(members, members.len() as int))
            &&& char_at(s, i + 1 + render_members(members, members.len() as int).len()) == Some(
                '}',
            )
            &&& render(value).len() == render_members(members, members.len() as int).len() + 2
        },
{
    match value {
        JsonModel::Array(items) => {
            let body = render_items(items, items.len() as int);
            assert(render(value) == seq!['['] + body + seq![']']);
            lemma_holds_at_split(s, i, seq!['['] + body, seq![']']);
            lemma_holds_at_split(s, i, seq!['['], body);
            lemma_holds_at_char(s, i, seq!['['], 0);
            lemma_holds_at_char(s, i + 1 + body.len(), seq![']'], 0);
        },
        JsonModel::Object(members) => {
            let body = render_members(members, members.len() as int);
            assert(render(value) == seq!['{'] + body + seq!['}']);
            lemma_holds_at_split(s, i, seq!['{'] + body, seq!['}']);
            lemma_holds_at_split(s, i, seq!['{'], body);
            lemma_holds_at_char(s, i, seq!['{'], 0);
            lemma_holds_at_char(s, i + 1 + body.len(), seq!['}'], 0);
        },
        _ => {},
    }
}

/// A text of elements or members that is not empty starts with a character
/// that is neither whitespace nor a closing bracket or brace.
pub proof fn lemma_container_body_starts(value: JsonModel)
    requires
        value.wf(),
    ensures
        value matches JsonModel::Array(items) ==> items.len() > 0 ==> {
            &&& render_items(items, items.len() as int).len() > 0
            &&& !is_whitespace(render_items(items, items.len() as int)[0])
            &&& render_items(items, items.len() as int)[0] != ']'
        },
        value matches JsonModel::Object(members) ==> members.len() > 0 ==> {
            &&& render_members(members, members.len() as int).len() > 0
            &&& render_members(members, members.len() as int)[0] == '"'
        },
{
    match value {
        JsonModel::Array(items) => {
            if items.len() > 0 {
                let n = items.len() as int;
                let body = render_items(items, n);
                lemma_wf_unfolds(value);
                lemma_render_items_join(items, n);
                lemma_join_piece(item_texts(items), 0, n);
                lemma_render_starts(items[0]);
                assert(body[0] == body.subrange(0, render(items[0]).len() as int)[0]);
            }
        },
        JsonModel::Object(members) => {
            if members.len() > 0 {
                let n = members.len() as int;
                let body = render_members(members, n);
                lemma_render_members_join(members, n);
                lemma_join_piece(member_texts(members), 0, n);
                let piece = render_member(members, 0);
                assert(piece[0] == '"');
                assert(body[0] == body.subrange(0, piece.len() as int)[0]);
            }
        },
        _ => {},
    }
}

/// An opening bracket with elements behind it is read as the array of
/// those elements; with a closing bracket behind it, as the empty array.
pub proof fn lemma_parse_array_frame(s: Seq<char>, i: int, items: Seq<JsonModel>, end: int)
    requires
        char_at(s, i) == Some('['),
        char_at(s, i + 1) matches Some(c) && !is_whitespace(c),
        items.len() == 0 ==> char_at(s, i + 1) == Some(']') && end == i + 2,
        items.len() > 0 ==> char_at(s, i + 1) != Some(']') && parse_items(s, i + 1, Seq::empty())
            == Ok::<(Seq<JsonModel>, int), ParseError>((items, end)),
    ensures
        parse_value(s, i) == Ok::<(JsonModel, int), ParseError>((JsonModel::Array(items), end)),
{
    assert(skip_whitespace(s, i) == i);
    assert(skip_whitespace(s, i + 1) == i + 1);
    if items.len() == 0 {
        assert(items =~= Seq::empty());
    }
}

/// An opening brace with members behind it is read as the object of those
/// members; with a closing brace behind it, as the empty object.
pub proof fn lemma_parse_object_frame(
    s: Seq<char>,
    i: int,
    members: Seq<(Seq<char>, JsonModel)>,
    end: int,
)
    requires
        char_at(s, i) == Some('{'),
        char_at(s, i + 1) matches Some(c) && !is_whitespace(c),
        members.len() == 0 ==> char_at(s, i + 1) == Some('}') && end == i + 2,
        members.len() > 0 ==> char_at(s, i + 1) != Some('}') && parse_members(
            s,
            i + 1,
            Seq::empty(),
        ) == Ok::<(Seq<(Seq<char>, JsonModel)>, int), ParseError>((members, end)),
    ensures
        parse_value(s, i) == Ok::<(JsonModel, int), ParseError>((JsonModel::Object(members), end)),
{
    assert(skip_whitespace(s, i) == i);
    assert(skip_whitespace(s, i + 1) == i + 1);
    if members.len() == 0 {
        assert(members =~= Seq::empty());
    }
}

/// A well-formed value is read back from its text, wherever the text
/// stands, provided that no character that a number can hold follows it.
pub proof fn lemma_parse_rendered(s: Seq<char>, i: int, value: JsonModel)
    requires
        value.wf(),
        holds_at(s, i, render(value)),
        number_stops_at(s, i + render(value).len()),
    ensures
        parse_value(s, i) == Ok::<(JsonModel, int), ParseError>((value, i + render(value).len())),
    decreases value, 0int,
{
    match value {
        JsonModel::String(text) => {
            lemma_parse_rendered_string(s, i, text);
        },
        JsonModel::Number(text) => {
            lemma_parse_rendered_number(s, i, text);
        },
        JsonModel::Boolean(_) => {
            lemma_parse_rendered_word(s, i, value);
        },
        JsonModel::Null => {
            lemma_parse_rendered_word(s, i, value);
        },
        JsonModel::Array(items) => {
            let body = render_items(items, items.len() as int);
            lemma_container_frame(s, i, value);
            lemma_container_body_starts(value);
            if items.len() > 0 {
                lemma_holds_at_char(s, i + 1, body, 0);
                assert(items.take(0) =~= Seq::empty());
                lemma_parse_rendered_items(s, i + 1, items, 0);
            }
            lemma_parse_array_frame(s, i, items, i + body.len() + 2);
        },
        JsonModel::Object(members) => {
            let body = render_members(members, members.len() as int);
            lemma_container_frame(s, i, value);
            lemma_container_body_starts(value);
            if members.len() > 0 {
                lemma_holds_at_char(s, i + 1, body, 0);
                assert(members.take(0) =~= Seq::empty());
                lemma_parse_rendered_members(s, i + 1, members, 0);
            }
            lemma_parse_object_frame(s, i, members, i + body.len() + 2);
        },
    }
}

/// One step of reading elements: after a value, a comma leads to the next
/// element and a bracket ends the array.
pub proof fn lemma_parse_items_step(
    s: Seq<char>,
    pos: int,
    read: Seq<JsonModel>,
    value: JsonModel,
    end: int,
)
    requires
        parse_value(s, pos) == Ok::<(JsonModel, int), ParseError>((value, end)),
        pos < end,
        char_at(s, end) == Some(',') || char_at(s, end) == Some(']'),
    ensures
        char_at(s, end) == Some(',') ==> parse_items(s, pos, read) == parse_items(
            s,
            end + 1,
            read.push(value),
        ),
        char_at(s, end) == Some(']') ==> parse_items(s, pos, read) == Ok::<
            (Seq<JsonModel>, int),
            ParseError,
        >((read.push(value), end + 1)),
{
    assert(skip_whitespace(s, end) == end);
}

/// One step of reading members: after a key, a colon and a value, a comma
/// leads to the next member and a brace ends the object.
pub proof fn lemma_parse_members_step(
    s: Seq<char>,
    pos: int,
    read: Seq<(Seq<char>, JsonModel)>,
    key: Seq<char>,
    colon: int,
    value: JsonModel,
    end: int,
)
    requires
        parse_value(s, pos) == Ok::<(JsonModel, int), ParseError>((JsonModel::String(key), colon)),
        pos < colon,
        char_at(s, colon) == Some(':'),
        parse_value(s, colon + 1) == Ok::<(JsonModel, int), ParseError>((value, end)),
        colon < end,
        char_at(s, end) == Some(',') || char_at(s, end) == Some('}'),
    ensures
        char_at(s, end) == Some(',') ==> parse_members(s, pos, read) == parse_members(
            s,
            end + 1,
            members_with(read, key, value),
        ),
        char_at(s, end) == Some('}') ==> parse_members(s, pos, read) == Ok::<
            (Seq<(Seq<char>, JsonModel)>, int),
            ParseError,
        >((members_with(read, key, value), end + 1)),
{
    assert(skip_whitespace(s, colon) == colon);
    assert(skip_whitespace(s, end) == end);
}

/// Where element `k` of an array stands in the text of its elements, and
/// what follows it.
pub proof fn lemma_item_place(s: Seq<char>, base: int, items: Seq<JsonModel>, k: int)
    requires
        0 <= k < items.len(),
        holds_at(s, base, render_items(items, items.len() as int)),
        char_at(s, base + render_items(items, items.len() as int).len()) == Some(']'),
    ensures
        holds_at(s, base + piece_offset(item_texts(items), k), render(items[k])),
        k + 1 < items.len() ==> char_at(
            s,
            base + piece_offset(item_texts(items), k) + render(items[k]).len(),
        ) == Some(',') && piece_offset(item_texts(items), k + 1) == piece_offset(
            item_texts(items),
            k,
        ) + render(items[k]).len() + 1,
        k + 1 == items.len() ==> base + piece_offset(item_texts(items), k) + render(
            items[k],
        ).len() == base + render_items(items, items.len() as int).len(),
{
    let n = items.len() as int;
    let texts = item_texts(items);
    let body = render_items(items, n);
    lemma_render_items_join(items, n);
    lemma_join_piece(texts, k, n);
    let piece = render(items[k]);
    let off = piece_offset(texts, k);
    lemma_holds_at_part(s, base, body, off, off + piece.len());
    if k + 1 < n {
        lemma_holds_at_char(s, base, body, off + piece.len());
    }
}

/// Where member `k` of an object stands in the text of its members, and
/// what follows it.
pub proof fn lemma_member_place(
    s: Seq<char>,
    base: int,
    members: Seq<(Seq<char>, JsonModel)>,
    k: int,
)
    requires
        0 <= k < members.len(),
        holds_at(s, base, render_members(members, members.len() as int)),
        char_at(s, base + render_members(members, members.len() as int).len()) == Some('}'),
    ensures
        holds_at(s, base + piece_offset(member_texts(members), k), render_member(members, k)),
        k + 1 < members.len() ==> char_at(
            s,
            base + piece_offset(member_texts(members), k) + render_member(members, k).len(),
        ) == Some(',') && piece_offset(member_texts(members), k + 1) == piece_offset(
            member_texts(members),
            k,
        ) + render_member(members, k).len() + 1,
        k + 1 == members.len() ==> base + piece_offset(member_texts(members), k) + render_member(
            members,
            k,
        ).len() == base + render_members(members, members.len() as int).len(),
{
    let n = members.len() as int;
    let texts = member_texts(members);
    let body = render_members(members, n);
    lemma_render_members_join(members, n);
    lemma_join_piece(texts, k, n);
    let piece = render_member(members, k);
    let off = piece_offset(texts, k);
    lemma_holds_at_part(s, base, body, off, off + piece.len());
    if k + 1 < n {
        lemma_holds_at_char(s, base, body, off + piece.len());
    }
}

/// The elements of a well-formed array are read back from their text, from
/// element `k` on, when those before it have been read.
pub proof fn lemma_parse_rendered_items(s: Seq<char>, base: int, items: Seq<JsonModel>, k: int)
    requires
        JsonModel::Array(items).wf(),
        0 <= k < items.len(),
        holds_at(s, base, render_items(items, items.len() as int)),
        char_at(s, base + render_items(items, items.len() as int).len()) == Some(']'),
    ensures
        parse_items(s, base + piece_offset(item_texts(items), k), items.take(k)) == Ok::<
            (Seq<JsonModel>, int),
            ParseError,
        >((items, base + render_items(items, items.len() as int).len() + 1)),
    decreases items, items.len() - k,
{
    let n = items.len() as int;
    let item = items[k];
    let pos = base + piece_offset(item_texts(items), k);
    let end = pos + render(item).len();
    lemma_item_place(s, base, items, k);
    lemma_wf_unfolds(JsonModel::Array(items));
    lemma_render_starts(item);
    lemma_parse_rendered(s, pos, item);
    lemma_parse_items_step(s, pos, items.take(k), item, end);
    assert(items.take(k).push(item) =~= items.take(k + 1));
    if k + 1 < n {
        lemma_parse_rendered_items(s, base, items, k + 1);
    } else {
        assert(items.take(n) =~= items);
    }
}

/// The members of a well-formed object are read back from their text, from
/// member `k` on, when those before it have been read.
pub proof fn lemma_parse_rendered_members(
    s: Seq<char>,
    base: int,
    members: Seq<(Seq<char>, JsonModel)>,
    k: int,
)
    requires
        JsonModel::Object(members).wf(),
        0 <= k < members.len(),
        holds_at(s, base, render_members(members, members.len() as int)),
        char_at(s, base + render_members(members, members.len() as int).len()) == Some('}'),
    ensures
        parse_members(s, base + piece_offset(member_texts(members), k), members.take(k)) == Ok::<
            (Seq<(Seq<char>, JsonModel)>, int),
            ParseError,
        >((members, base + render_members(members, members.len() as int).len() + 1)),
    decreases members, members.len() - k,
{
    let n = members.len() as int;
    let key = members[k].0;
    let value = members[k].1;
    let piece = render_member(members, k);
    let pos = base + piece_offset(member_texts(members), k);
    let end = pos + piece.len();
    let colon = pos + quoted(key).len();
    lemma_member_place(s, base, members, k);
    lemma_wf_unfolds(JsonModel::Object(members));
    // The key, the colon, the value.
    assert(piece == quoted(key) + seq![':'] + render(value));
    lemma_holds_at_split(s, pos, quoted(key) + seq![':'], render(value));
    lemma_holds_at_split(s, pos, quoted(key), seq![':']);
    lemma_holds_at_char(s, colon, seq![':'], 0);
    lemma_parse_rendered_string(s, pos, key);
    lemma_render_starts(value);
    lemma_parse_rendered(s, colon + 1, value);
    lemma_parse_members_step(s, pos, members.take(k), key, colon, value, end);
    // The key is new, so the member goes to the end.
    let read = members.take(k);
    assert(members_with(read, key, value) =~= members.take(k + 1)) by {
        lemma_find_key(read, key, 0);
        let at = find_key(read, key, 0);
        if at < read.len() {
            assert(read[at] == members[at]);
        }
    }
    if k + 1 < n {
        lemma_parse_rendered_members(s, base, members, k + 1);
    } else {
        assert(members.take(n) =~= members);
    }
}

} // verus!
