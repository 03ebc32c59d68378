//! Number literals: how far one reaches and whether it denotes a number.

use vstd::prelude::*;

verus! {

/// The character at position `i`, if the text reaches that far.
pub open spec fn char_at(s: Seq<char>, i: int) -> Option<char> {
    if 0 <= i < s.len() {
        Some(s[i])
    } else {
        None
    }
}

pub open spec fn is_digit(c: char) -> bool {
    '0' <= c && c <= '9'
}

/// The first position from `i` on that holds no decimal digit.
pub open spec fn digits_end(s: Seq<char>, i: int) -> int
    decreases s.len() - i,
{
    if 0 <= i < s.len() && is_digit(s[i]) {
        digits_end(s, i + 1)
    } else {
        i
    }
}

/// The parts of the number literal that starts at some position.
pub struct NumberSpan {
    /// The position behind the literal.
    pub end: int,
    /// How many digits stand before and behind the decimal point.
    pub mantissa_digits: int,
    /// How many digits the exponent has, where there is an `e` or `E`.
    pub exponent_digits: Option<int>,
}

/// How far the number literal at position `i` reaches: an optional `-`,
/// digits, an optional `.` with digits, an optional `e` or `E` with an
/// optional sign and digits. Each run of digits may be empty.
pub open spec fn number_span(s: Seq<char>, i: int) -> NumberSpan {
    let whole = if char_at(s, i) == Some('-') {
        i + 1
    } else {
        i
    };
    let point = digits_end(s, whole);
    let mark = if char_at(s, point) == Some('.') {
        digits_end(s, point + 1)
    } else {
        point
    };
    let fraction_digits = if char_at(s, point) == Some('.') {
        mark - (point + 1)
    } else {
        0
    };
    let mantissa_digits = (point - whole) + fraction_digits;
    if char_at(s, mark) == Some('e') || char_at(s, mark) == Some('E') {
        let power = if char_at(s, mark + 1) == Some('+') || char_at(s, mark + 1) == Some('-') {
            mark + 2
        } else {
            mark + 1
        };
        let end = digits_end(s, power);
        NumberSpan { end, mantissa_digits, exponent_digits: Some(end - power) }
    } else {
        NumberSpan { end: mark, mantissa_digits, exponent_digits: None }
    }
}

/// A literal denotes a number when its mantissa has a digit and its
/// exponent, if it has one, has a digit too.
pub open spec fn span_is_number(span: NumberSpan) -> bool {
    &&& span.mantissa_digits >= 1
    &&& span.exponent_digits matches Some(n) ==> n >= 1
}

/// `text` is, from its first to its last character, the literal of a number.
pub open spec fn is_number_literal(text: Seq<char>) -> bool {
    &&& text.len() > 0
    &&& (is_digit(text[0]) || text[0] == '-')
    &&& number_span(text, 0).end == text.len()
    &&& span_is_number(number_span(text, 0))
}

/// A character that can stand inside a number literal.
pub open spec fn is_number_char(c: char) -> bool {
    is_digit(c) || c == '-' || c == '+' || c == '.' || c == 'e' || c == 'E'
}

/// The position `i` lies behind the text, or holds a character that cannot
/// stand inside a number literal.
pub open spec fn number_stops_at(s: Seq<char>, i: int) -> bool {
    char_at(s, i) matches Some(c) ==> !is_number_char(c)
}

/// The `n` characters of `s1` from `i1` are those of `s2` from `i2`.
pub open spec fn same_window(s1: Seq<char>, i1: int, s2: Seq<char>, i2: int, n: int) -> bool {
    &&& 0 <= i1
    &&& 0 <= i2
    &&& 0 <= n
    &&& i1 + n <= s1.len()
    &&& i2 + n <= s2.len()
    &&& s1.subrange(i1, i1 + n) == s2.subrange(i2, i2 + n)
}

/// A window that is cut at its front is still the same in both texts.
pub proof fn lemma_same_window_tail(s1: Seq<char>, i1: int, s2: Seq<char>, i2: int, n: int, d: int)
    requires
        same_window(s1, i1, s2, i2, n),
        0 <= d <= n,
    ensures
        same_window(s1, i1 + d, s2, i2 + d, n - d),
{
    let w1 = s1.subrange(i1, i1 + n);
    let w2 = s2.subrange(i2, i2 + n);
    assert(s1.subrange(i1 + d, i1 + n) =~= w1.subrange(d, n));
    assert(s2.subrange(i2 + d, i2 + n) =~= w2.subrange(d, n));
}

/// Two texts that hold the same window hold the same character at each
/// place of it.
pub proof fn lemma_same_window_char(s1: Seq<char>, i1: int, s2: Seq<char>, i2: int, n: int, k: int)
    requires
        same_window(s1, i1, s2, i2, n),
        0 <= k < n,
    ensures
        s1[i1 + k] == s2[i2 + k],
{
    assert(s1.subrange(i1, i1 + n)[k] == s2.subrange(i2, i2 + n)[k]);
}

/// A run of digits lies between its start and the end of the text, holds
/// digits only, and is followed by none.
pub proof fn lemma_digits_end(s: Seq<char>, i: int)
    requires
        0 <= i <= s.len(),
    ensures
        i <= digits_end(s, i) <= s.len(),
        forall|j: int| i <= j < digits_end(s, i) ==> is_digit(s[j]),
        char_at(s, digits_end(s, i)) matches Some(c) ==> !is_digit(c),
    decreases s.len() - i,
{
    if i < s.len() && is_digit(s[i]) {
        lemma_digits_end(s, i + 1);
    }
}

/// A run of digits is as long in one text as in another that holds the same
/// characters there and, where the run reaches the end of what they share,
/// goes on with no digit.
pub proof fn lemma_digits_end_window(s1: Seq<char>, a1: int, s2: Seq<char>, a2: int, m: int)
    requires
        same_window(s1, a1, s2, a2, m),
        digits_end(s1, a1) <= a1 + m,
        digits_end(s1, a1) == a1 + m ==> (char_at(s2, a2 + m) matches Some(c) ==> !is_digit(c)),
    ensures
        digits_end(s2, a2) - a2 == digits_end(s1, a1) - a1,
    decreases m,
{
    lemma_digits_end(s1, a1);
    if m > 0 {
        lemma_same_window_char(s1, a1, s2, a2, m, 0);
        if is_digit(s1[a1]) {
            lemma_same_window_tail(s1, a1, s2, a2, m, 1);
            lemma_digits_end_window(s1, a1 + 1, s2, a2 + 1, m - 1);
        }
    }
}

/// A number literal has the same parts in another text that holds the same
/// characters there and goes on with none that a literal can hold.
pub proof fn lemma_number_span_window(s1: Seq<char>, i1: int, s2: Seq<char>, i2: int, n: int)
    requires
        same_window(s1, i1, s2, i2, n),
        number_span(s1, i1).end == i1 + n,
        number_stops_at(s2, i2 + n),
    ensures
        number_span(s2, i2).end == i2 + n,
        number_span(s2, i2).mantissa_digits == number_span(s1, i1).mantissa_digits,
        number_span(s2, i2).exponent_digits == number_span(s1, i1).exponent_digits,
{
    let end1 = i1 + n;
    // The sign.
    let whole1 = if char_at(s1, i1) == Some('-') { i1 + 1 } else { i1 };
    let whole2 = if char_at(s2, i2) == Some('-') { i2 + 1 } else { i2 };
    lemma_digits_end(s1, whole1);
    let point1 = digits_end(s1, whole1);
    let dotted1 = char_at(s1, point1) == Some('.');
    if dotted1 {
        lemma_digits_end(s1, point1 + 1);
    }
    let mark1 = if dotted1 { digits_end(s1, point1 + 1) } else { point1 };
    let powered1 = char_at(s1, mark1) == Some('e') || char_at(s1, mark1) == Some('E');
    let signed1 = char_at(s1, mark1 + 1) == Some('+') || char_at(s1, mark1 + 1) == Some('-');
    let power1 = if signed1 { mark1 + 2 } else { mark1 + 1 };
    if powered1 {
        lemma_digits_end(s1, power1);
    }
    assert(whole1 <= point1 <= mark1 <= end1);
    if n > 0 {
        lemma_same_window_char(s1, i1, s2, i2, n, 0);
    }
    assert(whole2 - i2 == whole1 - i1);

    // The digits before the point.
    lemma_same_window_tail(s1, i1, s2, i2, n, whole1 - i1);
    lemma_digits_end_window(s1, whole1, s2, whole2, end1 - whole1);
    let point2 = digits_end(s2, whole2);
    assert(point2 - i2 == point1 - i1);

    // The point and the digits behind it.
    if point1 < end1 {
        lemma_same_window_char(s1, i1, s2, i2, n, point1 - i1);
    }
    let dotted2 = char_at(s2, point2) == Some('.');
    assert(dotted2 == dotted1);
    let mark2 = if dotted2 { digits_end(s2, point2 + 1) } else { point2 };
    if dotted1 {
        lemma_same_window_tail(s1, i1, s2, i2, n, point1 + 1 - i1);
        lemma_digits_end_window(s1, point1 + 1, s2, point2 + 1, end1 - (point1 + 1));
    }
    assert(mark2 - i2 == mark1 - i1);

    // The exponent.
    if mark1 < end1 {
        lemma_same_window_char(s1, i1, s2, i2, n, mark1 - i1);
    }
    let powered2 = char_at(s2, mark2) == Some('e') || char_at(s2, mark2) == Some('E');
    assert(powered2 == powered1);
    if powered1 {
        if mark1 + 1 < end1 {
            lemma_same_window_char(s1, i1, s2, i2, n, mark1 + 1 - i1);
        }
        let signed2 = char_at(s2, mark2 + 1) == Some('+') || char_at(s2, mark2 + 1) == Some('-');
        assert(signed2 == signed1);
        let power2 = if signed2 { mark2 + 2 } else { mark2 + 1 };
        lemma_same_window_tail(s1, i1, s2, i2, n, power1 - i1);
        lemma_digits_end_window(s1, power1, s2, power2, end1 - power1);
    }
}

/// What the number grammar reads at a position is, taken by itself, the
/// literal of a number, provided that it denotes one.
pub proof fn lemma_number_literal(s: Seq<char>, i: int)
    requires
        0 <= i < s.len(),
        is_digit(s[i]) || s[i] == '-',
        span_is_number(number_span(s, i)),
    ensures
        i < number_span(s, i).end <= s.len(),
        is_number_literal(s.subrange(i, number_span(s, i).end)),
{
    let span = number_span(s, i);
    lemma_number_span_bounds(s, i);
    let text = s.subrange(i, span.end);
    assert(text.subrange(0, span.end - i) =~= text);
    lemma_number_span_window(s, i, text, 0, span.end - i);
}

/// A number literal ends between its start and the end of the text, and is
/// at least as long as its digits are many.
pub proof fn lemma_number_span_bounds(s: Seq<char>, i: int)
    requires
        0 <= i <= s.len(),
    ensures
        i <= number_span(s, i).end <= s.len(),
        0 <= number_span(s, i).mantissa_digits <= number_span(s, i).end - i,
        number_span(s, i).exponent_digits matches Some(n) ==> 0 <= n,
{
    let whole = if char_at(s, i) == Some('-') { i + 1 } else { i };
    lemma_digits_end(s, whole);
    let point = digits_end(s, whole);
    let dotted = char_at(s, point) == Some('.');
    if dotted {
        lemma_digits_end(s, point + 1);
    }
    let mark = if dotted { digits_end(s, point + 1) } else { point };
    if char_at(s, mark) == Some('e') || char_at(s, mark) == Some('E') {
        let signed = char_at(s, mark + 1) == Some('+') || char_at(s, mark + 1) == Some('-');
        let power = if signed { mark + 2 } else { mark + 1 };
        lemma_digits_end(s, power);
    }
}

} // verus!
