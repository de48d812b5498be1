//! Reading a whole number from a line of text.
//!
//! A line holds a number if, once the white space around it is set aside,
//! it is an optional `+` or `-` followed by one or more decimal digits and
//! nothing else, and the number fits in 64 bits.

use vstd::prelude::*;

verus! {

/// The characters that count as white space: those that Unicode classes
/// as `White_Space`.
pub open spec fn is_white_space(c: char) -> bool {
    let code = c as u32;
    ||| 0x09 <= code <= 0x0D
    ||| code == 0x20
    ||| code == 0x85
    ||| code == 0xA0
    ||| code == 0x1680
    ||| 0x2000 <= code <= 0x200A
    ||| code == 0x2028
    ||| code == 0x2029
    ||| code == 0x202F
    ||| code == 0x205F
    ||| code == 0x3000
}

/// The decimal digits `0` to `9`.
pub open spec fn is_digit(c: char) -> bool {
    0x30 <= c as u32 <= 0x39
}

/// The text without the white space at its start and at its end.
pub open spec fn trimmed(text: Seq<char>) -> Seq<char>
    decreases text.len(),
{
    if text.len() > 0 && is_white_space(text[0]) {
        trimmed(text.skip(1))
    } else if text.len() > 0 && is_white_space(text.last()) {
        trimmed(text.drop_last())
    } else {
        text
    }
}

/// The number that a sequence of decimal digits writes.
pub open spec fn magnitude(digits: Seq<char>) -> nat
    decreases digits.len(),
{
    if digits.len() == 0 {
        0
    } else {
        (10 * magnitude(digits.drop_last()) + (digits.last() as u32 - 0x30)) as nat
    }
}

/// One or more characters, each of them a decimal digit.
pub open spec fn is_numeral(digits: Seq<char>) -> bool {
    &&& digits.len() > 0
    &&& forall|i: int| 0 <= i < digits.len() ==> is_digit(#[trigger] digits[i])
}

/// The text without its sign, if it starts with one.
pub open spec fn unsigned(text: Seq<char>) -> Seq<char> {
    if text.len() > 0 && (text[0] == '-' || text[0] == '+') {
        text.skip(1)
    } else {
        text
    }
}

/// The number that the text writes: an optional sign, and digits; nothing
/// if the text is anything else.
pub open spec fn decimal(text: Seq<char>) -> Option<int> {
    if !is_numeral(unsigned(text)) {
        None
    } else if text[0] == '-' {
        Some(-(magnitude(unsigned(text)) as int))
    } else {
        Some(magnitude(unsigned(text)) as int)
    }
}

/// The number that a line holds, if it holds one that fits in 64 bits.
pub open spec fn integer_of(line: Seq<char>) -> Option<i64> {
    match decimal(trimmed(line)) {
        Some(value) => if i64::MIN <= value <= i64::MAX {
            Some(value as i64)
        } else {
            None
        },
        None => None,
    }
}

/// Trimming leaves the part of the text between the first and the last
/// character that is no white space.
pub proof fn lemma_trimmed(text: Seq<char>, start: int, end: int)
    requires
        0 <= start <= end <= text.len(),
        forall|i: int| 0 <= i < start ==> is_white_space(#[trigger] text[i]),
        forall|i: int| end <= i < text.len() ==> is_white_space(#[trigger] text[i]),
        start < end ==> !is_white_space(text[start]) && !is_white_space(text[end - 1]),
    ensures
        trimmed(text) == text.subrange(start, end),
    decreases text.len(),
{
    if text.len() > 0 && is_white_space(text[0]) {
        let rest = text.skip(1);
        assert forall|i: int| 0 <= i < rest.len() implies rest[i] == text[i + 1] by {}
        if start == 0 {
            // Nothing but white space: any empty range will do.
            assert(start == end);
            lemma_trimmed(rest, 0, 0);
            assert(rest.subrange(0, 0) =~= text.subrange(start, end));
        } else {
            lemma_trimmed(rest, start - 1, end - 1);
            assert(rest.subrange(start - 1, end - 1) =~= text.subrange(start, end));
        }
    } else if text.len() > 0 && is_white_space(text.last()) {
        let rest = text.drop_last();
        assert forall|i: int| 0 <= i < rest.len() implies rest[i] == text[i] by {}
        assert(start == 0);
        assert(end < text.len());
        lemma_trimmed(rest, start, end);
        assert(rest.subrange(start, end) =~= text.subrange(start, end));
    } else {
        if text.len() > 0 {
            assert(start == 0);
            assert(end == text.len());
        }
        assert(text.subrange(start, end) =~= text);
    }
}

/// One more digit multiplies the number written so far by ten and adds the
/// digit.
pub proof fn lemma_magnitude_step(digits: Seq<char>, count: int)
    requires
        0 <= count < digits.len(),
        is_digit(digits[count]),
    ensures
        magnitude(digits.take(count + 1)) == 10 * magnitude(digits.take(count)) + (
        digits[count] as u32 - 0x30),
{
    assert(digits.take(count + 1).drop_last() =~= digits.take(count));
}

/// Digits that follow only add to the number written so far.
pub proof fn lemma_magnitude_grows(digits: Seq<char>, count: int)
    requires
        0 <= count <= digits.len(),
        is_numeral(digits),
    ensures
        magnitude(digits.take(count)) <= magnitude(digits),
    decreases digits.len() - count,
{
    assert(digits.take(digits.len() as int) =~= digits);
    if count < digits.len() {
        lemma_magnitude_step(digits, count);
        lemma_magnitude_grows(digits, count + 1);
    }
}

/// Whether the character is white space.
pub fn is_space(c: char) -> (space: bool)
    ensures
        space == is_white_space(c),
{
    let code: u32 = c as u32;
    (0x09 <= code && code <= 0x0D) || code == 0x20 || code == 0x85 || code == 0xA0 || code
        == 0x1680 || (0x2000 <= code && code <= 0x200A) || code == 0x2028 || code == 0x2029
        || code == 0x202F || code == 0x205F || code == 0x3000
}

/// The number that the line holds, if it holds one that fits in 64 bits.
pub fn parse_integer(line: &str) -> (value: Option<i64>)
    ensures
        value == integer_of(line@),
{
    let length = line.unicode_len();
    let mut start: usize = 0;
    while start < length && is_space(line.get_char(start))
        invariant
            length == line@.len(),
            0 <= start <= length,
            forall|i: int| 0 <= i < start ==> is_white_space(#[trigger] line@[i]),
        decreases length - start,
    {
        start = start + 1;
    }
    let mut end: usize = length;
    while end > start && is_space(line.get_char(end - 1))
        invariant
            length == line@.len(),
            start <= end <= length,
            forall|i: int| end <= i < length ==> is_white_space(#[trigger] line@[i]),
        decreases end,
    {
        end = end - 1;
    }
    let ghost text = line@.subrange(start as int, end as int);
    proof {
        lemma_trimmed(line@, start as int, end as int);
    }
    let mut position: usize = start;
    let mut negative = false;
    if position < end {
        let sign = line.get_char(position);
        assert(sign == text[0]);
        if sign == '-' {
            negative = true;
            position = position + 1;
        } else if sign == '+' {
            position = position + 1;
        }
    }
    if position == end {
        return None;
    }
    let ghost digits = line@.subrange(position as int, end as int);
    proof {
        if position > start {
            assert(digits =~= text.skip(1));
        } else {
            assert(digits =~= text);
        }
        assert(digits == unsigned(text));
        assert(digits.take(0) =~= Seq::<char>::empty());
    }
    let limit: u128 = if negative {
        0x8000_0000_0000_0000
    } else {
        0x7FFF_FFFF_FFFF_FFFF
    };
    let mut number: u128 = 0;
    let first = position;
    while position < end
        invariant
            length == line@.len(),
            first <= position <= end <= length,
            digits == line@.subrange(first as int, end as int),
            forall|i: int| 0 <= i < position - first ==> is_digit(#[trigger] digits[i]),
            number == magnitude(digits.take(position - first)),
            number <= limit <= 0x8000_0000_0000_0000,
            limit == if negative {
                0x8000_0000_0000_0000u128
            } else {
                0x7FFF_FFFF_FFFF_FFFFu128
            },
            text == trimmed(line@),
            text.len() > 0,
            negative == (text[0] == '-'),
            digits == unsigned(text),
        decreases end - position,
    {
        let code: u32 = line.get_char(position) as u32;
        assert(line@[position as int] == digits[position - first]);
        if code < 0x30 || code > 0x39 {
            assert(!is_digit(digits[position - first]));
            return None;
        }
        let next: u128 = number * 10 + (code - 0x30) as u128;
        proof {
            lemma_magnitude_step(digits, position - first);
            if is_numeral(digits) {
                lemma_magnitude_grows(digits, position - first + 1);
            }
        }
        if next > limit {
            return None;
        }
        number = next;
        position = position + 1;
        proof {
            assert forall|i: int| 0 <= i < position - first implies is_digit(
                #[trigger] digits[i],
            ) by {}
        }
    }
    proof {
        assert(digits.take(position - first) =~= digits);
    }
    if negative {
        if number == 0x8000_0000_0000_0000 {
            Some(i64::MIN)
        } else {
            Some(-(number as i64))
        }
    } else {
        Some(number as i64)
    }
}

} // verus!
