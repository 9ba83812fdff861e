//! Text primitives over characters.

use vstd::prelude::*;
use vstd::utf8::{encode_scalar, encode_utf8};

verus! {

/// White space: the characters with the Unicode property `White_Space`.
pub open spec fn is_white_space(c: char) -> bool {
    let code = c as u32;
    ||| 0x9 <= code <= 0xD
    ||| code == 0x20
    ||| code == 0x85
    ||| code == 0xA0
    ||| code == 0x1680
    ||| 0x2000 <= code <= 0x200A
    ||| code == 0x2028
    ||| code == 0x2029
    ||| code == 0x202F
    ||| code == 0x205F
    ||| code == 0x3000
}

/// `char::is_whitespace`: the contract claims that it tells the characters with
/// the Unicode property `White_Space`.
pub assume_specification[ char::is_whitespace ](c: char) -> (result: bool)
    ensures
        result == is_white_space(c),
;

/// `String::push`: the contract claims that the character is appended.
pub assume_specification[ String::push ](text: &mut String, c: char)
    ensures
        final(text)@ == old(text)@.push(c),
;

/// The texts of several strings.
pub open spec fn texts(strings: Seq<String>) -> Seq<Seq<char>> {
    strings.map_values(|s: String| s@)
}

/// Whether a text begins with a prefix.
pub fn starts_with(text: &str, prefix: &str) -> (result: bool)
    ensures
        result == prefix@.is_prefix_of(text@),
{
    let length: usize = prefix.unicode_len();
    if text.unicode_len() < length {
        return false;
    }
    let mut k: usize = 0;
    while k < length
        invariant
            k <= length == prefix@.len() <= text@.len(),
            forall|j: int| 0 <= j < k ==> prefix@[j] == text@[j],
        decreases length - k,
    {
        if text.get_char(k) != prefix.get_char(k) {
            assert(text@.subrange(0, prefix@.len() as int)[k as int] != prefix@[k as int]);
            return false;
        }
        k += 1;
    }
    assert(text@.subrange(0, prefix@.len() as int) =~= prefix@);
    true
}

/// Whether two texts are the same.
pub fn same_text(left: &str, right: &str) -> (result: bool)
    ensures
        result == (left@ == right@),
{
    let length: usize = left.unicode_len();
    if right.unicode_len() != length || !starts_with(right, left) {
        assert(left@ == right@ ==> left@.is_prefix_of(right@)) by {
            assert(left@.subrange(0, left@.len() as int) =~= left@);
        }
        return false;
    }
    assert(right@.subrange(0, right@.len() as int) =~= right@);
    true
}

/// A text occurs in another at a position.
pub open spec fn occurs_at(text: Seq<char>, part: Seq<char>, k: int) -> bool {
    0 <= k && k + part.len() <= text.len() && text.subrange(k, k + part.len()) == part
}

/// A text occurs somewhere in another.
pub open spec fn occurs_in(text: Seq<char>, part: Seq<char>) -> bool {
    exists|k: int| #[trigger] occurs_at(text, part, k)
}

/// Whether a text occurs in another.
pub fn contains_text(text: &str, part: &str) -> (result: bool)
    ensures
        result == occurs_in(text@, part@),
{
    let length: usize = text.unicode_len();
    let width: usize = part.unicode_len();
    if width > length {
        return false;
    }
    let last: usize = length - width;
    let mut k: usize = 0;
    loop
        invariant
            length == text@.len(),
            width == part@.len(),
            last == length - width,
            k <= last,
            forall|j: int| 0 <= j < k ==> !#[trigger] occurs_at(text@, part@, j),
        decreases last - k,
    {
        if same_text(text.substring_char(k, k + width), part) {
            assert(occurs_at(text@, part@, k as int));
            return true;
        }
        assert(!occurs_at(text@, part@, k as int));
        if k == last {
            assert forall|j: int| !#[trigger] occurs_at(text@, part@, j) by {}
            return false;
        }
        k += 1;
    }
}

/// A text without its leading white space.
pub open spec fn without_leading_space(text: Seq<char>) -> Seq<char>
    decreases text.len(),
{
    if text.len() > 0 && is_white_space(text[0]) {
        without_leading_space(text.drop_first())
    } else {
        text
    }
}

/// A text without its trailing white space.
pub open spec fn without_trailing_space(text: Seq<char>) -> Seq<char>
    decreases text.len(),
{
    if text.len() > 0 && is_white_space(text.last()) {
        without_trailing_space(text.drop_last())
    } else {
        text
    }
}

/// A text without the white space at its ends.
pub open spec fn trimmed(text: Seq<char>) -> Seq<char> {
    without_trailing_space(without_leading_space(text))
}

/// Removes the white space at the ends of a text.
pub fn trim(text: &str) -> (result: &str)
    ensures
        result@ == trimmed(text@),
{
    let length: usize = text.unicode_len();
    let mut first: usize = 0;
    assert(text@.subrange(0, length as int) =~= text@);
    while first < length && text.get_char(first).is_whitespace()
        invariant
            first <= length == text@.len(),
            without_leading_space(text@) == without_leading_space(
                text@.subrange(first as int, length as int),
            ),
        decreases length - first,
    {
        assert(text@.subrange(first as int, length as int).drop_first() =~= text@.subrange(
            first + 1,
            length as int,
        ));
        first += 1;
    }
    assert(without_leading_space(text@) == text@.subrange(first as int, length as int));
    let mut end: usize = length;
    while first < end && text.get_char(end - 1).is_whitespace()
        invariant
            first <= end <= length == text@.len(),
            trimmed(text@) == without_trailing_space(text@.subrange(first as int, end as int)),
        decreases end,
    {
        assert(text@.subrange(first as int, end as int).drop_last() =~= text@.subrange(
            first as int,
            end - 1,
        ));
        end -= 1;
    }
    text.substring_char(first, end)
}

/// Where a text has its first line feed, or its length.
pub open spec fn line_end(text: Seq<char>) -> int
    decreases text.len(),
{
    if text.len() == 0 || text[0] == '\n' {
        0
    } else {
        1 + line_end(text.drop_first())
    }
}

/// A line without the carriage return in front of its line feed.
pub open spec fn without_carriage_return(line: Seq<char>) -> Seq<char> {
    if line.len() > 0 && line.last() == '\r' {
        line.drop_last()
    } else {
        line
    }
}

/// The lines of a text, which end in line feeds; the last one may lack it.
pub open spec fn lines_of(text: Seq<char>) -> Seq<Seq<char>>
    decreases text.len(),
{
    let end = line_end(text);
    if text.len() == 0 {
        Seq::empty()
    } else if end < 0 || end >= text.len() {
        seq![text]
    } else {
        seq![without_carriage_return(text.take(end))] + lines_of(text.skip(end + 1))
    }
}

/// Splits a text into its lines.
pub fn lines(text: &str) -> (result: Vec<String>)
    ensures
        texts(result@) == lines_of(text@),
{
    let length: usize = text.unicode_len();
    let mut result: Vec<String> = Vec::new();
    let mut start: usize = 0;
    assert(text@.skip(0) =~= text@);
    assert(texts(result@) + lines_of(text@) =~= lines_of(text@));
    while start < length
        invariant
            start <= length == text@.len(),
            texts(result@) + lines_of(text@.skip(start as int)) == lines_of(text@),
        decreases length - start,
    {
        let ghost rest = text@.skip(start as int);
        let ghost before = texts(result@);
        let mut end: usize = start;
        while end < length && text.get_char(end) != '\n'
            invariant
                start <= end <= length == text@.len(),
                line_end(text@.skip(start as int)) == end - start + line_end(
                    text@.skip(end as int),
                ),
            decreases length - end,
        {
            assert(text@.skip(end as int).drop_first() =~= text@.skip(end + 1));
            end += 1;
        }
        assert(line_end(text@.skip(end as int)) == 0);
        if end == length {
            let line: String = text.substring_char(start, end).to_owned();
            assert(line@ =~= rest);
            result.push(line);
            assert(texts(result@) =~= before.push(rest));
            assert(lines_of(rest) =~= seq![rest]);
            assert(text@.skip(length as int) =~= Seq::<char>::empty());
            assert(texts(result@) + lines_of(text@.skip(length as int)) =~= before + lines_of(
                rest,
            ));
            start = length;
        } else {
            let stripped: bool = end > start && text.get_char(end - 1) == '\r';
            let last: usize = if stripped {
                end - 1
            } else {
                end
            };
            let line: String = text.substring_char(start, last).to_owned();
            assert(rest.take(end - start) =~= text@.subrange(start as int, end as int));
            assert(line@ =~= without_carriage_return(rest.take(end - start)));
            result.push(line);
            assert(texts(result@) =~= before.push(line@));
            assert(rest.skip(end - start + 1) =~= text@.skip(end + 1));
            assert(texts(result@) + lines_of(text@.skip(end + 1)) =~= before + lines_of(rest));
            start = end + 1;
        }
    }
    assert(text@.skip(length as int) =~= Seq::<char>::empty());
    assert(texts(result@) + Seq::<Seq<char>>::empty() =~= texts(result@));
    result
}

/// Several texts with a separator between them.
pub open spec fn joined(parts: Seq<Seq<char>>, separator: Seq<char>) -> Seq<char>
    decreases parts.len(),
{
    if parts.len() == 0 {
        Seq::empty()
    } else if parts.len() == 1 {
        parts[0]
    } else {
        joined(parts.drop_last(), separator) + separator + parts.last()
    }
}

/// Joins texts with a separator.
pub fn join(parts: &Vec<String>, separator: &str) -> (result: String)
    ensures
        result@ == joined(texts(parts@), separator@),
{
    let mut result: String = String::new();
    let mut k: usize = 0;
    assert(texts(parts@).take(0) =~= Seq::<Seq<char>>::empty());
    while k < parts.len()
        invariant
            k <= parts@.len(),
            result@ == joined(texts(parts@).take(k as int), separator@),
        decreases parts@.len() - k,
    {
        assert(texts(parts@).take(k + 1).drop_last() =~= texts(parts@).take(k as int));
        assert(texts(parts@).take(k + 1).last() == parts@[k as int]@);
        if k > 0 {
            result.append(separator);
        }
        result.append(parts[k].as_str());
        proof {
            if k == 0 {
                assert(Seq::<char>::empty() + parts@[0]@ =~= parts@[0]@);
                assert(texts(parts@).take(0) =~= Seq::<Seq<char>>::empty());
            }
        }
        k += 1;
    }
    assert(texts(parts@).take(parts@.len() as int) =~= texts(parts@));
    result
}

/// ASCII letters and digits.
pub open spec fn is_alphanumeric(c: char) -> bool {
    '0' <= c <= '9' || 'A' <= c <= 'Z' || 'a' <= c <= 'z'
}

/// Whether a character is an ASCII letter or digit.
pub fn alphanumeric(c: char) -> (result: bool)
    ensures
        result == is_alphanumeric(c),
{
    ('0' <= c && c <= '9') || ('A' <= c && c <= 'Z') || ('a' <= c && c <= 'z')
}

/// The digits of number systems up to sixteen.
pub open spec fn digit(value: int) -> char {
    "0123456789ABCDEF"@[value]
}

/// The digit with a value.
pub fn digit_of(value: u8) -> (result: char)
    requires
        value < 16,
    ensures
        result == digit(value as int),
{
    proof {
        reveal_strlit("0123456789ABCDEF");
    }
    "0123456789ABCDEF".get_char(value as usize)
}

/// A number in decimal notation.
pub open spec fn decimal(value: nat) -> Seq<char>
    decreases value,
{
    if value < 10 {
        seq![digit(value as int)]
    } else {
        decimal(value / 10).push(digit((value % 10) as int))
    }
}

/// Writes a number in decimal notation.
pub fn decimal_text(value: u64) -> (result: String)
    ensures
        result@ == decimal(value as nat),
    decreases value,
{
    let mut result: String = if value < 10 {
        String::new()
    } else {
        decimal_text(value / 10)
    };
    result.push(digit_of((value % 10) as u8));
    assert(Seq::<char>::empty().push(digit(value as int)) =~= seq![digit(value as int)]);
    result
}

/// A signed number in decimal notation.
pub open spec fn signed_decimal(value: int) -> Seq<char> {
    if value < 0 {
        seq!['-'] + decimal((-value) as nat)
    } else {
        decimal(value as nat)
    }
}

/// Writes a signed number in decimal notation.
pub fn signed_decimal_text(value: i32) -> (result: String)
    ensures
        result@ == signed_decimal(value as int),
{
    if value < 0 {
        let mut result: String = String::new();
        result.push('-');
        result.append(decimal_text((-(value as i64)) as u64).as_str());
        assert(Seq::<char>::empty().push('-') =~= seq!['-']);
        result
    } else {
        decimal_text(value as u64)
    }
}

/// The number of bytes that a character has in UTF-8.
pub open spec fn width(c: char) -> nat {
    encode_scalar(c as u32).len()
}

/// Counts the bytes that a character has in UTF-8.
pub fn char_width(c: char) -> (result: usize)
    ensures
        result == width(c),
        1 <= result <= 4,
{
    broadcast use vstd::utf8::char_is_scalar;

    let value: u32 = c as u32;
    if value < 0x80 {
        1
    } else if value < 0x800 {
        2
    } else if value < 0x10000 {
        3
    } else {
        4
    }
}

/// The number of bytes in front of character `k` of a text.
pub open spec fn byte_offset(text: Seq<char>, k: int) -> nat {
    encode_utf8(text.take(k)).len()
}

/// The encoding of a longer text ends in the encoding of its last character.
pub proof fn lemma_encode_push(text: Seq<char>, c: char)
    ensures
        encode_utf8(text.push(c)) == encode_utf8(text) + encode_scalar(c as u32),
    decreases text.len(),
{
    if text.len() == 0 {
        reveal_with_fuel(encode_utf8, 2);
        assert(text.push(c).drop_first() =~= Seq::<char>::empty());
        assert(encode_utf8(text.push(c)) =~= encode_scalar(c as u32));
    } else {
        assert(text.push(c).drop_first() =~= text.drop_first().push(c));
        lemma_encode_push(text.drop_first(), c);
        assert(encode_utf8(text.push(c)) =~= encode_utf8(text) + encode_scalar(c as u32));
    }
}

/// Offsets grow by the width of the character that is passed.
pub proof fn lemma_byte_offset_step(text: Seq<char>, k: int)
    requires
        0 <= k < text.len(),
    ensures
        byte_offset(text, k + 1) == byte_offset(text, k) + width(text[k]),
        width(text[k]) > 0,
{
    assert(text.take(k + 1) =~= text.take(k).push(text[k]));
    lemma_encode_push(text.take(k), text[k]);
}

/// Offsets tell positions apart.
pub proof fn lemma_byte_offsets_grow(text: Seq<char>, j: int, k: int)
    requires
        0 <= j < k <= text.len(),
    ensures
        byte_offset(text, j) < byte_offset(text, k),
    decreases k - j,
{
    lemma_byte_offset_step(text, k - 1);
    if j < k - 1 {
        lemma_byte_offsets_grow(text, j, k - 1);
    }
}

/// The number that digits stand for.
pub open spec fn number_of(digits: Seq<char>) -> int
    decreases digits.len(),
{
    if digits.len() == 0 {
        0
    } else {
        10 * number_of(digits.drop_last()) + (digits.last() as int - '0' as int)
    }
}

/// The decimal form of a number is made of digits that stand for the number, and
/// begins with zero for zero alone.
pub proof fn law_decimals_can_be_read(value: nat)
    ensures
        number_of(decimal(value)) == value,
        decimal(value).len() > 0,
        value > 0 ==> decimal(value)[0] != '0',
        value < 10 ==> decimal(value).len() == 1,
        forall|k: int|
            0 <= k < decimal(value).len() ==> '0' <= #[trigger] decimal(value)[k] <= '9',
    decreases value,
{
    reveal_strlit("0123456789ABCDEF");
    reveal_with_fuel(number_of, 2);
    if value < 10 {
        let one = decimal(value);
        assert(one.drop_last() =~= Seq::empty());
        assert(digit(value as int) as int == '0' as int + value);
    } else {
        let front = decimal(value / 10);
        law_decimals_can_be_read(value / 10);
        assert(decimal(value).drop_last() =~= front);
        assert(decimal(value)[0] == front[0]);
        assert(digit((value % 10) as int) as int == '0' as int + value % 10);
    }
}

/// A negative number is shown with a minus sign in front of its digits.
pub proof fn law_signs_are_shown(value: int)
    ensures
        value >= 0 ==> signed_decimal(value) == decimal(value as nat),
        value < 0 ==> signed_decimal(value)[0] == '-' && signed_decimal(value).skip(1) == decimal(
            (-value) as nat,
        ),
{
    if value < 0 {
        assert(signed_decimal(value).skip(1) =~= decimal((-value) as nat));
    }
}

/// Trimming takes white space away from both ends of a text, all of it, and
/// nothing else.
pub proof fn law_trimming_takes_white_space(text: Seq<char>)
    ensures
        exists|i: int, j: int| #[trigger]
            is_core(text, i, j) && trimmed(text) == text.subrange(i, j),
        trimmed(text).len() > 0 ==> !is_white_space(trimmed(text)[0]) && !is_white_space(
            trimmed(text).last(),
        ),
{
    let rest = without_leading_space(text);
    let i = lemma_leading(text);
    let m = lemma_trailing(rest);
    assert(rest == text.skip(i));
    let j = i + m;
    assert(trimmed(text) =~= text.subrange(i, j));
    assert forall|k: int| j <= k < text.len() implies is_white_space(#[trigger] text[k]) by {
        assert(text[k] == rest[k - i]);
    }
    assert(is_core(text, i, j));
    if trimmed(text).len() > 0 {
        assert(rest[0] == trimmed(text)[0]);
    }
}

/// Outside of `i..j`, the text holds white space alone.
pub open spec fn is_core(text: Seq<char>, i: int, j: int) -> bool {
    &&& 0 <= i <= j <= text.len()
    &&& forall|k: int| 0 <= k < i ==> is_white_space(#[trigger] text[k])
    &&& forall|k: int| j <= k < text.len() ==> is_white_space(#[trigger] text[k])
}

proof fn lemma_leading(text: Seq<char>) -> (i: int)
    ensures
        0 <= i <= text.len(),
        without_leading_space(text) == text.skip(i),
        forall|k: int| 0 <= k < i ==> is_white_space(#[trigger] text[k]),
        i < text.len() ==> !is_white_space(text[i]),
    decreases text.len(),
{
    if text.len() > 0 && is_white_space(text[0]) {
        let rest = text.drop_first();
        let i = lemma_leading(rest);
        assert(rest.skip(i) =~= text.skip(i + 1));
        assert forall|k: int| 0 <= k < i + 1 implies is_white_space(#[trigger] text[k]) by {
            if k > 0 {
                assert(text[k] == rest[k - 1]);
            }
        }
        i + 1
    } else {
        assert(text.skip(0) =~= text);
        0
    }
}

proof fn lemma_trailing(text: Seq<char>) -> (j: int)
    ensures
        0 <= j <= text.len(),
        without_trailing_space(text) == text.take(j),
        forall|k: int| j <= k < text.len() ==> is_white_space(#[trigger] text[k]),
        j > 0 ==> !is_white_space(text[j - 1]),
    decreases text.len(),
{
    if text.len() > 0 && is_white_space(text.last()) {
        let rest = text.drop_last();
        let j = lemma_trailing(rest);
        assert(rest.take(j) =~= text.take(j));
        assert forall|k: int| j <= k < text.len() implies is_white_space(#[trigger] text[k]) by {
            if k < rest.len() {
                assert(text[k] == rest[k]);
            }
        }
        j
    } else {
        assert(text.take(text.len() as int) =~= text);
        text.len() as int
    }
}

/// A text is read line by line: the first line reaches to the first line feed,
/// loses a carriage return in front of it, and the lines of the rest follow.
pub proof fn law_lines_end_at_line_feeds(first: Seq<char>, rest: Seq<char>)
    requires
        !first.contains('\n'),
    ensures
        lines_of(Seq::empty()) == Seq::<Seq<char>>::empty(),
        first.len() > 0 ==> lines_of(first) == seq![first],
        first.len() == 0 || first.last() != '\r' ==> lines_of(first + seq!['\n'] + rest)
            == seq![first] + lines_of(rest),
        lines_of(first + seq!['\r', '\n'] + rest) == seq![first] + lines_of(rest),
{
    lemma_line_end(first);
    lemma_line_end_before(first, rest);
    let text = first + seq!['\n'] + rest;
    assert(text.take(first.len() as int) =~= first);
    assert(text.skip(first.len() as int + 1) =~= rest);
    let marked = first.push('\r');
    assert forall|k: int| 0 <= k < marked.len() implies marked[k] != '\n' by {
        if k < first.len() {
            assert(first.contains(first[k]));
        }
    }
    lemma_line_end_before(marked, rest);
    let other = marked + seq!['\n'] + rest;
    assert(other =~= first + seq!['\r', '\n'] + rest);
    assert(other.take(marked.len() as int) =~= marked);
    assert(other.skip(marked.len() as int + 1) =~= rest);
    assert(marked.drop_last() =~= first);
}

proof fn lemma_line_end(text: Seq<char>)
    requires
        !text.contains('\n'),
    ensures
        line_end(text) == text.len(),
    decreases text.len(),
{
    if text.len() > 0 {
        assert(text.contains(text[0]));
        assert forall|k: int| 0 <= k < text.drop_first().len() implies text.drop_first()[k] != '\n' by {
            assert(text.contains(text[k + 1]));
        }
        lemma_line_end(text.drop_first());
    }
}

proof fn lemma_line_end_before(first: Seq<char>, rest: Seq<char>)
    requires
        !first.contains('\n'),
    ensures
        line_end(first + seq!['\n'] + rest) == first.len(),
    decreases first.len(),
{
    let text = first + seq!['\n'] + rest;
    if first.len() > 0 {
        assert(first.contains(first[0]));
        let shorter = first.drop_first();
        assert forall|k: int| 0 <= k < shorter.len() implies shorter[k] != '\n' by {
            assert(first.contains(first[k + 1]));
        }
        lemma_line_end_before(shorter, rest);
        assert(text.drop_first() =~= shorter + seq!['\n'] + rest);
    }
}

/// Joined parts stand one behind the other, with the separator between them.
pub proof fn law_parts_are_joined_in_order(
    first: Seq<char>,
    rest: Seq<Seq<char>>,
    separator: Seq<char>,
)
    ensures
        joined(seq![first], separator) == first,
        rest.len() > 0 ==> joined(seq![first] + rest, separator) == first + separator + joined(
            rest,
            separator,
        ),
    decreases rest.len(),
{
    if rest.len() > 0 {
        let all = seq![first] + rest;
        let front = rest.drop_last();
        assert(all.drop_last() =~= seq![first] + front);
        law_parts_are_joined_in_order(first, front, separator);
        if front.len() == 0 {
            assert(seq![first] + front =~= seq![first]);
        } else {
            assert(joined(all, separator) =~= first + separator + joined(rest, separator));
        }
    }
}

} // verus!
