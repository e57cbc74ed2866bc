//! Text helpers whose results are stated over sequences of characters.

use vstd::prelude::*;
use vstd::string::*;

verus! {

/// The decimal digit that stands for `digit`.
pub open spec fn digit_char(digit: nat) -> char {
    if digit == 0 {
        '0'
    } else if digit == 1 {
        '1'
    } else if digit == 2 {
        '2'
    } else if digit == 3 {
        '3'
    } else if digit == 4 {
        '4'
    } else if digit == 5 {
        '5'
    } else if digit == 6 {
        '6'
    } else if digit == 7 {
        '7'
    } else if digit == 8 {
        '8'
    } else {
        '9'
    }
}

/// The shortest decimal notation of `value`.
pub open spec fn decimal(value: nat) -> Seq<char>
    decreases value,
{
    if value < 10 {
        seq![digit_char(value)]
    } else {
        decimal(value / 10).push(digit_char(value % 10))
    }
}

fn digit_text(digit: u64) -> (text: &'static str)
    requires
        digit < 10,
    ensures
        text@ == seq![digit_char(digit as nat)],
{
    proof {
        reveal_strlit("0");
        reveal_strlit("1");
        reveal_strlit("2");
        reveal_strlit("3");
        reveal_strlit("4");
        reveal_strlit("5");
        reveal_strlit("6");
        reveal_strlit("7");
        reveal_strlit("8");
        reveal_strlit("9");
    }
    match digit {
        0 => "0",
        1 => "1",
        2 => "2",
        3 => "3",
        4 => "4",
        5 => "5",
        6 => "6",
        7 => "7",
        8 => "8",
        _ => "9",
    }
}

/// Render an unsigned integer in decimal.
pub fn decimal_text(value: u64) -> (text: String)
    ensures
        text@ == decimal(value as nat),
    decreases value,
{
    if value < 10 {
        digit_text(value).to_owned()
    } else {
        let mut text = decimal_text(value / 10);
        text.append(digit_text(value % 10));
        assert(text@ =~= decimal((value / 10) as nat).push(digit_char((value % 10) as nat)));
        text
    }
}

/// The shortest decimal notation of an integer of either sign.
pub open spec fn signed_decimal(value: int) -> Seq<char> {
    if value < 0 {
        "-"@ + decimal((-value) as nat)
    } else {
        decimal(value as nat)
    }
}

/// Render a signed integer in decimal.
pub fn signed_text(value: i32) -> (text: String)
    ensures
        text@ == signed_decimal(value as int),
{
    if value < 0 {
        let mut text = "-".to_owned();
        let magnitude: i64 = -(value as i64);
        text.append(&decimal_text(magnitude as u64));
        text
    } else {
        decimal_text(value as u64)
    }
}

/// Whether the character has the Unicode property `White_Space`.
pub open spec fn is_space(c: char) -> bool {
    ||| '\u{9}' <= c <= '\u{d}'
    ||| c == ' '
    ||| c == '\u{85}'
    ||| c == '\u{a0}'
    ||| c == '\u{1680}'
    ||| '\u{2000}' <= c <= '\u{200a}'
    ||| c == '\u{2028}'
    ||| c == '\u{2029}'
    ||| c == '\u{202f}'
    ||| c == '\u{205f}'
    ||| c == '\u{3000}'
}

/// Whether the text holds nothing but whitespace.
pub open spec fn is_blank(text: Seq<char>) -> bool {
    forall|i: int| 0 <= i < text.len() ==> is_space(#[trigger] text[i])
}

/// The text without the whitespace that it starts with.
pub open spec fn without_leading_space(text: Seq<char>) -> Seq<char>
    decreases text.len(),
{
    if text.len() > 0 && is_space(text[0]) {
        without_leading_space(text.drop_first())
    } else {
        text
    }
}

/// The text without the whitespace that it ends with.
pub open spec fn without_trailing_space(text: Seq<char>) -> Seq<char>
    decreases text.len(),
{
    if text.len() > 0 && is_space(text.last()) {
        without_trailing_space(text.drop_last())
    } else {
        text
    }
}

/// The text without whitespace at either end.
pub open spec fn trimmed(text: Seq<char>) -> Seq<char> {
    without_trailing_space(without_leading_space(text))
}

fn space_test(c: char) -> (result: bool)
    ensures
        result == is_space(c),
{
    ('\u{9}' <= c && c <= '\u{d}') || c == ' ' || c == '\u{85}' || c == '\u{a0}' || c == '\u{1680}'
        || ('\u{2000}' <= c && c <= '\u{200a}') || c == '\u{2028}' || c == '\u{2029}' || c
        == '\u{202f}' || c == '\u{205f}' || c == '\u{3000}'
}

/// The characters of a text.
pub fn chars_of(text: &str) -> (chars: Vec<char>)
    ensures
        chars@ == text@,
{
    let mut chars: Vec<char> = Vec::new();
    for c in iter: text.chars()
        invariant
            chars@ == iter.seq().take(iter.index()),
            iter.seq() == text@,
    {
        chars.push(c);
    }
    chars
}

/// Whether a text holds nothing but whitespace.
pub fn blank(text: &str) -> (result: bool)
    ensures
        result == is_blank(text@),
{
    for c in iter: text.chars()
        invariant
            iter.seq() == text@,
            forall|i: int| 0 <= i < iter.index() ==> is_space(#[trigger] text@[i]),
    {
        if !space_test(c) {
            assert(!is_space(text@[iter.index() as int]));
            return false;
        }
    }
    true
}

proof fn lemma_leading_space(text: Seq<char>, count: int)
    requires
        0 <= count <= text.len(),
        forall|i: int| 0 <= i < count ==> is_space(#[trigger] text[i]),
        count < text.len() ==> !is_space(text[count]),
    ensures
        without_leading_space(text) == text.skip(count),
    decreases count,
{
    if count == 0 {
        assert(text.skip(0) =~= text);
    } else {
        let rest = text.drop_first();
        assert(is_space(text[0]));
        assert forall|i: int| 0 <= i < count - 1 implies is_space(#[trigger] rest[i]) by {
            assert(rest[i] == text[i + 1]);
        }
        lemma_leading_space(rest, count - 1);
        assert(rest.skip(count - 1) =~= text.skip(count));
    }
}

proof fn lemma_trailing_space(text: Seq<char>, count: int)
    requires
        0 <= count <= text.len(),
        forall|i: int| count <= i < text.len() ==> is_space(#[trigger] text[i]),
        count > 0 ==> !is_space(text[count - 1]),
    ensures
        without_trailing_space(text) == text.take(count),
    decreases text.len(),
{
    if count == text.len() {
        assert(text.take(count) =~= text);
    } else {
        let rest = text.drop_last();
        assert(is_space(text[text.len() - 1]));
        assert forall|i: int| count <= i < rest.len() implies is_space(#[trigger] rest[i]) by {
            assert(rest[i] == text[i]);
        }
        lemma_trailing_space(rest, count);
        assert(rest.take(count) =~= text.take(count));
    }
}

/// A text without whitespace at either end.
pub fn trim(text: &str) -> (result: &str)
    ensures
        result@ == trimmed(text@),
{
    let chars = chars_of(text);
    let mut start: usize = 0;
    while start < chars.len() && space_test(chars[start])
        invariant
            start <= chars@.len(),
            chars@ == text@,
            forall|i: int| 0 <= i < start ==> is_space(#[trigger] text@[i]),
        decreases chars@.len() - start,
    {
        start = start + 1;
    }
    let mut end: usize = chars.len();
    while end > start && space_test(chars[end - 1])
        invariant
            start <= end <= chars@.len(),
            chars@ == text@,
            forall|i: int| end <= i < text@.len() ==> is_space(#[trigger] text@[i]),
        decreases end,
    {
        end = end - 1;
    }
    proof {
        lemma_leading_space(text@, start as int);
        let rest = text@.skip(start as int);
        assert forall|i: int| end - start <= i < rest.len() implies is_space(
            #[trigger] rest[i],
        ) by {
            assert(rest[i] == text@[i + start]);
        }
        lemma_trailing_space(rest, end - start);
        assert(rest.take(end - start) =~= text@.subrange(start as int, end as int));
    }
    text.substring_char(start, end)
}

/// Trimming leaves nothing of a text exactly when it is blank.
pub proof fn lemma_trimmed_of_blank(text: Seq<char>)
    ensures
        trimmed(text).len() == 0 <==> is_blank(text),
    decreases text.len(),
{
    if text.len() > 0 && is_space(text[0]) {
        let rest = text.drop_first();
        lemma_trimmed_of_blank(rest);
        assert(is_blank(rest) <==> is_blank(text)) by {
            if is_blank(rest) {
                assert forall|i: int| 0 <= i < text.len() implies is_space(#[trigger] text[i]) by {
                    if i > 0 {
                        assert(rest[i - 1] == text[i]);
                    }
                }
            }
            if is_blank(text) {
                assert forall|i: int| 0 <= i < rest.len() implies is_space(#[trigger] rest[i]) by {
                    assert(rest[i] == text[i + 1]);
                }
            }
        }
    } else if text.len() > 0 {
        assert(!is_blank(text)) by {
            assert(!is_space(text[0]));
        }
        lemma_trailing_keeps_first(text);
    }
}

proof fn lemma_trailing_keeps_first(text: Seq<char>)
    requires
        text.len() > 0,
        !is_space(text[0]),
    ensures
        without_trailing_space(text).len() > 0,
        without_trailing_space(text)[0] == text[0],
    decreases text.len(),
{
    if is_space(text.last()) {
        assert(text.len() > 1);
        lemma_trailing_keeps_first(text.drop_last());
    }
}

proof fn lemma_without_leading_is_part(text: Seq<char>)
    ensures
        forall|i: int|
            0 <= i < without_leading_space(text).len() ==> text.contains(
                #[trigger] without_leading_space(text)[i],
            ),
        without_leading_space(text).len() > 0 ==> !is_space(without_leading_space(text)[0]),
    decreases text.len(),
{
    if text.len() > 0 && is_space(text[0]) {
        let rest = text.drop_first();
        lemma_without_leading_is_part(rest);
        assert forall|i: int| 0 <= i < without_leading_space(text).len() implies text.contains(
            #[trigger] without_leading_space(text)[i],
        ) by {
            assert(rest.contains(without_leading_space(rest)[i]));
            let j = choose|j: int| 0 <= j < rest.len() && rest[j] == without_leading_space(rest)[i];
            assert(text[j + 1] == rest[j]);
        }
    }
}

proof fn lemma_without_trailing_is_part(text: Seq<char>)
    ensures
        forall|i: int|
            0 <= i < without_trailing_space(text).len() ==> text.contains(
                #[trigger] without_trailing_space(text)[i],
            ),
        without_trailing_space(text).len() > 0 ==> !is_space(without_trailing_space(text).last()),
        without_trailing_space(text).len() > 0 ==> without_trailing_space(text)[0] == text[0],
    decreases text.len(),
{
    if text.len() > 0 && is_space(text.last()) {
        let rest = text.drop_last();
        lemma_without_trailing_is_part(rest);
        assert forall|i: int| 0 <= i < without_trailing_space(text).len() implies text.contains(
            #[trigger] without_trailing_space(text)[i],
        ) by {
            assert(rest.contains(without_trailing_space(rest)[i]));
            let j = choose|j: int|
                0 <= j < rest.len() && rest[j] == without_trailing_space(rest)[i];
            assert(text[j] == rest[j]);
        }
    }
}

/// Trimming a second time changes nothing.
pub proof fn lemma_trimmed_settles(text: Seq<char>)
    ensures
        trimmed(trimmed(text)) == trimmed(text),
{
    let middle = without_leading_space(text);
    lemma_without_leading_is_part(text);
    lemma_without_trailing_is_part(middle);
    lemma_leading_kept(trimmed(text));
    lemma_trailing_kept(trimmed(text));
}

/// A text that starts with no whitespace keeps its start when trimmed.
pub proof fn lemma_leading_kept(text: Seq<char>)
    requires
        text.len() > 0 ==> !is_space(text[0]),
    ensures
        without_leading_space(text) == text,
{
}

/// A text that ends with no whitespace keeps its end when trimmed.
pub proof fn lemma_trailing_kept(text: Seq<char>)
    requires
        text.len() > 0 ==> !is_space(text.last()),
    ensures
        without_trailing_space(text) == text,
{
}

/// Whether a text is empty.
pub fn is_empty_text(text: &str) -> (result: bool)
    ensures
        result == (text@.len() == 0),
{
    text.unicode_len() == 0
}

/// Whether a text holds a character.
pub fn contains_char(text: &str, wanted: char) -> (result: bool)
    ensures
        result == text@.contains(wanted),
{
    for c in iter: text.chars()
        invariant
            iter.seq() == text@,
            forall|i: int| 0 <= i < iter.index() ==> #[trigger] text@[i] != wanted,
    {
        if c == wanted {
            assert(text@[iter.index() as int] == wanted);
            return true;
        }
    }
    false
}

/// Whether two texts are the same.
pub fn same_text(left: &str, right: &str) -> (result: bool)
    ensures
        result == (left@ == right@),
{
    broadcast use vstd::utf8::encode_utf8_decode_utf8;

    let left_bytes = left.as_bytes();
    let right_bytes = right.as_bytes();
    if left_bytes.len() != right_bytes.len() {
        return false;
    }
    let mut index: usize = 0;
    while index < left_bytes.len()
        invariant
            index <= left_bytes@.len(),
            left_bytes@.len() == right_bytes@.len(),
            left_bytes@ == vstd::utf8::encode_utf8(left@),
            right_bytes@ == vstd::utf8::encode_utf8(right@),
            left_bytes@.take(index as int) =~= right_bytes@.take(index as int),
        decreases left_bytes@.len() - index,
    {
        if left_bytes[index] != right_bytes[index] {
            return false;
        }
        index = index + 1;
    }
    assert(left_bytes@ =~= right_bytes@) by {
        assert(left_bytes@ =~= left_bytes@.take(index as int));
        assert(right_bytes@ =~= right_bytes@.take(index as int));
    }
    assert(vstd::utf8::decode_utf8(left_bytes@) == left@);
    assert(vstd::utf8::decode_utf8(right_bytes@) == right@);
    true
}

/// Outcome of comparing two texts or two scalars.
#[derive(Clone, Copy, Debug, PartialEq, Eq, Structural)]
pub enum Comparison {
    /// The left side comes before the right side.
    Less,
    /// Neither side comes before the other.
    Equal,
    /// The left side comes after the right side.
    Greater,
}

/// Lexicographic order of texts, by the code points of their characters.
pub open spec fn text_order(left: Seq<char>, right: Seq<char>) -> Comparison
    decreases left.len(),
{
    if left.len() == 0 && right.len() == 0 {
        Comparison::Equal
    } else if left.len() == 0 {
        Comparison::Less
    } else if right.len() == 0 {
        Comparison::Greater
    } else if left[0] < right[0] {
        Comparison::Less
    } else if right[0] < left[0] {
        Comparison::Greater
    } else {
        text_order(left.drop_first(), right.drop_first())
    }
}

/// Compare two texts lexicographically.
pub fn compare_texts(left: &str, right: &str) -> (order: Comparison)
    ensures
        order == text_order(left@, right@),
{
    let left_chars = chars_of(left);
    let right_chars = chars_of(right);
    let mut index: usize = 0;
    assert(left@.skip(0) =~= left@);
    assert(right@.skip(0) =~= right@);
    while index < left_chars.len() && index < right_chars.len()
        invariant
            left_chars@ == left@,
            right_chars@ == right@,
            index <= left@.len(),
            index <= right@.len(),
            text_order(left@, right@) == text_order(
                left@.skip(index as int),
                right@.skip(index as int),
            ),
        decreases left@.len() - index,
    {
        let ghost left_rest = left@.skip(index as int);
        let ghost right_rest = right@.skip(index as int);
        if left_chars[index] < right_chars[index] {
            return Comparison::Less;
        }
        if right_chars[index] < left_chars[index] {
            return Comparison::Greater;
        }
        assert(left_rest.drop_first() =~= left@.skip(index + 1));
        assert(right_rest.drop_first() =~= right@.skip(index + 1));
        index = index + 1;
    }
    if index < left_chars.len() {
        Comparison::Greater
    } else if index < right_chars.len() {
        Comparison::Less
    } else {
        Comparison::Equal
    }
}

/// Texts compare as equal exactly when they are the same, and swapping them
/// reverses the outcome.
pub proof fn lemma_text_order(left: Seq<char>, right: Seq<char>)
    ensures
        text_order(left, right) == Comparison::Equal <==> left == right,
        text_order(left, right) == Comparison::Less <==> text_order(right, left)
            == Comparison::Greater,
    decreases left.len(),
{
    if left.len() > 0 && right.len() > 0 && left[0] == right[0] {
        lemma_text_order(left.drop_first(), right.drop_first());
        assert(left =~= seq![left[0]] + left.drop_first());
        assert(right =~= seq![right[0]] + right.drop_first());
    } else if left.len() == 0 && right.len() == 0 {
        assert(left =~= right);
    }
}

/// The order of texts is transitive.
pub proof fn lemma_text_order_transitive(first: Seq<char>, second: Seq<char>, third: Seq<char>)
    requires
        text_order(first, second) == Comparison::Less,
        text_order(second, third) == Comparison::Less,
    ensures
        text_order(first, third) == Comparison::Less,
    decreases first.len(),
{
    if first.len() > 0 && first[0] == second[0] && second[0] == third[0] {
        lemma_text_order_transitive(first.drop_first(), second.drop_first(), third.drop_first());
    }
}

/// The character with an ASCII upper-case letter turned into its lower-case one.
pub open spec fn ascii_lower(c: char) -> char {
    if 'A' <= c <= 'Z' {
        ((c as u32) + 32) as char
    } else {
        c
    }
}

/// Whether two texts are the same up to the case of ASCII letters.
pub open spec fn same_ignoring_case(left: Seq<char>, right: Seq<char>) -> bool {
    &&& left.len() == right.len()
    &&& forall|i: int|
        0 <= i < left.len() ==> ascii_lower(#[trigger] left[i]) == ascii_lower(right[i])
}

fn lower_code(c: char) -> (code: u32)
    ensures
        code == ascii_lower(c) as u32,
{
    let code: u32 = c as u32;
    if 'A' <= c && c <= 'Z' {
        code + 32
    } else {
        code
    }
}

/// Whether two texts are the same up to the case of ASCII letters.
pub fn equal_ignoring_case(left: &str, right: &str) -> (result: bool)
    ensures
        result == same_ignoring_case(left@, right@),
{
    let left_chars = chars_of(left);
    let right_chars = chars_of(right);
    if left_chars.len() != right_chars.len() {
        return false;
    }
    let mut index: usize = 0;
    while index < left_chars.len()
        invariant
            left_chars@ == left@,
            right_chars@ == right@,
            left@.len() == right@.len(),
            index <= left@.len(),
            forall|i: int|
                0 <= i < index ==> ascii_lower(#[trigger] left@[i]) == ascii_lower(right@[i]),
        decreases left@.len() - index,
    {
        if lower_code(left_chars[index]) != lower_code(right_chars[index]) {
            assert(ascii_lower(left@[index as int]) != ascii_lower(right@[index as int]));
            return false;
        }
        index = index + 1;
    }
    true
}

/// Whether the characters at which two texts first differ decide that the left one comes first: it
/// ends there, or its character has the smaller code point.
pub open spec fn comes_first_at(left: Seq<char>, right: Seq<char>, at: int) -> bool {
    &&& 0 <= at <= left.len()
    &&& at < right.len()
    &&& left.take(at) == right.take(at)
    &&& at == left.len() || left[at] < right[at]
}

proof fn lemma_comes_first(left: Seq<char>, right: Seq<char>)
    ensures
        text_order(left, right) == Comparison::Less ==> exists|at: int|
            comes_first_at(left, right, at),
    decreases left.len(),
{
    if text_order(left, right) == Comparison::Less {
        if left.len() == 0 || left[0] < right[0] {
            assert(left.take(0) =~= right.take(0));
            assert(comes_first_at(left, right, 0));
        } else {
            let left_rest = left.drop_first();
            let right_rest = right.drop_first();
            lemma_comes_first(left_rest, right_rest);
            let at = choose|at: int| comes_first_at(left_rest, right_rest, at);
            assert(left.take(at + 1) =~= right.take(at + 1)) by {
                assert forall|i: int| 0 <= i < at + 1 implies left[i] == right[i] by {
                    if i > 0 {
                        assert(left_rest.take(at)[i - 1] == right_rest.take(at)[i - 1]);
                    }
                }
            }
            assert(comes_first_at(left, right, at + 1));
        }
    }
}

proof fn lemma_first_decides(left: Seq<char>, right: Seq<char>, at: int)
    requires
        comes_first_at(left, right, at),
    ensures
        text_order(left, right) == Comparison::Less,
    decreases left.len(),
{
    if at > 0 {
        assert(left.take(at)[0] == right.take(at)[0]);
        let left_rest = left.drop_first();
        let right_rest = right.drop_first();
        assert(left_rest.take(at - 1) =~= right_rest.take(at - 1)) by {
            assert forall|i: int| 0 <= i < at - 1 implies left_rest[i] == right_rest[i] by {
                assert(left.take(at)[i + 1] == right.take(at)[i + 1]);
            }
        }
        lemma_first_decides(left_rest, right_rest, at - 1);
    }
}

/// A text comes before another exactly when it is a proper beginning of it, or has the smaller
/// character at the first place where they differ; two texts compare as equal exactly when they are
/// the same.
pub proof fn law_texts_compare_by_first_difference(left: Seq<char>, right: Seq<char>)
    ensures
        text_order(left, right) == Comparison::Less <==> exists|at: int|
            0 <= at <= left.len() && at < right.len() && #[trigger] left.take(at) == right.take(at)
                && (at == left.len() || left[at] < right[at]),
        text_order(left, right) == Comparison::Greater <==> exists|at: int|
            0 <= at <= right.len() && at < left.len() && #[trigger] right.take(at) == left.take(at)
                && (at == right.len() || right[at] < left[at]),
        text_order(left, right) == Comparison::Equal <==> left == right,
{
    lemma_text_order(left, right);
    lemma_text_order(right, left);
    lemma_comes_first(left, right);
    lemma_comes_first(right, left);
    if exists|at: int|
        0 <= at <= left.len() && at < right.len() && #[trigger] left.take(at) == right.take(at) && (
        at == left.len() || left[at] < right[at]) {
        let at = choose|at: int|
            0 <= at <= left.len() && at < right.len() && #[trigger] left.take(at) == right.take(at)
                && (at == left.len() || left[at] < right[at]);
        lemma_first_decides(left, right, at);
    }
    if exists|at: int|
        0 <= at <= right.len() && at < left.len() && #[trigger] right.take(at) == left.take(at) && (
        at == right.len() || right[at] < left[at]) {
        let at = choose|at: int|
            0 <= at <= right.len() && at < left.len() && #[trigger] right.take(at) == left.take(at)
                && (at == right.len() || right[at] < left[at]);
        lemma_first_decides(right, left, at);
    }
}

/// The number that digits stand for, the most significant one first.
pub open spec fn digits_value(digits: Seq<char>) -> int
    decreases digits.len(),
{
    if digits.len() == 0 {
        0
    } else {
        10 * digits_value(digits.drop_last()) + (digits.last() as int - '0' as int)
    }
}

/// The decimal notation of a number is made of digits that stand for it, and starts with a zero
/// only where it is zero.
pub proof fn law_decimal_stands_for_its_value(value: nat)
    ensures
        digits_value(decimal(value)) == value,
        decimal(value).len() > 0,
        forall|i: int| 0 <= i < decimal(value).len() ==> '0' <= #[trigger] decimal(value)[i] <= '9',
        decimal(value)[0] == '0' ==> value == 0 && decimal(value).len() == 1,
    decreases value,
{
    if value < 10 {
        assert(decimal(value).drop_last() =~= Seq::empty());
        assert(decimal(value).last() as int == '0' as int + value);
        assert(digits_value(Seq::<char>::empty()) == 0);
    } else {
        assert(decimal(value).last() as int == '0' as int + value % 10);
        law_decimal_stands_for_its_value(value / 10);
        assert(decimal(value).drop_last() =~= decimal(value / 10));
        assert(decimal(value)[0] == decimal(value / 10)[0]);
        assert forall|i: int| 0 <= i < decimal(value).len() implies '0' <= #[trigger] decimal(
            value,
        )[i] <= '9' by {
            if i < decimal(value / 10).len() {
                assert(decimal(value)[i] == decimal(value / 10)[i]);
            }
        }
    }
}

/// A negative number is written as its magnitude behind a minus sign, any other as it is.
pub proof fn law_signed_decimal_shows_the_sign(value: int)
    ensures
        value < 0 ==> signed_decimal(value).len() > 1 && signed_decimal(value)[0] == '-'
            && digits_value(signed_decimal(value).drop_first()) == -value,
        value >= 0 ==> digits_value(signed_decimal(value)) == value,
        value >= 0 ==> signed_decimal(value)[0] != '-',
{
    reveal_strlit("-");
    if value < 0 {
        law_decimal_stands_for_its_value((-value) as nat);
        assert(signed_decimal(value).drop_first() =~= decimal((-value) as nat));
    } else {
        law_decimal_stands_for_its_value(value as nat);
    }
}

/// Whitespace is the tab and the line breaks after it, the space, and the code points beyond ASCII
/// that Unicode counts as such; no letter, digit or mark of ASCII is.
pub proof fn law_whitespace(c: char)
    ensures
        (c as u32) < 0x80 ==> (is_space(c) <==> c == ' ' || c == '\t' || c == '\n' || c == '\u{b}'
            || c == '\u{c}' || c == '\r'),
        (c as u32) >= 0x80 ==> (is_space(c) <==> c as u32 == 0x85 || c as u32 == 0xa0 || c as u32
            == 0x1680 || 0x2000 <= c as u32 <= 0x200a || c as u32 == 0x2028 || c as u32 == 0x2029
            || c as u32 == 0x202f || c as u32 == 0x205f || c as u32 == 0x3000),
{
}

/// Trimming keeps one stretch of a text: it neither starts nor ends with whitespace, and nothing
/// but whitespace is cut off on either side.
pub proof fn law_trimming_cuts_whitespace_alone(text: Seq<char>)
    ensures
        exists|start: int, end: int|
            0 <= start <= end <= text.len() && trimmed(text) == #[trigger] text.subrange(start, end)
                && (forall|i: int| 0 <= i < start ==> is_space(#[trigger] text[i])) && (forall|i: int|
                end <= i < text.len() ==> is_space(#[trigger] text[i])),
        trimmed(text).len() > 0 ==> !is_space(trimmed(text)[0]) && !is_space(trimmed(text).last()),
{
    let start = lemma_leading_count(text);
    let rest = text.skip(start);
    let kept = lemma_trailing_count(rest);
    lemma_leading_space(text, start);
    lemma_trailing_space(rest, kept);
    assert(rest.take(kept) =~= text.subrange(start, start + kept));
    assert forall|i: int| start + kept <= i < text.len() implies is_space(#[trigger] text[i]) by {
        assert(rest[i - start] == text[i]);
    }
}

proof fn lemma_leading_count(text: Seq<char>) -> (count: int)
    ensures
        0 <= count <= text.len(),
        forall|i: int| 0 <= i < count ==> is_space(#[trigger] text[i]),
        count < text.len() ==> !is_space(text[count]),
    decreases text.len(),
{
    if text.len() > 0 && is_space(text[0]) {
        let rest = text.drop_first();
        let count = lemma_leading_count(rest);
        assert forall|i: int| 0 <= i < count + 1 implies is_space(#[trigger] text[i]) by {
            if i > 0 {
                assert(rest[i - 1] == text[i]);
            }
        }
        count + 1
    } else {
        0
    }
}

proof fn lemma_trailing_count(text: Seq<char>) -> (count: int)
    ensures
        0 <= count <= text.len(),
        forall|i: int| count <= i < text.len() ==> is_space(#[trigger] text[i]),
        count > 0 ==> !is_space(text[count - 1]),
    decreases text.len(),
{
    if text.len() > 0 && is_space(text.last()) {
        let rest = text.drop_last();
        let count = lemma_trailing_count(rest);
        assert forall|i: int| count <= i < text.len() implies is_space(#[trigger] text[i]) by {
            if i < rest.len() {
                assert(rest[i] == text[i]);
            }
        }
        count
    } else {
        text.len() as int
    }
}

/// Lower-casing moves the capital letters of ASCII to their small ones and nothing else.
pub proof fn law_lower_case(c: char)
    ensures
        'A' <= c <= 'Z' ==> ascii_lower(c) as u32 == c as u32 - 'A' as u32 + 'a' as u32,
        !('A' <= c <= 'Z') ==> ascii_lower(c) == c,
{
}

} // verus!
