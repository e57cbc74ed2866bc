//! Numbers and texts as the binary sidecar holds them.

use crate::index::error::{invalid_data, invalid_data_error, ErrorModel, IndexError, IndexErrorKind};
use crate::text::{decimal, decimal_text};
use vstd::prelude::*;
use vstd::string::*;
use vstd::utf8::{decode_utf8, encode_utf8, valid_utf8};

verus! {

/// `256` to the power of `exponent`.
pub open spec fn pow256(exponent: nat) -> nat
    decreases exponent,
{
    if exponent == 0 {
        1
    } else {
        256 * pow256((exponent - 1) as nat)
    }
}

/// The `width` lowest bytes of a number, lowest first.
pub open spec fn le_bytes(value: nat, width: nat) -> Seq<u8>
    decreases width,
{
    if width == 0 {
        Seq::empty()
    } else {
        seq![(value % 256) as u8] + le_bytes(value / 256, (width - 1) as nat)
    }
}

/// The number that bytes stand for, lowest first.
pub open spec fn le_value(bytes: Seq<u8>) -> nat
    decreases bytes.len(),
{
    if bytes.len() == 0 {
        0
    } else {
        bytes[0] as nat + 256 * le_value(bytes.drop_first())
    }
}

pub proof fn lemma_le_bytes_len(value: nat, width: nat)
    ensures
        le_bytes(value, width).len() == width,
    decreases width,
{
    if width > 0 {
        lemma_le_bytes_len(value / 256, (width - 1) as nat);
    }
}

pub proof fn lemma_le_round_trip(value: nat, width: nat)
    requires
        value < pow256(width),
    ensures
        le_value(le_bytes(value, width)) == value,
    decreases width,
{
    if width > 0 {
        let rest = le_bytes(value / 256, (width - 1) as nat);
        assert(value / 256 < pow256((width - 1) as nat));
        lemma_le_round_trip(value / 256, (width - 1) as nat);
        assert(le_bytes(value, width).drop_first() =~= rest);
    }
}

pub proof fn lemma_le_value_bound(bytes: Seq<u8>)
    ensures
        le_value(bytes) < pow256(bytes.len()),
    decreases bytes.len(),
{
    if bytes.len() > 0 {
        lemma_le_value_bound(bytes.drop_first());
    }
}

pub proof fn lemma_pow256_small()
    ensures
        pow256(1) == 0x100,
        pow256(2) == 0x1_0000,
        pow256(4) == 0x1_0000_0000,
        pow256(8) == 0x1_0000_0000_0000_0000,
{
    reveal_with_fuel(pow256, 9);
}

proof fn lemma_pow256_monotonic(small: nat, large: nat)
    requires
        small <= large,
    ensures
        pow256(small) <= pow256(large),
    decreases large,
{
    if small < large {
        lemma_pow256_monotonic(small, (large - 1) as nat);
    }
}

/// The data ends before what has to be read.
pub open spec fn truncated() -> ErrorModel {
    ErrorModel { kind: IndexErrorKind::UnexpectedEof, message: "truncated hnsw payload"@ }
}

/// A number that the format has no room for.
pub open spec fn too_large() -> ErrorModel {
    ErrorModel { kind: IndexErrorKind::InvalidInput, message: "value does not fit in u32"@ }
}

/// A value read from data together with the position behind it.
pub type Parsed<T> = Result<(T, nat), ErrorModel>;

/// `len` bytes at a position.
pub open spec fn bytes_at(bytes: Seq<u8>, at: nat, len: nat) -> Parsed<Seq<u8>> {
    if at + len <= bytes.len() {
        Ok((bytes.subrange(at as int, (at + len) as int), at + len))
    } else {
        Err(truncated())
    }
}

/// A number of `width` bytes at a position.
pub open spec fn number_at(bytes: Seq<u8>, at: nat, width: nat) -> Parsed<nat> {
    match bytes_at(bytes, at, width) {
        Err(error) => Err(error),
        Ok((slice, end)) => Ok((le_value(slice), end)),
    }
}

/// An optional number at a position: a tag, and the number where the tag says so.
pub open spec fn optional_at(bytes: Seq<u8>, at: nat) -> Parsed<Option<u32>> {
    match number_at(bytes, at, 1) {
        Err(error) => Err(error),
        Ok((tag, next)) => if tag == 0 {
            Ok((None, next))
        } else if tag == 1 {
            match number_at(bytes, next, 4) {
                Err(error) => Err(error),
                Ok((value, end)) => Ok((Some(value as u32), end)),
            }
        } else {
            Err(invalid_data("invalid optional u32 tag "@ + decimal(tag)))
        },
    }
}

/// What std says of bytes that are not UTF-8.
pub uninterp spec fn utf8_error_text(bytes: Seq<u8>) -> Seq<char>;

/// A text at a position: its length in bytes, and its UTF-8 bytes.
pub open spec fn text_at(bytes: Seq<u8>, at: nat) -> Parsed<Seq<char>> {
    match number_at(bytes, at, 4) {
        Err(error) => Err(error),
        Ok((len, next)) => match bytes_at(bytes, next, len) {
            Err(error) => Err(error),
            Ok((slice, end)) => if valid_utf8(slice) {
                Ok((decode_utf8(slice), end))
            } else {
                Err(invalid_data(utf8_error_text(slice)))
            },
        },
    }
}

/// `count` numbers of four bytes each from a position on.
pub open spec fn words_at(bytes: Seq<u8>, at: nat, count: nat) -> Parsed<Seq<u32>>
    decreases count,
{
    if count == 0 {
        Ok((Seq::empty(), at))
    } else {
        match words_at(bytes, at, (count - 1) as nat) {
            Err(error) => Err(error),
            Ok((words, next)) => match number_at(bytes, next, 4) {
                Err(error) => Err(error),
                Ok((word, end)) => Ok((words.push(word as u32), end)),
            },
        }
    }
}

/// A list of numbers at a position: their count, and four bytes for each.
pub open spec fn word_list_at(bytes: Seq<u8>, at: nat) -> Parsed<Seq<u32>> {
    match number_at(bytes, at, 4) {
        Err(error) => Err(error),
        Ok((count, next)) => words_at(bytes, next, count),
    }
}

fn truncated_error() -> (error: IndexError)
    ensures
        error@ == truncated(),
{
    IndexError {
        kind: IndexErrorKind::UnexpectedEof,
        message: "truncated hnsw payload".to_owned(),
    }
}

fn too_large_error() -> (error: IndexError)
    ensures
        error@ == too_large(),
{
    IndexError {
        kind: IndexErrorKind::InvalidInput,
        message: "value does not fit in u32".to_owned(),
    }
}

fn write_number(bytes: &mut Vec<u8>, value: u64, width: usize)
    ensures
        final(bytes)@ == old(bytes)@ + le_bytes(value as nat, width as nat),
{
    let mut rest: u64 = value;
    let mut left: usize = width;
    assert(bytes@ + le_bytes(rest as nat, left as nat) =~= old(bytes)@ + le_bytes(
        value as nat,
        width as nat,
    ));
    while left > 0
        invariant
            bytes@ + le_bytes(rest as nat, left as nat) == old(bytes)@ + le_bytes(
                value as nat,
                width as nat,
            ),
        decreases left,
    {
        let ghost before = bytes@;
        bytes.push((rest % 256) as u8);
        proof {
            let tail = le_bytes((rest / 256) as nat, (left - 1) as nat);
            assert(before + (seq![(rest % 256) as u8] + tail) =~= before.push((rest % 256) as u8)
                + tail);
        }
        rest = rest / 256;
        left = left - 1;
    }
    assert(bytes@ + le_bytes(rest as nat, 0) =~= bytes@);
}

/// Append a number of two bytes.
pub fn write_u16(bytes: &mut Vec<u8>, value: u16)
    ensures
        final(bytes)@ == old(bytes)@ + le_bytes(value as nat, 2),
{
    write_number(bytes, value as u64, 2)
}

/// Append a number of four bytes, where it fits.
pub fn write_u32(bytes: &mut Vec<u8>, value: usize) -> (outcome: Result<(), IndexError>)
    ensures
        match outcome {
            Ok(_) => value <= u32::MAX && final(bytes)@ == old(bytes)@ + le_bytes(value as nat, 4),
            Err(error) => value > u32::MAX && error@ == too_large() && final(bytes)@ == old(
                bytes,
            )@,
        },
{
    if value as u64 > 0xffff_ffff {
        return Err(too_large_error());
    }
    write_number(bytes, value as u64, 4);
    Ok(())
}

/// Append a number of eight bytes.
pub fn write_u64(bytes: &mut Vec<u8>, value: u64)
    ensures
        final(bytes)@ == old(bytes)@ + le_bytes(value as nat, 8),
{
    write_number(bytes, value, 8)
}

/// The bytes of an optional number.
pub open spec fn optional_bytes(value: Option<u32>) -> Seq<u8> {
    match value {
        None => le_bytes(0, 1),
        Some(number) => le_bytes(1, 1) + le_bytes(number as nat, 4),
    }
}

/// Append an optional number: a tag, and the number where there is one.
pub fn write_optional_u32(bytes: &mut Vec<u8>, value: Option<u32>)
    ensures
        final(bytes)@ == old(bytes)@ + optional_bytes(value),
{
    match value {
        Some(number) => {
            write_number(bytes, 1, 1);
            write_number(bytes, number as u64, 4);
            assert(bytes@ =~= old(bytes)@ + optional_bytes(value));
        },
        None => {
            write_number(bytes, 0, 1);
        },
    }
}

/// The bytes of a text.
pub open spec fn text_bytes(text: Seq<char>) -> Seq<u8> {
    le_bytes(encode_utf8(text).len(), 4) + encode_utf8(text)
}

/// Whether the length of a text fits the format.
pub open spec fn text_fits(text: Seq<char>) -> bool {
    encode_utf8(text).len() <= u32::MAX
}

/// Append a text: its length in bytes, and its UTF-8 bytes.
pub fn write_string(bytes: &mut Vec<u8>, value: &str) -> (outcome: Result<(), IndexError>)
    ensures
        match outcome {
            Ok(_) => text_fits(value@) && final(bytes)@ == old(bytes)@ + text_bytes(value@),
            Err(error) => !text_fits(value@) && error@ == too_large() && final(bytes)@ == old(
                bytes,
            )@,
        },
{
    let encoded = value.as_bytes();
    match write_u32(bytes, encoded.len()) {
        Ok(_) => {},
        Err(error) => {
            return Err(error);
        },
    }
    bytes.extend_from_slice(encoded);
    assert(bytes@ =~= old(bytes)@ + text_bytes(value@));
    Ok(())
}

/// The bytes of numbers, four for each.
pub open spec fn words_bytes(words: Seq<u32>) -> Seq<u8>
    decreases words.len(),
{
    if words.len() == 0 {
        Seq::empty()
    } else {
        words_bytes(words.drop_last()) + le_bytes(words.last() as nat, 4)
    }
}

/// The bytes of a list of numbers.
pub open spec fn word_list_bytes(words: Seq<u32>) -> Seq<u8> {
    le_bytes(words.len(), 4) + words_bytes(words)
}

/// Append a list of numbers: their count, and four bytes for each.
pub fn write_words(bytes: &mut Vec<u8>, values: &Vec<u32>) -> (outcome: Result<(), IndexError>)
    ensures
        match outcome {
            Ok(_) => values@.len() <= u32::MAX && final(bytes)@ == old(bytes)@ + word_list_bytes(
                values@,
            ),
            Err(error) => values@.len() > u32::MAX && error@ == too_large() && final(bytes)@
                == old(bytes)@,
        },
{
    match write_u32(bytes, values.len()) {
        Ok(_) => {},
        Err(error) => {
            return Err(error);
        },
    }
    let ghost start = bytes@;
    let mut index: usize = 0;
    assert(start + words_bytes(values@.take(0)) =~= start);
    while index < values.len()
        invariant
            index <= values@.len(),
            bytes@ == start + words_bytes(values@.take(index as int)),
        decreases values@.len() - index,
    {
        write_number(bytes, values[index] as u64, 4);
        proof {
            let longer = values@.take(index + 1);
            assert(longer.drop_last() =~= values@.take(index as int));
            assert(longer.last() == values@[index as int]);
            assert(bytes@ =~= start + words_bytes(longer));
        }
        index = index + 1;
    }
    assert(values@.take(index as int) =~= values@);
    assert(bytes@ =~= old(bytes)@ + word_list_bytes(values@));
    Ok(())
}

/// The text that bytes hold, by std's `String::from_utf8`: it succeeds exactly on
/// UTF-8 and gives the characters that the bytes encode. What it says of other
/// bytes depends on the bytes alone.
#[verifier::external_body]
fn text_from_utf8(bytes: Vec<u8>) -> (text: Result<String, String>)
    ensures
        match text {
            Ok(text) => valid_utf8(bytes@) && text@ == decode_utf8(bytes@),
            Err(message) => !valid_utf8(bytes@) && message@ == utf8_error_text(bytes@),
        },
{
    String::from_utf8(bytes).map_err(|error| error.to_string())
}

/// Read `len` bytes.
pub fn read_bytes<'a>(bytes: &'a [u8], cursor: &mut usize, len: usize) -> (outcome: Result<
    &'a [u8],
    IndexError,
>)
    ensures
        match (outcome, bytes_at(bytes@, *old(cursor) as nat, len as nat)) {
            (Ok(slice), Ok((expected, end))) => slice@ == expected && *final(cursor) == end,
            (Err(error), Err(expected)) => error@ == expected && *final(cursor) == *old(
                cursor,
            ),
            _ => false,
        },
{
    let available: usize = bytes.len();
    let end: usize = match cursor.checked_add(len) {
        Some(end) => end,
        None => {
            return Err(truncated_error());
        },
    };
    if end > available {
        return Err(truncated_error());
    }
    let slice = vstd::slice::slice_subrange(bytes, *cursor, end);
    *cursor = end;
    Ok(slice)
}

fn read_number(bytes: &[u8], cursor: &mut usize, width: usize) -> (outcome: Result<u64, IndexError>)
    requires
        width <= 8,
    ensures
        match (outcome, number_at(bytes@, *old(cursor) as nat, width as nat)) {
            (Ok(value), Ok((expected, end))) => value == expected && *final(cursor) == end
                && expected < pow256(width as nat),
            (Err(error), Err(expected)) => error@ == expected && *final(cursor) == *old(
                cursor,
            ),
            _ => false,
        },
{
    let slice = match read_bytes(bytes, cursor, width) {
        Ok(slice) => slice,
        Err(error) => {
            return Err(error);
        },
    };
    let mut value: u64 = 0;
    let mut index: usize = width;
    assert(slice@.skip(width as int) =~= Seq::empty());
    while index > 0
        invariant
            width <= 8,
            slice@.len() == width,
            index <= width,
            value == le_value(slice@.skip(index as int)),
        decreases index,
    {
        proof {
            let tail = slice@.skip(index as int);
            let longer = slice@.skip(index - 1);
            assert(longer.drop_first() =~= tail);
            lemma_le_value_bound(longer);
            lemma_pow256_monotonic(longer.len(), 8);
            lemma_pow256_small();
        }
        index = index - 1;
        value = value * 256 + slice[index] as u64;
    }
    proof {
        assert(slice@.skip(0) =~= slice@);
        lemma_le_value_bound(slice@);
    }
    Ok(value)
}

/// Read a number of one byte.
pub fn read_u8(bytes: &[u8], cursor: &mut usize) -> (outcome: Result<u8, IndexError>)
    ensures
        match (outcome, number_at(bytes@, *old(cursor) as nat, 1)) {
            (Ok(value), Ok((expected, end))) => value == expected && *final(cursor) == end,
            (Err(error), Err(expected)) => error@ == expected && *final(cursor) == *old(
                cursor,
            ),
            _ => false,
        },
{
    proof {
        lemma_pow256_small();
    }
    match read_number(bytes, cursor, 1) {
        Ok(value) => Ok(value as u8),
        Err(error) => Err(error),
    }
}

/// Read a number of two bytes.
pub fn read_u16(bytes: &[u8], cursor: &mut usize) -> (outcome: Result<u16, IndexError>)
    ensures
        match (outcome, number_at(bytes@, *old(cursor) as nat, 2)) {
            (Ok(value), Ok((expected, end))) => value == expected && *final(cursor) == end,
            (Err(error), Err(expected)) => error@ == expected && *final(cursor) == *old(
                cursor,
            ),
            _ => false,
        },
{
    proof {
        lemma_pow256_small();
    }
    match read_number(bytes, cursor, 2) {
        Ok(value) => Ok(value as u16),
        Err(error) => Err(error),
    }
}

/// Read a number of four bytes.
pub fn read_u32(bytes: &[u8], cursor: &mut usize) -> (outcome: Result<u32, IndexError>)
    ensures
        match (outcome, number_at(bytes@, *old(cursor) as nat, 4)) {
            (Ok(value), Ok((expected, end))) => value == expected && *final(cursor) == end,
            (Err(error), Err(expected)) => error@ == expected && *final(cursor) == *old(
                cursor,
            ),
            _ => false,
        },
{
    proof {
        lemma_pow256_small();
    }
    match read_number(bytes, cursor, 4) {
        Ok(value) => Ok(value as u32),
        Err(error) => Err(error),
    }
}

/// Read a number of eight bytes.
pub fn read_u64(bytes: &[u8], cursor: &mut usize) -> (outcome: Result<u64, IndexError>)
    ensures
        match (outcome, number_at(bytes@, *old(cursor) as nat, 8)) {
            (Ok(value), Ok((expected, end))) => value == expected && *final(cursor) == end,
            (Err(error), Err(expected)) => error@ == expected && *final(cursor) == *old(
                cursor,
            ),
            _ => false,
        },
{
    read_number(bytes, cursor, 8)
}

/// Where reading stops at an optional number that cannot be read: behind its tag,
/// where there is one.
pub open spec fn optional_stop(bytes: Seq<u8>, at: nat) -> nat {
    match number_at(bytes, at, 1) {
        Ok((_, start)) => start,
        Err(_) => at,
    }
}

/// Read an optional number.
pub fn read_optional_u32(bytes: &[u8], cursor: &mut usize) -> (outcome: Result<
    Option<u32>,
    IndexError,
>)
    ensures
        match (outcome, optional_at(bytes@, *old(cursor) as nat)) {
            (Ok(value), Ok((expected, end))) => value == expected && *final(cursor) == end,
            (Err(error), Err(expected)) => error@ == expected && *final(cursor) == optional_stop(
                bytes@,
                *old(cursor) as nat,
            ),
            _ => false,
        },
{
    match read_u8(bytes, cursor) {
        Err(error) => Err(error),
        Ok(tag) => {
            if tag == 0 {
                Ok(None)
            } else if tag == 1 {
                match read_u32(bytes, cursor) {
                    Err(error) => Err(error),
                    Ok(value) => Ok(Some(value)),
                }
            } else {
                let mut message = "invalid optional u32 tag ".to_owned();
                message.append(&decimal_text(tag as u64));
                Err(invalid_data_error(message))
            }
        },
    }
}

/// Where reading stops at a text that cannot be read: behind its length, where the
/// data ends before its bytes do, and behind its bytes, where they are not UTF-8.
pub open spec fn text_stop(bytes: Seq<u8>, at: nat) -> nat {
    match number_at(bytes, at, 4) {
        Ok((len, start)) => match bytes_at(bytes, start, len) {
            Ok((_, end)) => end,
            Err(_) => start,
        },
        Err(_) => at,
    }
}

/// Read a text.
pub fn read_string(bytes: &[u8], cursor: &mut usize) -> (outcome: Result<String, IndexError>)
    ensures
        match (outcome, text_at(bytes@, *old(cursor) as nat)) {
            (Ok(value), Ok((expected, end))) => value@ == expected && *final(cursor) == end,
            (Err(error), Err(expected)) => error@ == expected && *final(cursor) == text_stop(
                bytes@,
                *old(cursor) as nat,
            ),
            _ => false,
        },
{
    let len: usize = match read_u32(bytes, cursor) {
        Ok(len) => len as usize,
        Err(error) => {
            return Err(error);
        },
    };
    let slice = match read_bytes(bytes, cursor, len) {
        Ok(slice) => slice,
        Err(error) => {
            return Err(error);
        },
    };
    match text_from_utf8(vstd::slice::slice_to_vec(slice)) {
        Ok(text) => Ok(text),
        Err(message) => Err(invalid_data_error(message)),
    }
}

proof fn lemma_words_error_stays(bytes: Seq<u8>, at: nat, early: nat, late: nat)
    requires
        early <= late,
        words_at(bytes, at, early) is Err,
    ensures
        words_at(bytes, at, late) == words_at(bytes, at, early),
    decreases late,
{
    if early < late {
        lemma_words_error_stays(bytes, at, early, (late - 1) as nat);
    }
}

/// Where reading stops at a list of numbers that cannot be read: behind the last
/// number that the data holds whole.
pub open spec fn words_stop(bytes: Seq<u8>, at: nat) -> nat {
    match number_at(bytes, at, 4) {
        Ok((_, start)) => start + (bytes.len() - start) as nat / 4 * 4,
        Err(_) => at,
    }
}

/// Read a list of numbers.
pub fn read_words(bytes: &[u8], cursor: &mut usize) -> (outcome: Result<Vec<u32>, IndexError>)
    ensures
        match (outcome, word_list_at(bytes@, *old(cursor) as nat)) {
            (Ok(value), Ok((expected, end))) => value@ == expected && *final(cursor) == end,
            (Err(error), Err(expected)) => error@ == expected && *final(cursor) == words_stop(
                bytes@,
                *old(cursor) as nat,
            ),
            _ => false,
        },
{
    let count: u32 = match read_u32(bytes, cursor) {
        Ok(count) => count,
        Err(error) => {
            return Err(error);
        },
    };
    let ghost start = *cursor as nat;
    let mut words: Vec<u32> = Vec::new();
    let mut index: u32 = 0;
    while index < count
        invariant
            index <= count,
            word_list_at(bytes@, *old(cursor) as nat) == words_at(bytes@, start, count as nat),
            words_at(bytes@, start, index as nat) == Ok::<(Seq<u32>, nat), ErrorModel>(
                (words@, *cursor as nat),
            ),
            number_at(bytes@, *old(cursor) as nat, 4) == Ok::<(nat, nat), ErrorModel>(
                (count as nat, start),
            ),
            *cursor == start + 4 * index,
            *cursor <= bytes@.len(),
        decreases count - index,
    {
        match read_u32(bytes, cursor) {
            Ok(word) => {
                words.push(word);
            },
            Err(error) => {
                proof {
                    lemma_words_error_stays(bytes@, start, (index + 1) as nat, count as nat);
                }
                return Err(error);
            },
        }
        index = index + 1;
    }
    Ok(words)
}

} // verus!
