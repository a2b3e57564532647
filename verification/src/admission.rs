//! Admission: what is decided from the headers alone, before any
//! byte of the body is read.

use crate::error::{CsvExtractError, Failure};
use vstd::prelude::*;
use vstd::string::StringSliceAdditionalSpecFns;
use vstd::utf8::encode_utf8_decode_utf8;

verus! {

/// The ceiling on the size of a body, in bytes: 2 MiB.
pub const DEFAULT_LIMIT: usize = 2_097_152;

/// The one content type that is accepted, to the letter.
pub open spec fn accepted_content_type() -> Seq<char> {
    "text/csv; charset=utf-8"@
}

/// An ASCII decimal digit.
pub open spec fn is_digit(byte: u8) -> bool {
    0x30 <= byte <= 0x39
}

/// The number that a digit stands for; zero for any other byte.
pub open spec fn digit_value(byte: u8) -> nat {
    if is_digit(byte) {
        (byte - 0x30) as nat
    } else {
        0
    }
}

/// Every byte of `text` is a decimal digit.
pub open spec fn all_digits(text: Seq<u8>) -> bool {
    forall|i: int| 0 <= i < text.len() ==> is_digit(#[trigger] text[i])
}

/// The number that a run of decimal digits reads as, most significant first.
pub open spec fn decimal_value(digits: Seq<u8>) -> nat
    decreases digits.len(),
{
    if digits.len() == 0 {
        0
    } else {
        decimal_value(digits.drop_last()) * 10 + digit_value(digits.last())
    }
}

/// `text` without the one `+` that may lead it.
pub open spec fn unsigned_part(text: Seq<u8>) -> Seq<u8> {
    if text.len() > 0 && text[0] == 0x2b {
        text.skip(1)
    } else {
        text
    }
}

/// The length that a `Content-Length` value declares: the number it spells in
/// decimal, after an optional `+`, where it is made of digits alone, holds at
/// least one and fits the machine word. Anything else declares no length.
pub open spec fn declared_length(text: Seq<u8>) -> Option<usize> {
    let digits = unsigned_part(text);
    if digits.len() > 0 && all_digits(digits) && decimal_value(digits) <= usize::MAX {
        Some(decimal_value(digits) as usize)
    } else {
        None
    }
}

/// The answer at admission: the rejection, or `None` for a body that may be
/// read. The content type is looked at first.
pub open spec fn admission(content_type: Option<Seq<char>>, length: Option<usize>, limit: usize) -> Option<
    Failure,
> {
    if content_type != Some(accepted_content_type()) {
        Some(Failure::ContentType)
    } else if length is Some && length->Some_0 > limit {
        Some(Failure::TooLong { length: length->Some_0, limit })
    } else {
        None
    }
}

/// The text of a header that may be absent.
pub open spec fn text_of(header: Option<&str>) -> Option<Seq<char>> {
    match header {
        Some(value) => Some(value@),
        None => None,
    }
}

/// The bytes of a header that may be absent.
pub open spec fn bytes_of(header: Option<&str>) -> Option<Seq<u8>> {
    match header {
        Some(value) => Some(value.spec_bytes()),
        None => None,
    }
}

/// A longer run of digits does not read as a smaller number.
proof fn lemma_decimal_value_grows(digits: Seq<u8>, upto: int)
    requires
        0 <= upto <= digits.len(),
    ensures
        decimal_value(digits.take(upto)) <= decimal_value(digits),
    decreases digits.len() - upto,
{
    if upto == digits.len() {
        assert(digits.take(upto) =~= digits);
    } else {
        lemma_decimal_value_grows(digits.drop_last(), upto);
        assert(digits.drop_last().take(upto) =~= digits.take(upto));
    }
}

/// Tells whether two byte strings are the same.
fn same_bytes(left: &[u8], right: &[u8]) -> (same: bool)
    ensures
        same == (left@ == right@),
{
    if left.len() != right.len() {
        return false;
    }
    let mut i: usize = 0;
    while i < left.len()
        invariant
            left@.len() == right@.len(),
            i <= left@.len(),
            forall|j: int| 0 <= j < i ==> left@[j] == right@[j],
        decreases left@.len() - i,
    {
        if left[i] != right[i] {
            return false;
        }
        i = i + 1;
    }
    assert(left@ =~= right@);
    true
}

/// Tells whether `content_type` is the accepted one: the same text, with no
/// allowance for case, spacing or further parameters.
pub fn is_accepted(content_type: &str) -> (yes: bool)
    ensures
        yes == (content_type@ == accepted_content_type()),
{
    let wanted = "text/csv; charset=utf-8";
    let same = same_bytes(content_type.as_bytes(), wanted.as_bytes());
    proof {
        encode_utf8_decode_utf8(content_type@);
        encode_utf8_decode_utf8(wanted@);
    }
    same
}

/// Reads a `Content-Length` value. See `declared_length`.
pub fn parse_length(text: &[u8]) -> (length: Option<usize>)
    ensures
        length == declared_length(text@),
{
    let len = text.len();
    let start: usize = if len > 0 && text[0] == 0x2b {
        1
    } else {
        0
    };
    let ghost digits = unsigned_part(text@);
    assert(digits =~= text@.subrange(start as int, len as int));
    if start == len {
        return None;
    }
    let mut value: usize = 0;
    let mut i: usize = start;
    while i < len
        invariant
            len == text@.len(),
            start <= i <= len,
            digits == unsigned_part(text@),
            digits == text@.subrange(start as int, len as int),
            all_digits(digits.take(i - start)),
            value == decimal_value(digits.take(i - start)),
        decreases len - i,
    {
        let byte = text[i];
        let ghost seen = digits.take(i - start + 1);
        assert(seen.drop_last() =~= digits.take(i - start));
        assert(seen.last() == byte);
        if byte < 0x30 || byte > 0x39 {
            assert(!is_digit(digits[i - start]));
            return None;
        }
        let digit: usize = (byte - 0x30) as usize;
        proof {
            lemma_decimal_value_grows(digits, i - start + 1);
        }
        let next = match value.checked_mul(10) {
            Some(tens) => tens.checked_add(digit),
            None => None,
        };
        match next {
            Some(sum) => {
                value = sum;
            },
            None => {
                return None;
            },
        }
        i = i + 1;
    }
    assert(digits.take(i - start) =~= digits);
    Some(value)
}

/// Decides, from the headers alone, whether the body is read at all.
pub fn screen(content_type: Option<&str>, length: Option<usize>, limit: usize) -> (verdict: Result<
    (),
    CsvExtractError,
>)
    ensures
        admission(text_of(content_type), length, limit) is None ==> verdict is Ok,
        admission(text_of(content_type), length, limit) is Some ==> verdict is Err
            && verdict->Err_0@ == admission(text_of(content_type), length, limit)->Some_0,
{
    match content_type {
        None => {
            return Err(CsvExtractError::ContentType);
        },
        Some(value) => {
            if !is_accepted(value) {
                return Err(CsvExtractError::ContentType);
            }
        },
    }
    if let Some(length) = length {
        if length > limit {
            return Err(CsvExtractError::TooLong { length, limit });
        }
    }
    Ok(())
}

} // verus!
