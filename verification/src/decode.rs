//! The row decoder: one line, terminator excluded, read as headerless CSV.

use crate::error::CsvExtractError;
use crate::lines::{logical_lines, nonblank};
use vstd::prelude::*;

verus! {

#[verifier::external_type_specification]
#[verifier::external_body]
pub struct ExCsvError(csv::Error);

/// What decoding one line gave.
#[derive(Debug)]
pub enum Decoded {
    /// The line holds no record: it is skipped.
    Blank,
    /// The line holds one record, given field by field.
    Row(Vec<String>),
    /// The line does not decode. The reader's own diagnostic is kept.
    Malformed(csv::Error),
}

/// `Decoded` without the diagnostic, and with the fields as text.
pub enum Reading {
    Blank,
    Row(Seq<Seq<char>>),
    Malformed,
}

impl View for Decoded {
    type V = Reading;

    open spec fn view(&self) -> Reading {
        match self {
            Decoded::Blank => Reading::Blank,
            Decoded::Row(fields) => Reading::Row(fields.deep_view()),
            Decoded::Malformed(_) => Reading::Malformed,
        }
    }
}

/// What a headerless CSV reader makes of a line that is not empty, when asked
/// for its first record as a list of text fields.
pub uninterp spec fn csv_first_record(line: Seq<u8>) -> Reading;

/// What decoding `line` gives: nothing for an empty line, else what the CSV
/// reader makes of it.
pub open spec fn reading_of(line: Seq<u8>) -> Reading {
    if line.len() == 0 {
        Reading::Blank
    } else {
        csv_first_record(line)
    }
}

/// Reads the first record of `line` with `csv::ReaderBuilder` (headers off,
/// every other setting at its default) through `Reader::deserialize`.
///
/// Not proved: that an empty input gives no record (the reader reports the end
/// of its input before any record when it is handed nothing), and that on any
/// other input the outcome depends on the bytes alone, so that it can be named
/// `csv_first_record`.
#[verifier::external_body]
pub(crate) fn decode_line(line: &[u8]) -> (decoded: Decoded)
    ensures
        decoded@ == (if line@.len() == 0 {
            Reading::Blank
        } else {
            csv_first_record(line@)
        }),
{
    let mut reader = csv::ReaderBuilder::new().has_headers(false).from_reader(line);
    match reader.deserialize::<Vec<String>>().next() {
        None => Decoded::Blank,
        Some(Ok(fields)) => Decoded::Row(fields),
        Some(Err(err)) => Decoded::Malformed(err),
    }
}

/// The rows that a run of lines decodes to, in the order of the lines. Blank
/// lines give no row. `None` where some line does not decode: one malformed
/// line spoils them all.
pub open spec fn decode_lines(lines: Seq<Seq<u8>>) -> Option<Seq<Seq<Seq<char>>>>
    decreases lines.len(),
{
    if lines.len() == 0 {
        Some(Seq::empty())
    } else {
        match (decode_lines(lines.drop_last()), reading_of(lines.last())) {
            (Some(rows), Reading::Blank) => Some(rows),
            (Some(rows), Reading::Row(fields)) => Some(rows.push(fields)),
            _ => None,
        }
    }
}

/// The rows of two runs of lines, one after the other: both must decode.
pub open spec fn join_rows(
    left: Option<Seq<Seq<Seq<char>>>>,
    right: Option<Seq<Seq<Seq<char>>>>,
) -> Option<Seq<Seq<Seq<char>>>> {
    match (left, right) {
        (Some(first), Some(second)) => Some(first + second),
        _ => None,
    }
}

/// Lines decode one by one: the rows of a concatenation are the rows of its
/// parts, in order, unless either part holds a malformed line.
pub proof fn lemma_decode_lines_concat(left: Seq<Seq<u8>>, right: Seq<Seq<u8>>)
    ensures
        decode_lines(left + right) == join_rows(decode_lines(left), decode_lines(right)),
    decreases right.len(),
{
    if right.len() == 0 {
        assert(left + right =~= left);
        if decode_lines(left) is Some {
            assert(decode_lines(left)->Some_0 + Seq::<Seq<Seq<char>>>::empty() =~= decode_lines(
                left,
            )->Some_0);
        }
    } else {
        lemma_decode_lines_concat(left, right.drop_last());
        assert((left + right).drop_last() =~= left + right.drop_last());
        assert((left + right).last() == right.last());
        if decode_lines(left) is Some && decode_lines(right.drop_last()) is Some {
            let first = decode_lines(left)->Some_0;
            let second = decode_lines(right.drop_last())->Some_0;
            if reading_of(right.last()) is Row {
                let fields = reading_of(right.last())->Row_0;
                assert((first + second).push(fields) =~= first + second.push(fields));
            }
        }
    }
}

/// Blank lines give no row, so they can be left out before decoding.
pub proof fn lemma_decode_lines_skips_blank(lines: Seq<Seq<u8>>)
    ensures
        decode_lines(lines) == decode_lines(nonblank(lines)),
    decreases lines.len(),
{
    if lines.len() > 0 {
        lemma_decode_lines_skips_blank(lines.drop_last());
        if lines.last().len() > 0 {
            let kept = nonblank(lines.drop_last()).push(lines.last());
            assert(kept.drop_last() =~= nonblank(lines.drop_last()));
            assert(kept.last() == lines.last());
        }
    }
}

/// Where every line that holds bytes decodes to a row, the lines decode, and
/// to as many rows as there are such lines.
pub proof fn lemma_decode_lines_count(lines: Seq<Seq<u8>>)
    requires
        forall|i: int|
            0 <= i < lines.len() && lines[i].len() > 0 ==> reading_of(#[trigger] lines[i]) is Row,
    ensures
        decode_lines(lines) is Some,
        decode_lines(lines)->Some_0.len() == nonblank(lines).len(),
    decreases lines.len(),
{
    if lines.len() > 0 {
        let front = lines.drop_last();
        assert forall|i: int| 0 <= i < front.len() && front[i].len() > 0 implies reading_of(
            #[trigger] front[i],
        ) is Row by {
            assert(front[i] == lines[i]);
        }
        lemma_decode_lines_count(front);
        assert(lines.last() == lines[lines.len() - 1]);
    }
}

/// The rows of a whole body: those of its logical lines.
pub open spec fn body_rows(body: Seq<u8>) -> Option<Seq<Seq<Seq<char>>>> {
    decode_lines(logical_lines(body))
}

/// Takes in what decoding one line gave: a row is appended to `records`, a
/// blank line changes nothing, and a malformed line is the error
/// `Deserialize` with the reader's diagnostic.
pub fn collect(records: &mut Vec<Vec<String>>, decoded: Decoded) -> (kept: Result<(), CsvExtractError>)
    ensures
        match decoded {
            Decoded::Blank => kept is Ok && *final(records) == *old(records),
            Decoded::Row(fields) => kept is Ok && final(records)@ == old(records)@.push(fields)
                && final(records).deep_view() == old(records).deep_view().push(fields.deep_view()),
            Decoded::Malformed(err) => kept == Err::<(), CsvExtractError>(
                CsvExtractError::Deserialize(err),
            ) && *final(records) == *old(records),
        },
{
    match decoded {
        Decoded::Blank => Ok(()),
        Decoded::Row(fields) => {
            records.push(fields);
            assert(records.deep_view() =~= old(records).deep_view().push(fields.deep_view()));
            Ok(())
        },
        Decoded::Malformed(err) => Err(CsvExtractError::Deserialize(err)),
    }
}

} // verus!
