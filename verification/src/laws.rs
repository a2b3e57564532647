//! What holds of every extraction, whatever the body and however the
//! transport cuts it into chunks.

use crate::admission::{accepted_content_type, DEFAULT_LIMIT};
use crate::budget::{budget_verdict, within_budget};
use crate::decode::{
    body_rows, decode_lines, join_rows, lemma_decode_lines_concat, lemma_decode_lines_count,
    lemma_decode_lines_skips_blank, reading_of,
};
use crate::error::Failure;
use crate::extract::{
    after, after_chunk, after_end, fitting, run, CsvExtractFut, Outcome, Progress, Signal, Stage,
};
use crate::lines::{
    assemble, is_terminator, lemma_assemble_is_scan, lemma_scan_concat, lemma_scan_shape,
    logical_lines, nonblank, scan,
};
use vstd::prelude::*;

verus! {

/// `state` is where the bytes `seen` leave an extraction that decoded every
/// line closed so far.
spec fn tracks(state: Progress, seen: Seq<u8>) -> bool {
    &&& state.wf()
    &&& state.bytes_read == seen.len()
    &&& state.carry == scan(Seq::empty(), seen).carry
    &&& decode_lines(scan(Seq::empty(), seen).lines) == Some(state.rows)
}

/// The rows that the lines closed within `seen` decode to.
spec fn closed_rows(seen: Seq<u8>) -> Option<Seq<Seq<Seq<char>>>> {
    decode_lines(scan(Seq::empty(), seen).lines)
}

/// The lines closed within a prefix are the first of those closed within the
/// whole, so a malformed line among them spoils the whole.
proof fn lemma_closed_rows_prefix(seen: Seq<u8>, more: Seq<u8>)
    ensures
        closed_rows(seen) is None ==> closed_rows(seen + more) is None,
        closed_rows(seen + more) == join_rows(
            closed_rows(seen),
            decode_lines(scan(scan(Seq::empty(), seen).carry, more).lines),
        ),
{
    lemma_scan_concat(Seq::empty(), seen, more);
    lemma_decode_lines_concat(
        scan(Seq::empty(), seen).lines,
        scan(scan(Seq::empty(), seen).carry, more).lines,
    );
}

/// The rows of a body are the rows of the lines closed within it, and then
/// the row of the line left open, where that line holds bytes.
proof fn lemma_body_rows(body: Seq<u8>)
    ensures
        body_rows(body) == (if scan(Seq::empty(), body).carry.len() == 0 {
            closed_rows(body)
        } else {
            decode_lines(scan(Seq::empty(), body).lines.push(scan(Seq::empty(), body).carry))
        }),
{
    let cut = assemble(Seq::empty(), body, 0);
    let read = scan(Seq::empty(), body);
    lemma_assemble_is_scan(Seq::empty(), body, 0);
    assert(body.subrange(0, body.len() as int) =~= body);
    lemma_scan_shape(Seq::empty(), body);
    lemma_decode_lines_skips_blank(cut.lines);
    if cut.carry.len() > 0 {
        assert(cut.lines.push(cut.carry).drop_last() =~= cut.lines);
        assert(read.lines.push(read.carry).drop_last() =~= read.lines);
    }
}

/// One chunk, seen from the body: the budget decides first, then the lines
/// closed so far; a state that goes on tracks the longer prefix.
proof fn lemma_step(state: Progress, seen: Seq<u8>, chunk: Seq<u8>)
    requires
        tracks(state, seen),
    ensures
        match budget_verdict(state.limit, state.length, state.bytes_read, chunk.len()) {
            Some(failure) => after_chunk(state, chunk) == Outcome::Failed(failure),
            None => match closed_rows(seen + chunk) {
                None => after_chunk(state, chunk) == Outcome::Failed(Failure::Deserialize),
                Some(rows) => after_chunk(state, chunk) matches Outcome::Pending(
                    Stage::Accumulating(next),
                ) && tracks(next, seen + chunk) && next.limit == state.limit && next.length
                    == state.length,
            },
        },
{
    let cut = assemble(state.carry, chunk, 0);
    let read = scan(state.carry, chunk);
    lemma_assemble_is_scan(state.carry, chunk, 0);
    assert(chunk.subrange(0, chunk.len() as int) =~= chunk);
    lemma_scan_shape(state.carry, chunk);
    lemma_decode_lines_skips_blank(cut.lines);
    lemma_closed_rows_prefix(seen, chunk);
    lemma_scan_concat(Seq::empty(), seen, chunk);
}

/// The end of the body, seen from the body.
proof fn lemma_end(state: Progress, seen: Seq<u8>)
    requires
        tracks(state, seen),
    ensures
        after_end(state) == (match body_rows(seen) {
            Some(rows) => Outcome::Complete(rows),
            None => Outcome::Failed(Failure::Deserialize),
        }),
{
    lemma_body_rows(seen);
    let read = scan(Seq::empty(), seen);
    if read.carry.len() > 0 {
        assert(read.lines.push(read.carry).drop_last() =~= read.lines);
    }
}

/// A malformed line closed within a prefix of the body spoils the body.
proof fn lemma_prefix_spoils_body(seen: Seq<u8>, more: Seq<u8>)
    requires
        closed_rows(seen) is None,
    ensures
        body_rows(seen + more) is None,
{
    let body = seen + more;
    lemma_closed_rows_prefix(seen, more);
    lemma_body_rows(body);
    let read = scan(Seq::empty(), body);
    if read.carry.len() > 0 {
        assert(read.lines.push(read.carry).drop_last() =~= read.lines);
    }
}

/// The whole delivery, from a state that tracks what was seen so far.
proof fn lemma_run(state: Progress, seen: Seq<u8>, chunks: Seq<Seq<u8>>)
    requires
        tracks(state, seen),
    ensures
        !(run(state, chunks) is Pending),
        run(state, chunks) is Complete <==> within_budget(
            state.limit,
            state.length,
            (seen + chunks.flatten()).len(),
        ) && body_rows(seen + chunks.flatten()) is Some,
        run(state, chunks) is Complete ==> run(state, chunks)->Complete_0 == body_rows(
            seen + chunks.flatten(),
        )->Some_0,
        within_budget(state.limit, state.length, (seen + chunks.flatten()).len()) && body_rows(
            seen + chunks.flatten(),
        ) is None ==> run(state, chunks) == Outcome::Failed(Failure::Deserialize),
    decreases chunks.len(),
{
    if chunks.len() == 0 {
        assert(seen + chunks.flatten() =~= seen);
        lemma_end(state, seen);
    } else {
        let chunk = chunks.first();
        let rest = chunks.drop_first();
        assert(seen + chunks.flatten() =~= (seen + chunk) + rest.flatten());
        lemma_step(state, seen, chunk);
        if budget_verdict(state.limit, state.length, state.bytes_read, chunk.len()) is None {
            if closed_rows(seen + chunk) is None {
                lemma_prefix_spoils_body(seen + chunk, rest.flatten());
            } else {
                let next = after_chunk(state, chunk)->Pending_0->Accumulating_0;
                lemma_run(next, seen + chunk, rest);
            }
        }
    }
}

/// Reading starts in a state that tracks the empty body.
proof fn lemma_start_tracks(limit: usize, length: Option<usize>)
    requires
        limit <= isize::MAX,
    ensures
        tracks(Progress::start(limit, length), Seq::empty()),
{
}

/// The rows of an extraction are those of the body, in the order of its
/// lines, however the body is cut into chunks. An extraction completes if and
/// only if the body stays within the budget and none of its logical lines is
/// malformed; a malformed line in a body within the budget is the error
/// `Deserialize`, and no row is handed out.
pub proof fn law_rows_are_those_of_the_body(
    limit: usize,
    length: Option<usize>,
    chunks: Seq<Seq<u8>>,
)
    requires
        limit <= isize::MAX,
    ensures
        !(run(Progress::start(limit, length), chunks) is Pending),
        run(Progress::start(limit, length), chunks) is Complete <==> within_budget(
            limit,
            length,
            chunks.flatten().len(),
        ) && body_rows(chunks.flatten()) is Some,
        run(Progress::start(limit, length), chunks) is Complete ==> run(
            Progress::start(limit, length),
            chunks,
        )->Complete_0 == body_rows(chunks.flatten())->Some_0,
        within_budget(limit, length, chunks.flatten().len()) && body_rows(chunks.flatten()) is None
            ==> run(Progress::start(limit, length), chunks) == Outcome::Failed(Failure::Deserialize),
{
    lemma_start_tracks(limit, length);
    lemma_run(Progress::start(limit, length), Seq::empty(), chunks);
    assert(Seq::<u8>::empty() + chunks.flatten() =~= chunks.flatten());
}

/// Chunk boundaries do not show in the result: two deliveries of the same
/// body, cut into chunks in any two ways (byte by byte and all at once among
/// them), both complete or both fail, and where they complete they give the
/// same rows.
pub proof fn law_chunking_is_immaterial(
    limit: usize,
    length: Option<usize>,
    one: Seq<Seq<u8>>,
    other: Seq<Seq<u8>>,
)
    requires
        limit <= isize::MAX,
        one.flatten() == other.flatten(),
    ensures
        run(Progress::start(limit, length), one).rows() == run(
            Progress::start(limit, length),
            other,
        ).rows(),
{
    law_rows_are_those_of_the_body(limit, length, one);
    law_rows_are_those_of_the_body(limit, length, other);
}

/// A body within the budget whose every logical line that holds bytes
/// decodes to a row gives as many rows as it has such lines.
pub proof fn law_one_row_for_each_line(limit: usize, length: Option<usize>, chunks: Seq<Seq<u8>>)
    requires
        limit <= isize::MAX,
        within_budget(limit, length, chunks.flatten().len()),
        forall|i: int|
            0 <= i < logical_lines(chunks.flatten()).len() && logical_lines(
                chunks.flatten(),
            )[i].len() > 0 ==> reading_of(#[trigger] logical_lines(chunks.flatten())[i]) is Row,
    ensures
        run(Progress::start(limit, length), chunks) is Complete,
        run(Progress::start(limit, length), chunks)->Complete_0.len() == nonblank(
            logical_lines(chunks.flatten()),
        ).len(),
{
    lemma_decode_lines_count(logical_lines(chunks.flatten()));
    law_rows_are_those_of_the_body(limit, length, chunks);
}

/// A terminator after the last byte of a body changes nothing in its rows.
pub proof fn law_trailing_terminator_adds_nothing(body: Seq<u8>, terminator: u8)
    requires
        is_terminator(terminator),
    ensures
        body_rows(body.push(terminator)) == body_rows(body),
{
    let longer = body.push(terminator);
    lemma_body_rows(body);
    lemma_body_rows(longer);
    assert(longer.drop_last() =~= body);
    assert(longer.last() == terminator);
}

/// Two deliveries whose bodies differ by one trailing terminator end alike,
/// where the longer one stays within the budget.
pub proof fn law_trailing_terminator_is_optional(
    limit: usize,
    length: Option<usize>,
    without: Seq<Seq<u8>>,
    with: Seq<Seq<u8>>,
    terminator: u8,
)
    requires
        limit <= isize::MAX,
        is_terminator(terminator),
        with.flatten() == without.flatten().push(terminator),
        within_budget(limit, length, with.flatten().len()),
    ensures
        run(Progress::start(limit, length), with) == run(Progress::start(limit, length), without),
{
    law_trailing_terminator_adds_nothing(without.flatten(), terminator);
    law_rows_are_those_of_the_body(limit, length, with);
    law_rows_are_those_of_the_body(limit, length, without);
}

/// Reading nothing but terminators closes no line that holds bytes.
proof fn lemma_scan_terminators(body: Seq<u8>)
    requires
        forall|i: int| 0 <= i < body.len() ==> is_terminator(#[trigger] body[i]),
    ensures
        scan(Seq::empty(), body).lines == Seq::<Seq<u8>>::empty(),
        scan(Seq::empty(), body).carry == Seq::<u8>::empty(),
    decreases body.len(),
{
    if body.len() > 0 {
        let front = body.drop_last();
        assert forall|i: int| 0 <= i < front.len() implies is_terminator(#[trigger] front[i]) by {
            assert(front[i] == body[i]);
        }
        lemma_scan_terminators(front);
        assert(body.last() == body[body.len() - 1]);
    }
}

/// A body made of terminators alone, the empty body among them, gives no
/// rows: the extraction completes with an empty collection.
pub proof fn law_terminators_alone_give_no_rows(
    limit: usize,
    length: Option<usize>,
    chunks: Seq<Seq<u8>>,
)
    requires
        limit <= isize::MAX,
        within_budget(limit, length, chunks.flatten().len()),
        forall|i: int|
            0 <= i < chunks.flatten().len() ==> is_terminator(#[trigger] chunks.flatten()[i]),
    ensures
        run(Progress::start(limit, length), chunks) == Outcome::Complete(Seq::empty()),
{
    lemma_scan_terminators(chunks.flatten());
    lemma_body_rows(chunks.flatten());
    law_rows_are_those_of_the_body(limit, length, chunks);
}

/// The error that a body too large for its budget ends in.
pub open spec fn overflow_of(limit: usize, length: Option<usize>) -> Failure {
    match length {
        Some(length) => Failure::OverflowKnownLength { length },
        None => Failure::Overflow { limit },
    }
}

/// The bytes that a body may hold: the declared length, or the limit where
/// none was declared.
pub open spec fn room_of(limit: usize, length: Option<usize>) -> nat {
    match length {
        Some(length) => length as nat,
        None => limit as nat,
    }
}

/// The whole delivery of a body that breaks the budget.
proof fn lemma_run_over(state: Progress, seen: Seq<u8>, chunks: Seq<Seq<u8>>)
    requires
        tracks(state, seen),
        state.length is Some ==> state.length->Some_0 <= state.limit,
        seen.len() + chunks.flatten().len() > room_of(state.limit, state.length),
    ensures
        run(state, chunks) == (if closed_rows(
            seen + fitting(
                chunks,
                (room_of(state.limit, state.length) - seen.len()) as nat,
            ).flatten(),
        ) is Some {
            Outcome::Failed(overflow_of(state.limit, state.length))
        } else {
            Outcome::Failed(Failure::Deserialize)
        }),
    decreases chunks.len(),
{
    let room = (room_of(state.limit, state.length) - seen.len()) as nat;
    if chunks.len() == 0 {
    } else {
        let chunk = chunks.first();
        let rest = chunks.drop_first();
        lemma_step(state, seen, chunk);
        if chunk.len() > room {
            assert(fitting(chunks, room) =~= Seq::<Seq<u8>>::empty());
            assert(seen + fitting(chunks, room).flatten() =~= seen);
        } else {
            let fit = fitting(rest, (room - chunk.len()) as nat);
            assert(fitting(chunks, room) == seq![chunk] + fit);
            assert((seq![chunk] + fit).first() == chunk);
            assert((seq![chunk] + fit).drop_first() =~= fit);
            assert(seen + fitting(chunks, room).flatten() =~= (seen + chunk) + fit.flatten());
            if closed_rows(seen + chunk) is None {
                lemma_closed_rows_prefix(seen + chunk, fit.flatten());
            } else {
                let next = after_chunk(state, chunk)->Pending_0->Accumulating_0;
                lemma_run_over(next, seen + chunk, rest);
            }
        }
    }
}

/// A body larger than its budget fails, however it is cut into chunks. Where
/// a length was declared the error is `OverflowKnownLength`, whether or not
/// the limit would have allowed the larger size; where none was declared it
/// is `Overflow`. Only a malformed line comes before it: one that is closed
/// by the chunks that arrive while the budget still holds is reported as
/// `Deserialize` instead.
pub proof fn law_budget_is_enforced(limit: usize, length: Option<usize>, chunks: Seq<Seq<u8>>)
    requires
        limit <= isize::MAX,
        length is Some ==> length->Some_0 <= limit,
        chunks.flatten().len() > room_of(limit, length),
    ensures
        run(Progress::start(limit, length), chunks) == (if decode_lines(
            assemble(Seq::empty(), fitting(chunks, room_of(limit, length)).flatten(), 0).lines,
        ) is Some {
            Outcome::Failed(overflow_of(limit, length))
        } else {
            Outcome::Failed(Failure::Deserialize)
        }),
{
    let fit = fitting(chunks, room_of(limit, length)).flatten();
    lemma_start_tracks(limit, length);
    lemma_run_over(Progress::start(limit, length), Seq::empty(), chunks);
    assert(Seq::<u8>::empty() + chunks.flatten() =~= chunks.flatten());
    assert(Seq::<u8>::empty() + fit =~= fit);
    lemma_assemble_is_scan(Seq::empty(), fit, 0);
    assert(fit.subrange(0, fit.len() as int) =~= fit);
    lemma_scan_shape(Seq::empty(), fit);
    lemma_decode_lines_skips_blank(assemble(Seq::empty(), fit, 0).lines);
}

/// A declared length above the limit is refused with `TooLong` before any
/// byte is read: whatever the transport delivers, the answer is that error.
pub proof fn law_too_long_is_refused_unread(length: usize, signal: Signal)
    requires
        length > DEFAULT_LIMIT,
    ensures
        CsvExtractFut::initial(Some(accepted_content_type()), Some(length)) == Stage::Rejected(
            Failure::TooLong { length, limit: DEFAULT_LIMIT },
        ),
        after(CsvExtractFut::initial(Some(accepted_content_type()), Some(length)), signal)
            == Outcome::Failed(Failure::TooLong { length, limit: DEFAULT_LIMIT }),
{
}

} // verus!
