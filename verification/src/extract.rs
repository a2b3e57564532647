//! The extraction driver: one state machine per request, fed with what the
//! transport delivers, one event at a time.

use crate::admission::{
    admission, bytes_of, declared_length, parse_length, screen, text_of, DEFAULT_LIMIT,
};
use crate::budget::{budget_verdict, charge};
use crate::carry::carried;
use crate::decode::{
    collect, decode_line, decode_lines, lemma_decode_lines_concat, reading_of, Reading,
};
use crate::error::{CsvExtractError, Failure};
use crate::lines::{assemble, find_terminator, terminator_free, width_at};
use actix_web::error::PayloadError;
use bytes::BytesMut;
use vstd::prelude::*;
use vstd::slice::slice_subrange;

verus! {

/// The rows extracted from one body, in the order of their lines.
#[derive(Debug)]
pub struct Csv<T>(Vec<T>);

impl<T> View for Csv<T> {
    type V = Seq<T>;

    closed spec fn view(&self) -> Seq<T> {
        self.0@
    }
}

impl<T> Csv<T> {
    /// Hands out the rows.
    pub fn into_inner(self) -> (rows: Vec<T>)
        ensures
            rows@ == self@,
    {
        self.0
    }
}

/// The text of the rows of a collection.
pub open spec fn rows_of(csv: Csv<Vec<String>>) -> Seq<Seq<Seq<char>>> {
    Seq::new(csv@.len(), |i: int| csv@[i].deep_view())
}

/// The state of one extraction.
#[derive(Debug)]
pub enum CsvExtractFut {
    /// The request was refused at admission. Nothing is read.
    Rejected(CsvExtractError),
    /// The body is being read.
    Accumulating {
        /// The ceiling on the bytes of the body.
        limit: usize,
        /// The length that the client declared, if it declared one.
        length: Option<usize>,
        /// The bytes taken in so far.
        bytes_read: usize,
        /// The bytes of the line that is still open.
        buf: BytesMut,
        /// The rows decoded so far.
        records: Vec<Vec<String>>,
    },
}

/// An extraction under way, as plain values.
pub struct Progress {
    pub limit: usize,
    pub length: Option<usize>,
    pub bytes_read: usize,
    pub carry: Seq<u8>,
    pub rows: Seq<Seq<Seq<char>>>,
}

impl Progress {
    /// The budget holds, the open line lies within it, and no terminator
    /// stands in the open line.
    pub open spec fn wf(self) -> bool {
        &&& self.limit <= isize::MAX
        &&& self.bytes_read <= self.limit
        &&& self.length is Some ==> self.bytes_read <= self.length->Some_0
        &&& self.carry.len() <= self.bytes_read
        &&& terminator_free(self.carry)
    }

    /// The state in which reading starts.
    pub open spec fn start(limit: usize, length: Option<usize>) -> Progress {
        Progress { limit, length, bytes_read: 0, carry: Seq::empty(), rows: Seq::empty() }
    }
}

/// The state of an extraction, as plain values.
pub enum Stage {
    Rejected(Failure),
    Accumulating(Progress),
}

impl View for CsvExtractFut {
    type V = Stage;

    open spec fn view(&self) -> Stage {
        match self {
            CsvExtractFut::Rejected(err) => Stage::Rejected(err@),
            CsvExtractFut::Accumulating { limit, length, bytes_read, buf, records } => Stage::Accumulating(
                Progress {
                    limit: *limit,
                    length: *length,
                    bytes_read: *bytes_read,
                    carry: carried(*buf),
                    rows: records.deep_view(),
                },
            ),
        }
    }
}

/// What the transport delivered.
#[derive(Debug)]
pub enum Event<'a> {
    /// The next chunk of the body.
    Chunk(&'a [u8]),
    /// The body has ended.
    End,
    /// Reading the body failed.
    Broken(PayloadError),
}

/// An event, as plain values.
pub enum Signal {
    Chunk(Seq<u8>),
    End,
    Broken,
}

impl<'a> View for Event<'a> {
    type V = Signal;

    open spec fn view(&self) -> Signal {
        match self {
            Event::Chunk(chunk) => Signal::Chunk(chunk@),
            Event::End => Signal::End,
            Event::Broken(_) => Signal::Broken,
        }
    }
}

/// Where one event leaves the extraction.
#[derive(Debug)]
pub enum Step {
    /// More of the body is wanted.
    Pending(CsvExtractFut),
    /// The extraction is over: the rows, or the one error. Never both.
    Ready(Result<Csv<Vec<String>>, CsvExtractError>),
}

/// A step, as plain values.
pub enum Outcome {
    Pending(Stage),
    Complete(Seq<Seq<Seq<char>>>),
    Failed(Failure),
}

impl View for Step {
    type V = Outcome;

    open spec fn view(&self) -> Outcome {
        match self {
            Step::Pending(state) => Outcome::Pending(state@),
            Step::Ready(Ok(csv)) => Outcome::Complete(rows_of(*csv)),
            Step::Ready(Err(err)) => Outcome::Failed(err@),
        }
    }
}

/// Where a chunk leaves an extraction under way. The budget is charged first;
/// then the chunk is cut into lines and each closed line is decoded.
pub open spec fn after_chunk(state: Progress, chunk: Seq<u8>) -> Outcome {
    let cut = assemble(state.carry, chunk, 0);
    match budget_verdict(state.limit, state.length, state.bytes_read, chunk.len()) {
        Some(failure) => Outcome::Failed(failure),
        None => match decode_lines(cut.lines) {
            None => Outcome::Failed(Failure::Deserialize),
            Some(rows) => Outcome::Pending(
                Stage::Accumulating(
                    Progress {
                        bytes_read: (state.bytes_read + chunk.len()) as usize,
                        carry: cut.carry,
                        rows: state.rows + rows,
                        ..state
                    },
                ),
            ),
        },
    }
}

/// Where the end of the body leaves the open line `carry` and the rows
/// decoded so far: an open line that holds bytes is decoded as the last line.
pub open spec fn after_last_line(carry: Seq<u8>, rows: Seq<Seq<Seq<char>>>) -> Outcome {
    if carry.len() == 0 {
        Outcome::Complete(rows)
    } else {
        match reading_of(carry) {
            Reading::Blank => Outcome::Complete(rows),
            Reading::Row(fields) => Outcome::Complete(rows.push(fields)),
            Reading::Malformed => Outcome::Failed(Failure::Deserialize),
        }
    }
}

/// Where the end of the body leaves an extraction under way.
pub open spec fn after_end(state: Progress) -> Outcome {
    after_last_line(state.carry, state.rows)
}

/// Where an event leaves an extraction. A rejected one answers with its
/// rejection, whatever the event.
pub open spec fn after(stage: Stage, signal: Signal) -> Outcome {
    match stage {
        Stage::Rejected(failure) => Outcome::Failed(failure),
        Stage::Accumulating(state) => match signal {
            Signal::Chunk(chunk) => after_chunk(state, chunk),
            Signal::End => after_end(state),
            Signal::Broken => Outcome::Failed(Failure::Payload),
        },
    }
}

/// Where a whole delivery leaves an extraction under way: the chunks in the
/// order of their arrival, then the end of the body.
pub open spec fn run(state: Progress, chunks: Seq<Seq<u8>>) -> Outcome
    decreases chunks.len(),
{
    if chunks.len() == 0 {
        after_end(state)
    } else {
        match after_chunk(state, chunks.first()) {
            Outcome::Pending(Stage::Accumulating(next)) => run(next, chunks.drop_first()),
            over => over,
        }
    }
}

/// The leading chunks that fit, together, into `room` bytes.
pub open spec fn fitting(chunks: Seq<Seq<u8>>, room: nat) -> Seq<Seq<u8>>
    decreases chunks.len(),
{
    if chunks.len() == 0 || chunks.first().len() > room {
        Seq::empty()
    } else {
        seq![chunks.first()] + fitting(chunks.drop_first(), (room - chunks.first().len()) as nat)
    }
}

impl Outcome {
    /// The rows, where the extraction completed.
    pub open spec fn rows(self) -> Option<Seq<Seq<Seq<char>>>> {
        match self {
            Outcome::Complete(rows) => Some(rows),
            _ => None,
        }
    }

    /// A state that is handed on is well formed.
    pub open spec fn wf(self) -> bool {
        self matches Outcome::Pending(Stage::Accumulating(state)) ==> state.wf()
    }
}

impl CsvExtractFut {
    /// The invariant of the state: see `Progress::wf`.
    pub open spec fn wf(&self) -> bool {
        self@ matches Stage::Accumulating(state) ==> state.wf()
    }

    /// Tests the invariant, for callers that build or keep a state outside
    /// verified code.
    pub fn well_formed(&self) -> (yes: bool)
        ensures
            yes == self.wf(),
    {
        match self {
            CsvExtractFut::Rejected(_) => true,
            CsvExtractFut::Accumulating { limit, length, bytes_read, buf, records } => {
                let within = match length {
                    Some(length) => *bytes_read <= *length,
                    None => true,
                };
                let open: &[u8] = buf.as_ref();
                *limit <= isize::MAX as usize && *bytes_read <= *limit && within && open.len()
                    <= *bytes_read && find_terminator(open, 0) == open.len()
            },
        }
    }

    /// Decides on the admission of a request. `content_type` and
    /// `content_length` are the values of the two headers, where present.
    /// A length that does not read as a number counts as not declared.
    pub fn new(content_type: Option<&str>, content_length: Option<&str>) -> (state: Self)
        ensures
            state.wf(),
            state@ == Self::initial(
                text_of(content_type),
                match bytes_of(content_length) {
                    Some(text) => declared_length(text),
                    None => None,
                },
            ),
    {
        let length = match content_length {
            Some(text) => parse_length(text.as_bytes()),
            None => None,
        };
        let limit = DEFAULT_LIMIT;
        match screen(content_type, length, limit) {
            Err(err) => CsvExtractFut::Rejected(err),
            Ok(()) => {
                let records: Vec<Vec<String>> = Vec::new();
                assert(records.deep_view() =~= Seq::empty());
                CsvExtractFut::Accumulating {
                    limit,
                    length,
                    bytes_read: 0,
                    buf: BytesMut::with_capacity(8192),
                    records,
                }
            },
        }
    }

    /// The state that admission leaves for a content type and a declared
    /// length, under the default limit.
    pub open spec fn initial(content_type: Option<Seq<char>>, length: Option<usize>) -> Stage {
        match admission(content_type, length, DEFAULT_LIMIT) {
            Some(failure) => Stage::Rejected(failure),
            None => Stage::Accumulating(Progress::start(DEFAULT_LIMIT, length)),
        }
    }

    /// The first step, taken before anything is read: a rejected request ends
    /// here with its error, any other goes on unchanged.
    pub fn begin(self) -> (step: Step)
        ensures
            match self {
                CsvExtractFut::Rejected(err) => step == Step::Ready(Err(err)),
                _ => step == Step::Pending(self),
            },
    {
        match self {
            CsvExtractFut::Rejected(err) => Step::Ready(Err(err)),
            state => Step::Pending(state),
        }
    }

    /// Takes one event and says where it leaves the extraction.
    pub fn advance(self, event: Event<'_>) -> (step: Step)
        requires
            self.wf(),
        ensures
            step@ == after(self@, event@),
            step@.wf(),
            self matches CsvExtractFut::Rejected(err) ==> step == Step::Ready(Err(err)),
            self is Accumulating ==> (event matches Event::Broken(err) ==> step == Step::Ready(
                Err(CsvExtractError::Payload(err)),
            )),
    {
        match self {
            CsvExtractFut::Rejected(err) => Step::Ready(Err(err)),
            CsvExtractFut::Accumulating { limit, length, bytes_read, buf, records } => match event {
                Event::Chunk(chunk) => take_chunk(limit, length, bytes_read, buf, records, chunk),
                Event::End => take_end(buf, records),
                Event::Broken(err) => Step::Ready(Err(CsvExtractError::Payload(err))),
            },
        }
    }
}

/// Charges the budget for `chunk`, then closes and decodes every line that
/// ends in it and keeps the rest for the next chunk.
#[verifier::loop_isolation(false)]
fn take_chunk(
    limit: usize,
    length: Option<usize>,
    bytes_read: usize,
    buf: BytesMut,
    records: Vec<Vec<String>>,
    chunk: &[u8],
) -> (step: Step)
    requires
        (CsvExtractFut::Accumulating { limit, length, bytes_read, buf, records }).wf(),
    ensures
        step@ == after_chunk(
            Progress { limit, length, bytes_read, carry: carried(buf), rows: records.deep_view() },
            chunk@,
        ),
        step@.wf(),
{
    let mut buf = buf;
    let mut records = records;
    let projected = match charge(limit, length, bytes_read, chunk.len()) {
        Err(err) => {
            return Step::Ready(Err(err));
        },
        Ok(total) => total,
    };
    let ghost carry = carried(buf);
    let ghost rows = records.deep_view();
    let ghost mut closed: Seq<Seq<u8>> = Seq::empty();
    let ghost mut decoded: Seq<Seq<Seq<char>>> = Seq::empty();
    let len = chunk.len();
    let mut pos: usize = 0;
    while pos < len
        invariant
            len == chunk@.len(),
            pos <= len,
            projected <= limit <= isize::MAX,
            carried(buf).len() + (len - pos) <= projected,
            terminator_free(carried(buf)),
            assemble(carry, chunk@, 0).lines == closed + assemble(carried(buf), chunk@, pos as int).lines,
            assemble(carry, chunk@, 0).carry == assemble(carried(buf), chunk@, pos as int).carry,
            decode_lines(closed) == Some(decoded),
            records.deep_view() == rows + decoded,
        decreases len - pos,
    {
        let at = find_terminator(chunk, pos);
        let ghost before = carried(buf);
        buf.extend_from_slice(slice_subrange(chunk, pos, at));
        if at < len {
            let width = width_at(chunk, at);
            let ghost line = carried(buf);
            let reading = decode_line(buf.as_ref());
            buf.clear();
            proof {
                let rest = assemble(Seq::empty(), chunk@, at + width);
                assert(assemble(before, chunk@, pos as int).lines == seq![line] + rest.lines);
                assert(closed + (seq![line] + rest.lines) =~= closed.push(line) + rest.lines);
                assert(closed.push(line).drop_last() =~= closed);
                assert(carried(buf) =~= Seq::<u8>::empty());
            }
            match collect(&mut records, reading) {
                Err(err) => {
                    proof {
                        assert(reading_of(line) is Malformed);
                        assert(decode_lines(closed.push(line)) is None);
                        lemma_decode_lines_concat(
                            closed.push(line),
                            assemble(Seq::empty(), chunk@, at + width).lines,
                        );
                    }
                    return Step::Ready(Err(err));
                },
                Ok(()) => {},
            }
            proof {
                if reading@ is Row {
                    decoded = decoded.push(reading@->Row_0);
                    assert(rows + decoded =~= (rows + decoded.drop_last()).push(reading@->Row_0));
                }
                closed = closed.push(line);
            }
            pos = at + width;
        } else {
            pos = at;
        }
    }
    proof {
        assert(closed + Seq::<Seq<u8>>::empty() =~= closed);
    }
    Step::Pending(CsvExtractFut::Accumulating { limit, length, bytes_read: projected, buf, records })
}

/// Ends the extraction: an open line that holds bytes is the last line.
fn take_end(buf: BytesMut, records: Vec<Vec<String>>) -> (step: Step)
    ensures
        step@ == after_last_line(carried(buf), records.deep_view()),
{
    let mut records = records;
    if buf.len() > 0 {
        let reading = decode_line(buf.as_ref());
        match collect(&mut records, reading) {
            Err(err) => {
                return Step::Ready(Err(err));
            },
            Ok(()) => {},
        }
    }
    let csv = Csv(records);
    assert(rows_of(csv) =~= records.deep_view());
    Step::Ready(Ok(csv))
}

} // verus!
