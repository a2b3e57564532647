//! Line terminators and the rule by which a chunk is cut into lines.

use vstd::prelude::*;

verus! {

/// Line feed.
pub const LF: u8 = 0x0a;

/// Carriage return.
pub const CR: u8 = 0x0d;

/// A byte that ends a line: `\n` or `\r`.
pub open spec fn is_terminator(byte: u8) -> bool {
    byte == LF || byte == CR
}

/// No byte of `bytes` ends a line.
pub open spec fn terminator_free(bytes: Seq<u8>) -> bool {
    forall|i: int| 0 <= i < bytes.len() ==> !is_terminator(#[trigger] bytes[i])
}

/// The position of the first terminator of `bytes` at or after `from`, or the
/// length of `bytes` when there is none.
pub open spec fn first_terminator(bytes: Seq<u8>, from: int) -> int
    decreases bytes.len() - from,
{
    if from >= bytes.len() {
        bytes.len() as int
    } else if 0 <= from && is_terminator(bytes[from]) {
        from
    } else {
        first_terminator(bytes, from + 1)
    }
}

/// How many bytes the terminator at `at` takes: two for `\r` directly followed
/// by `\n` within `bytes`, one otherwise.
pub open spec fn terminator_width(bytes: Seq<u8>, at: int) -> int {
    if 0 <= at && at + 1 < bytes.len() && bytes[at] == CR && bytes[at + 1] == LF {
        2
    } else {
        1
    }
}

/// What one chunk does to the line under construction: the lines it closes, in
/// order, and the unterminated rest that is carried over.
pub struct Assembled {
    pub lines: Seq<Seq<u8>>,
    pub carry: Seq<u8>,
}

/// Cuts `chunk`, read from position `from`, into lines. The first line closed
/// starts with `carry`, the bytes left over from earlier chunks.
pub open spec fn assemble(carry: Seq<u8>, chunk: Seq<u8>, from: int) -> Assembled
    decreases chunk.len() - from,
{
    let at = first_terminator(chunk, from);
    if from < 0 || from >= chunk.len() {
        Assembled { lines: Seq::empty(), carry }
    } else if at >= chunk.len() {
        Assembled { lines: Seq::empty(), carry: carry + chunk.subrange(from, chunk.len() as int) }
    } else {
        proof {
            lemma_first_terminator(chunk, from);
        }
        let rest = assemble(Seq::empty(), chunk, at + terminator_width(chunk, at));
        Assembled {
            lines: seq![carry + chunk.subrange(from, at)] + rest.lines,
            carry: rest.carry,
        }
    }
}

/// `first_terminator` is the least position at or after `from` that holds a
/// terminator.
pub proof fn lemma_first_terminator(bytes: Seq<u8>, from: int)
    requires
        0 <= from <= bytes.len(),
    ensures
        from <= first_terminator(bytes, from) <= bytes.len(),
        forall|i: int| from <= i < first_terminator(bytes, from) ==> !is_terminator(#[trigger] bytes[i]),
        first_terminator(bytes, from) < bytes.len() ==> is_terminator(
            bytes[first_terminator(bytes, from)],
        ),
    decreases bytes.len() - from,
{
    if from < bytes.len() && !is_terminator(bytes[from]) {
        lemma_first_terminator(bytes, from + 1);
    }
}

/// The logical lines of a whole body: what is closed when the body is cut as
/// one chunk, and after that the unterminated rest, where it holds bytes.
pub open spec fn logical_lines(body: Seq<u8>) -> Seq<Seq<u8>> {
    let cut = assemble(Seq::empty(), body, 0);
    if cut.carry.len() > 0 {
        cut.lines.push(cut.carry)
    } else {
        cut.lines
    }
}

/// The lines of `lines` that hold at least one byte, in order.
pub open spec fn nonblank(lines: Seq<Seq<u8>>) -> Seq<Seq<u8>>
    decreases lines.len(),
{
    if lines.len() == 0 {
        Seq::empty()
    } else if lines.last().len() > 0 {
        nonblank(lines.drop_last()).push(lines.last())
    } else {
        nonblank(lines.drop_last())
    }
}

/// `bytes` read one byte at a time: every terminator closes the open line,
/// and an open line without bytes closes nothing. So `\r\n` closes one line
/// and then nothing, wherever a chunk boundary falls.
pub open spec fn scan(carry: Seq<u8>, bytes: Seq<u8>) -> Assembled
    decreases bytes.len(),
{
    if bytes.len() == 0 {
        Assembled { lines: Seq::empty(), carry }
    } else {
        let before = scan(carry, bytes.drop_last());
        if is_terminator(bytes.last()) {
            Assembled {
                lines: if before.carry.len() > 0 {
                    before.lines.push(before.carry)
                } else {
                    before.lines
                },
                carry: Seq::empty(),
            }
        } else {
            Assembled { lines: before.lines, carry: before.carry.push(bytes.last()) }
        }
    }
}

/// Keeping the lines that hold bytes goes through concatenation.
pub proof fn lemma_nonblank_concat(left: Seq<Seq<u8>>, right: Seq<Seq<u8>>)
    ensures
        nonblank(left + right) == nonblank(left) + nonblank(right),
    decreases right.len(),
{
    if right.len() == 0 {
        assert(left + right =~= left);
        assert(nonblank(left) + nonblank(right) =~= nonblank(left));
    } else {
        lemma_nonblank_concat(left, right.drop_last());
        assert((left + right).drop_last() =~= left + right.drop_last());
        assert((left + right).last() == right.last());
        if right.last().len() > 0 {
            assert((nonblank(left) + nonblank(right.drop_last())).push(right.last()) =~= nonblank(left)
                + nonblank(right.drop_last()).push(right.last()));
        }
    }
}

/// Every line that `scan` closes holds bytes, and the line it leaves open
/// holds no terminator.
pub proof fn lemma_scan_shape(carry: Seq<u8>, bytes: Seq<u8>)
    ensures
        nonblank(scan(carry, bytes).lines) == scan(carry, bytes).lines,
        terminator_free(carry) ==> terminator_free(scan(carry, bytes).carry),
        scan(carry, bytes).carry.len() <= carry.len() + bytes.len(),
    decreases bytes.len(),
{
    if bytes.len() > 0 {
        lemma_scan_shape(carry, bytes.drop_last());
        let before = scan(carry, bytes.drop_last());
        if is_terminator(bytes.last()) && before.carry.len() > 0 {
            assert(before.lines.push(before.carry).drop_last() =~= before.lines);
        }
    }
}

/// Reading byte by byte can stop anywhere and go on from what is carried.
pub proof fn lemma_scan_concat(carry: Seq<u8>, left: Seq<u8>, right: Seq<u8>)
    ensures
        scan(carry, left + right).lines == scan(carry, left).lines + scan(
            scan(carry, left).carry,
            right,
        ).lines,
        scan(carry, left + right).carry == scan(scan(carry, left).carry, right).carry,
    decreases right.len(),
{
    let first = scan(carry, left);
    if right.len() == 0 {
        assert(left + right =~= left);
        assert(first.lines + Seq::<Seq<u8>>::empty() =~= first.lines);
    } else {
        lemma_scan_concat(carry, left, right.drop_last());
        assert((left + right).drop_last() =~= left + right.drop_last());
        assert((left + right).last() == right.last());
        let second = scan(first.carry, right.drop_last());
        if is_terminator(right.last()) && second.carry.len() > 0 {
            assert((first.lines + second.lines).push(second.carry) =~= first.lines
                + second.lines.push(second.carry));
        }
    }
}

/// Bytes without a terminator only lengthen the open line.
pub proof fn lemma_scan_open(carry: Seq<u8>, bytes: Seq<u8>)
    requires
        terminator_free(bytes),
    ensures
        scan(carry, bytes).lines == Seq::<Seq<u8>>::empty(),
        scan(carry, bytes).carry == carry + bytes,
    decreases bytes.len(),
{
    if bytes.len() == 0 {
        assert(carry + bytes =~= carry);
    } else {
        let front = bytes.drop_last();
        assert(terminator_free(front)) by {
            assert forall|i: int| 0 <= i < front.len() implies !is_terminator(#[trigger] front[i]) by {
                assert(front[i] == bytes[i]);
            }
        }
        lemma_scan_open(carry, front);
        assert(!is_terminator(bytes.last())) by {
            assert(bytes.last() == bytes[bytes.len() - 1]);
        }
        assert((carry + front).push(bytes.last()) =~= carry + bytes);
    }
}

/// Cutting a chunk into lines closes, blank lines aside, the lines that
/// reading it byte by byte closes, and carries the same bytes over.
pub proof fn lemma_assemble_is_scan(carry: Seq<u8>, chunk: Seq<u8>, from: int)
    requires
        0 <= from <= chunk.len(),
    ensures
        nonblank(assemble(carry, chunk, from).lines) == nonblank(
            scan(carry, chunk.subrange(from, chunk.len() as int)).lines,
        ),
        assemble(carry, chunk, from).carry == scan(
            carry,
            chunk.subrange(from, chunk.len() as int),
        ).carry,
    decreases chunk.len() - from,
{
    let len = chunk.len() as int;
    let tail = chunk.subrange(from, len);
    let at = first_terminator(chunk, from);
    lemma_first_terminator(chunk, from);
    if from >= len {
        assert(tail =~= Seq::<u8>::empty());
    } else if at >= len {
        assert(terminator_free(tail)) by {
            assert forall|i: int| 0 <= i < tail.len() implies !is_terminator(#[trigger] tail[i]) by {
                assert(tail[i] == chunk[from + i]);
            }
        }
        lemma_scan_open(carry, tail);
    } else {
        let width = terminator_width(chunk, at);
        let next = at + width;
        let stretch = chunk.subrange(from, at);
        let line = carry + stretch;
        let rest = assemble(Seq::empty(), chunk, next);
        lemma_assemble_is_scan(Seq::empty(), chunk, next);
        let head = chunk.subrange(from, next);
        let after = chunk.subrange(next, len);
        assert(tail =~= head + after);
        lemma_scan_concat(carry, head, after);
        // What the bytes up to and including the terminator close.
        assert(terminator_free(stretch)) by {
            assert forall|i: int| 0 <= i < stretch.len() implies !is_terminator(
                #[trigger] stretch[i],
            ) by {
                assert(stretch[i] == chunk[from + i]);
            }
        }
        lemma_scan_open(carry, stretch);
        let upto = chunk.subrange(from, at + 1);
        assert(upto.drop_last() =~= stretch);
        assert(upto.last() == chunk[at]);
        let closed = scan(carry, upto);
        assert(closed.carry =~= Seq::<u8>::empty());
        assert(closed.lines =~= if line.len() > 0 {
            seq![line]
        } else {
            Seq::<Seq<u8>>::empty()
        });
        if width == 2 {
            assert(head.drop_last() =~= upto);
            assert(head.last() == chunk[at + 1]);
            assert(scan(carry, head).carry =~= Seq::<u8>::empty());
            assert(scan(carry, head).lines =~= closed.lines);
        } else {
            assert(head =~= upto);
        }
        assert(nonblank(seq![line]) =~= scan(carry, head).lines) by {
            assert(seq![line].drop_last() =~= Seq::<Seq<u8>>::empty());
            assert(seq![line].last() == line);
            assert(nonblank(Seq::<Seq<u8>>::empty()) =~= Seq::<Seq<u8>>::empty());
        }
        lemma_nonblank_concat(seq![line], rest.lines);
        lemma_scan_shape(carry, head);
        lemma_nonblank_concat(scan(carry, head).lines, scan(Seq::<u8>::empty(), after).lines);
    }
}

/// Tells whether `byte` ends a line.
pub fn ends_line(byte: u8) -> (yes: bool)
    ensures
        yes == is_terminator(byte),
{
    byte == LF || byte == CR
}

/// Scans `chunk` from `from` for the first terminator. Returns its position,
/// or the length of `chunk` when none is left.
pub fn find_terminator(chunk: &[u8], from: usize) -> (at: usize)
    ensures
        at == first_terminator(chunk@, from as int),
        at <= chunk@.len(),
        from <= chunk@.len() ==> from <= at,
        forall|i: int| from <= i < at ==> !is_terminator(#[trigger] chunk@[i]),
        at < chunk@.len() ==> is_terminator(chunk@[at as int]),
{
    let len = chunk.len();
    if from >= len {
        return len;
    }
    let mut at: usize = from;
    while at < len && !ends_line(chunk[at])
        invariant
            len == chunk@.len(),
            from <= at <= len,
            first_terminator(chunk@, from as int) == first_terminator(chunk@, at as int),
            forall|i: int| from <= i < at ==> !is_terminator(#[trigger] chunk@[i]),
        decreases len - at,
    {
        at = at + 1;
    }
    at
}

/// The width of the terminator found at `at`: 2 for `\r\n` lying within
/// `chunk`, else 1.
pub fn width_at(chunk: &[u8], at: usize) -> (width: usize)
    ensures
        width == terminator_width(chunk@, at as int),
{
    let len = chunk.len();
    if at < len && len - at >= 2 && chunk[at] == CR && chunk[at + 1] == LF {
        2
    } else {
        1
    }
}

} // verus!
