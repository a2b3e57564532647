//! The carry-over buffer: a `bytes::BytesMut` that holds the bytes of the line
//! that no terminator has closed yet.
//!
//! Nothing in this file is proved. Each item states, of one method of
//! `BytesMut`, what the source of the `bytes` crate shows it to do.

use bytes::BytesMut;
use vstd::prelude::*;

verus! {

#[verifier::external_type_specification]
#[verifier::external_body]
pub struct ExBytesMut(BytesMut);

/// The bytes that a buffer holds, first to last.
pub uninterp spec fn carried(buf: BytesMut) -> Seq<u8>;

/// `BytesMut::with_capacity` gives a buffer of length zero, whatever capacity
/// is asked for.
pub assume_specification[ BytesMut::with_capacity ](capacity: usize) -> (buf: BytesMut)
    ensures
        carried(buf) == Seq::<u8>::empty(),
;

/// `BytesMut::len` is the number of bytes held.
pub assume_specification[ BytesMut::len ](buf: &BytesMut) -> (len: usize)
    ensures
        len == carried(*buf).len(),
;

/// `BytesMut::extend_from_slice` appends `extend` to what the buffer holds. It
/// reserves room first, which panics once the length would pass `isize::MAX`.
pub assume_specification[ BytesMut::extend_from_slice ](buf: &mut BytesMut, extend: &[u8])
    requires
        carried(*old(buf)).len() + extend@.len() <= isize::MAX,
    ensures
        carried(*final(buf)) == carried(*old(buf)) + extend@,
;

/// `BytesMut::clear` sets the length to zero.
pub assume_specification[ BytesMut::clear ](buf: &mut BytesMut)
    ensures
        carried(*final(buf)) == Seq::<u8>::empty(),
;

/// `BytesMut` as a byte slice: the bytes held, in order.
pub assume_specification[ <BytesMut as core::convert::AsRef<[u8]>>::as_ref ](buf: &BytesMut) -> (bytes: &[u8])
    ensures
        bytes@ == carried(*buf),
;

} // verus!
