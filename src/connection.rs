use crate::command::{decode_at, lemma_find_crlf_bounds, scan, CmdError, Decoded, Frame, Scan};
use bytes::{Buf, BytesMut};
use vstd::prelude::*;

verus! {

#[verifier::external_type_specification]
#[verifier::external_body]
pub struct ExBytesMut(BytesMut);

/// The bytes that a `BytesMut` holds, in order.
pub uninterp spec fn buffered(b: BytesMut) -> Seq<u8>;

/// Relies on `BytesMut::with_capacity`: the new buffer holds no bytes (the capacity
/// is only reserved). It panics past `isize::MAX`.
#[verifier::external_body]
fn bytes_with_capacity(capacity: usize) -> (r: BytesMut)
    requires
        capacity <= isize::MAX,
    ensures
        buffered(r) == Seq::<u8>::empty(),
{
    BytesMut::with_capacity(capacity)
}

/// Relies on `BytesMut::extend_from_slice`: the bytes are appended after those held.
#[verifier::external_body]
fn bytes_extend(b: &mut BytesMut, data: &[u8])
    requires
        buffered(*old(b)).len() + data@.len() <= isize::MAX,
    ensures
        buffered(*final(b)) == buffered(*old(b)) + data@,
{
    b.extend_from_slice(data)
}

/// Relies on `Buf::advance` for `BytesMut`: the first `cnt` bytes are dropped. It
/// panics when `cnt` exceeds the bytes held.
#[verifier::external_body]
fn bytes_advance(b: &mut BytesMut, cnt: usize)
    requires
        cnt <= buffered(*old(b)).len(),
    ensures
        buffered(*final(b)) == buffered(*old(b)).skip(cnt as int),
{
    b.advance(cnt)
}

/// Relies on `Deref` for `BytesMut`: the slice of the bytes held.
#[verifier::external_body]
fn bytes_slice(b: &BytesMut) -> (r: &[u8])
    ensures
        r@ == buffered(*b),
{
    &b[..]
}

/// The capacity that a connection's read buffer starts with.
pub const READ_BUFFER_CAPACITY: usize = 4096;

/// The bytes read from a connection's stream that no frame has consumed yet.
pub struct ReadBuffer {
    buffer: BytesMut,
}

impl View for ReadBuffer {
    type V = Seq<u8>;

    closed spec fn view(&self) -> Seq<u8> {
        buffered(self.buffer)
    }
}

impl ReadBuffer {
    pub fn new() -> (r: ReadBuffer)
        ensures
            r@ == Seq::<u8>::empty(),
    {
        ReadBuffer { buffer: bytes_with_capacity(READ_BUFFER_CAPACITY) }
    }

    pub fn len(&self) -> (r: usize)
        ensures
            r == self@.len(),
    {
        bytes_slice(&self.buffer).len()
    }

    pub fn is_empty(&self) -> (r: bool)
        ensures
            r == (self@.len() == 0),
    {
        bytes_slice(&self.buffer).len() == 0
    }

    /// Appends bytes that were read from the stream.
    pub fn receive(&mut self, data: &[u8])
        requires
            old(self)@.len() + data@.len() <= isize::MAX,
        ensures
            final(self)@ == old(self)@ + data@,
    {
        bytes_extend(&mut self.buffer, data)
    }

    /// Takes the first frame out of the buffer, if a whole one has arrived. A
    /// partial frame stays buffered (`Ok(None)`); a protocol violation is an error.
    pub fn parse_frame(&mut self) -> (r: Result<Option<Frame>, CmdError>)
        ensures
            match decode_at(old(self)@, 0) {
                Decoded::Incomplete => r == Ok::<Option<Frame>, CmdError>(None) && final(self)@
                    == old(self)@,
                Decoded::Invalid => r matches Err(CmdError::Other(_)) && final(self)@ == old(
                    self,
                )@,
                Decoded::Complete(f, end) => {
                    &&& r matches Ok(Some(fr)) && fr@ == f
                    &&& final(self)@ == old(self)@.skip(end)
                },
            },
    {
        let buf = bytes_slice(&self.buffer);
        proof {
            lemma_find_crlf_bounds(buf@, 1);
        }
        let mut pos: usize = 0;
        match Frame::check(buf, &mut pos) {
            Ok(()) => {
                let len = pos;
                let mut start: usize = 0;
                let frame = Frame::parse(buf, &mut start)?;
                bytes_advance(&mut self.buffer, len);
                Ok(Some(frame))
            },
            Err(CmdError::Incomplete) => Ok(None),
            Err(other) => Err(other),
        }
    }

    /// The message of the error for a peer that closed in the middle of a frame.
    pub open spec fn reset_text() -> Seq<char> {
        "connection reset by peer"@
    }

    /// Decides what a zero-length read means: the peer closed cleanly when nothing
    /// is buffered, and in the middle of a frame otherwise.
    pub fn end_of_stream(&self) -> (r: Result<(), CmdError>)
        ensures
            self@.len() == 0 ==> r is Ok,
            self@.len() != 0 ==> (r matches Err(CmdError::Other(m)) && m@ == Self::reset_text()),
    {
        if self.is_empty() {
            Ok(())
        } else {
            Err(CmdError::Other("connection reset by peer".to_owned()))
        }
    }
}

} // verus!
