//! Byte cursors and byte sinks over the `bytes` crate.
//!
//! Input is read from a `&[u8]` that shrinks from the front, which is how the
//! `bytes` crate implements its `Buf` trait for a slice. Output goes to an
//! [`EncodeSink`]: a growable buffer that encoders append to.
use vstd::prelude::*;

verus! {

/// Bytes left to read: `bytes::Buf::remaining` on a slice, which is the
/// slice's length.
#[verifier::external_body]
pub(crate) fn remaining(buf: &&[u8]) -> (n: usize)
    ensures
        n == buf@.len(),
{
    bytes::Buf::remaining(buf)
}

/// Skip `cnt` bytes: `bytes::Buf::advance` on a slice, which drops that many
/// bytes from its front. It panics past the end, which `requires` rules out.
#[verifier::external_body]
pub(crate) fn advance(buf: &mut &[u8], cnt: usize)
    requires
        cnt <= old(buf)@.len(),
    ensures
        final(buf)@ == old(buf)@.skip(cnt as int),
{
    bytes::Buf::advance(buf, cnt)
}

/// Read one byte: `bytes::Buf::get_u8` on a slice, which returns the first
/// byte and drops it. It panics on an empty slice, which `requires` rules out.
#[verifier::external_body]
pub(crate) fn get_u8(buf: &mut &[u8]) -> (b: u8)
    requires
        old(buf)@.len() > 0,
    ensures
        b == old(buf)@[0],
        final(buf)@ == old(buf)@.skip(1),
{
    bytes::Buf::get_u8(buf)
}

/// `bytes::BytesMut`, a growable byte buffer.
#[verifier::external_type_specification]
#[verifier::external_body]
pub struct ExBytesMut(bytes::BytesMut);

/// `bytes::Bytes`, an immutable byte string that is cheap to clone.
#[verifier::external_type_specification]
#[verifier::external_body]
pub struct ExBytes(bytes::Bytes);

/// The bytes that a `BytesMut` holds.
pub uninterp spec fn bytes_mut_contents(buf: bytes::BytesMut) -> Seq<u8>;

/// The bytes that a `Bytes` holds.
pub uninterp spec fn bytes_contents(buf: bytes::Bytes) -> Seq<u8>;

/// `bytes::BytesMut::with_capacity`: an empty buffer. It panics on a capacity
/// above `isize::MAX`, which `requires` rules out.
#[verifier::external_body]
pub(crate) fn bytes_mut_with_capacity(capacity: usize) -> (buf: bytes::BytesMut)
    requires
        capacity <= isize::MAX,
    ensures
        bytes_mut_contents(buf) == Seq::<u8>::empty(),
{
    bytes::BytesMut::with_capacity(capacity)
}

/// `bytes::BytesMut::extend_from_slice`: appends `src`. It panics when the
/// buffer would pass `isize::MAX` bytes, which `requires` rules out.
#[verifier::external_body]
pub(crate) fn bytes_mut_extend_from_slice(buf: &mut bytes::BytesMut, src: &[u8])
    requires
        bytes_mut_contents(*old(buf)).len() + src@.len() <= isize::MAX,
    ensures
        bytes_mut_contents(*final(buf)) == bytes_mut_contents(*old(buf)) + src@,
{
    buf.extend_from_slice(src)
}

/// `bytes::BytesMut::len`: the number of bytes held.
#[verifier::external_body]
pub(crate) fn bytes_mut_len(buf: &bytes::BytesMut) -> (n: usize)
    ensures
        n == bytes_mut_contents(*buf).len(),
{
    buf.len()
}

/// `bytes::BytesMut::freeze`: an immutable byte string with the same bytes.
#[verifier::external_body]
pub(crate) fn bytes_mut_freeze(buf: bytes::BytesMut) -> (frozen: bytes::Bytes)
    ensures
        bytes_contents(frozen) == bytes_mut_contents(buf),
{
    buf.freeze()
}

/// A growable byte buffer that encoders append to.
pub trait EncodeSink {
    /// The bytes appended so far, after whatever the sink held at the start.
    spec fn written(&self) -> Seq<u8>;

    /// Append `src`.
    fn put_slice(&mut self, src: &[u8])
        requires
            old(self).written().len() + src@.len() <= isize::MAX,
        ensures
            final(self).written() == old(self).written() + src@,
    ;
}

/// `n` more bytes keep the sink within the largest allocation the platform
/// allows.
pub open spec fn has_room<S: EncodeSink + ?Sized>(sink: &S, n: nat) -> bool {
    sink.written().len() + n <= isize::MAX
}

impl EncodeSink for Vec<u8> {
    open spec fn written(&self) -> Seq<u8> {
        self@
    }

    fn put_slice(&mut self, src: &[u8]) {
        self.extend_from_slice(src);
    }
}

impl EncodeSink for bytes::BytesMut {
    open spec fn written(&self) -> Seq<u8> {
        bytes_mut_contents(*self)
    }

    fn put_slice(&mut self, src: &[u8]) {
        bytes_mut_extend_from_slice(self, src);
    }
}

} // verus!
