//! The two passes of encoding, and the size check between them.
//!
//! `compute_size` returns the encoded size and records the size of every
//! nested message in a [`SizeCache`]; `write_to` writes the bytes and takes the
//! sizes back out. The size is checked between the two passes, so a message
//! that is refused writes nothing.
use vstd::prelude::*;
use crate::buf;
use crate::buf::EncodeSink;
use crate::encoding;
use crate::encoding::encode_varint;
use crate::error::EncodeError;
use crate::size_cache::{SizeCache, INLINE_CAP};

verus! {

/// The largest encoded size of a protobuf message: 2 GiB - 1.
///
/// Decoding refuses a length-delimited payload declared larger than this, and
/// encoding refuses to write a message that is: its bytes could not be read
/// back.
pub const MAX_MESSAGE_BYTES: u32 = 0x7FFF_FFFF;

/// Saturate a `u64` size to `u32`.
///
/// A `compute_size` sums in `u64` and saturates once, at its return. The value
/// is exact for every size that fits, and a saturated one is over the limit.
pub fn saturate_size(size: u64) -> (saturated: u32)
    ensures
        size <= u32::MAX ==> saturated == size,
        size > u32::MAX ==> saturated == u32::MAX,
{
    if size <= u32::MAX as u64 {
        size as u32
    } else {
        u32::MAX
    }
}

/// Saturation never hides a message that is over the limit, nor makes one out
/// of a message that is within it.
pub proof fn law_saturation_keeps_the_limit(size: u64, saturated: u32)
    requires
        size <= u32::MAX ==> saturated == size,
        size > u32::MAX ==> saturated == u32::MAX,
    ensures
        saturated > MAX_MESSAGE_BYTES <==> size > MAX_MESSAGE_BYTES,
{
}

/// A size that is held to [`MAX_MESSAGE_BYTES`].
pub open spec fn checked_size(size: u32) -> Result<u32, EncodeError> {
    if size > MAX_MESSAGE_BYTES {
        Err(EncodeError::MessageTooLarge)
    } else {
        Ok(size)
    }
}

/// Hold a computed size to [`MAX_MESSAGE_BYTES`].
pub fn checked_encode_size(size: u32) -> (result: Result<u32, EncodeError>)
    ensures
        result == checked_size(size),
{
    if size > MAX_MESSAGE_BYTES {
        Err(EncodeError::MessageTooLarge)
    } else {
        Ok(size)
    }
}

/// The two passes of one encode agree on the byte count. There is nothing to
/// do at run time: a caller has to have proved the counts equal.
pub fn debug_assert_two_pass(written: usize, declared: usize)
    requires
        written == declared,
{
}

/// The two passes of an encoder.
///
/// An implementation visits its nested messages in the same order in both
/// passes: what `compute_size` reserves and sets, `write_to` consumes.
pub trait TwoPassEncode {
    /// The size that `compute_size` returns: nothing, unless an implementation
    /// says otherwise.
    open spec fn declared_size(&self) -> u32 {
        0
    }

    /// The sizes of the nested messages, in order of entry: none, unless an
    /// implementation says otherwise.
    open spec fn nested_sizes(&self) -> Seq<u32> {
        Seq::empty()
    }

    /// The bytes that `write_to` writes: none, unless an implementation says
    /// otherwise.
    open spec fn encoding(&self) -> Seq<u8> {
        Seq::empty()
    }

    /// Compute the encoded size, and record the size of every nested message.
    fn compute_size(&self, cache: &mut SizeCache) -> (size: u32)
        requires
            old(cache).wf(),
            old(cache).slots().len() + self.nested_sizes().len() <= u32::MAX,
        ensures
            size == self.declared_size(),
            final(cache).wf(),
            final(cache).slots() == old(cache).slots() + self.nested_sizes(),
            final(cache).consumed() == old(cache).consumed(),
            final(cache).allocated() == (old(cache).allocated() || final(cache).slots().len()
                > INLINE_CAP),
    ;

    /// Write the message, and consume the sizes that `compute_size` recorded.
    fn write_to<S: EncodeSink>(&self, cache: &mut SizeCache, buf: &mut S)
        requires
            old(cache).wf(),
            old(cache).consumed() + self.nested_sizes().len() <= old(cache).slots().len(),
            old(cache).slots().subrange(
                old(cache).consumed() as int,
                old(cache).consumed() + self.nested_sizes().len() as int,
            ) == self.nested_sizes(),
            buf::has_room(old(buf), self.encoding().len()),
        ensures
            final(cache).wf(),
            final(cache).slots() == old(cache).slots(),
            final(cache).consumed() == old(cache).consumed() + self.nested_sizes().len(),
            final(cache).allocated() == old(cache).allocated(),
            final(buf).written() == old(buf).written() + self.encoding(),
    ;
}

/// What an encode needs of the machine: the nested messages can be counted,
/// and the bytes fit in the sink if the message is within the limit.
pub open spec fn can_encode<T: TwoPassEncode + ?Sized, S: EncodeSink>(
    message: &T,
    extra: nat,
    sink: &S,
) -> bool {
    &&& message.nested_sizes().len() <= u32::MAX
    &&& message.declared_size() <= MAX_MESSAGE_BYTES ==> buf::has_room(
        sink,
        message.encoding().len() + extra,
    )
}

/// The size pass tells the truth about the write pass.
pub open spec fn two_pass_agree<T: TwoPassEncode + ?Sized>(message: &T) -> bool {
    message.declared_size() <= MAX_MESSAGE_BYTES ==> message.encoding().len()
        == message.declared_size()
}

/// After a size pass on a fresh cache, what is left to consume is what the
/// write pass asks for.
pub proof fn lemma_fresh_pass<T: TwoPassEncode + ?Sized>(message: &T, cache: &SizeCache)
    requires
        cache.slots() == Seq::<u32>::empty() + message.nested_sizes(),
        cache.consumed() == 0,
    ensures
        message.nested_sizes().len() == cache.slots().len(),
        cache.slots().subrange(0, message.nested_sizes().len() as int) == message.nested_sizes(),
{
    assert(cache.slots().subrange(0, message.nested_sizes().len() as int)
        =~= message.nested_sizes());
}

/// What an encode leaves in its cache: the sizes of the nested messages,
/// consumed if the message was written. The cache has an allocation if it had
/// one before, or if there are more sizes than it holds inline.
pub open spec fn cache_after<T: TwoPassEncode + ?Sized>(
    message: &T,
    before: &SizeCache,
    after: &SizeCache,
    written: bool,
) -> bool {
    &&& after.wf()
    &&& after.slots() == message.nested_sizes()
    &&& after.consumed() == if written {
        message.nested_sizes().len()
    } else {
        0
    }
    &&& after.allocated() == (before.allocated() || message.nested_sizes().len() > INLINE_CAP)
}

/// Encode `message` into `buf` if its size is within the protobuf limit and
/// within `max_bytes`, and return that size.
///
/// The cache is cleared first. On failure nothing is written.
pub(crate) fn encode_bounded<T: TwoPassEncode, S: EncodeSink>(
    message: &T,
    max_bytes: u32,
    cache: &mut SizeCache,
    buf: &mut S,
) -> (result: Result<u32, EncodeError>)
    requires
        can_encode(message, 0, old(buf)),
    ensures
        cache_after(message, old(cache), final(cache), result is Ok),
        bounded_encode(message, max_bytes, old(buf), final(buf), result),
{
    cache.clear();
    let size: u32 = message.compute_size(cache);
    assert(cache.slots() =~= message.nested_sizes());
    let len: u32 = match checked_encode_size(size) {
        Ok(len) => len,
        Err(e) => return Err(e),
    };
    if len > max_bytes {
        return Err(EncodeError::ExceedsBudget { len, max_bytes });
    }
    proof {
        lemma_fresh_pass(message, cache);
    }
    message.write_to(cache, buf);
    Ok(len)
}

/// What an encode under a budget comes to. The protobuf limit is tried first.
pub open spec fn bounded_encode<T: TwoPassEncode + ?Sized, S: EncodeSink>(
    message: &T,
    max_bytes: u32,
    before: &S,
    after: &S,
    result: Result<u32, EncodeError>,
) -> bool {
    let len = message.declared_size();
    if len > MAX_MESSAGE_BYTES {
        &&& result == Err::<u32, EncodeError>(EncodeError::MessageTooLarge)
        &&& after.written() == before.written()
    } else if len > max_bytes {
        &&& result == Err::<u32, EncodeError>(EncodeError::ExceedsBudget { len, max_bytes })
        &&& after.written() == before.written()
    } else {
        &&& result == Ok::<u32, EncodeError>(len)
        &&& after.written() == before.written() + message.encoding()
    }
}

/// What an encode without a budget comes to.
pub open spec fn plain_encode<T: TwoPassEncode + ?Sized, S: EncodeSink>(
    message: &T,
    before: &S,
    after: &S,
    result: Result<(), EncodeError>,
) -> bool {
    if message.declared_size() > MAX_MESSAGE_BYTES {
        &&& result == Err::<(), EncodeError>(EncodeError::MessageTooLarge)
        &&& after.written() == before.written()
    } else {
        &&& result == Ok::<(), EncodeError>(())
        &&& after.written() == before.written() + message.encoding()
    }
}

/// Encode `message` into `buf` if its size is within the protobuf limit.
///
/// The cache is cleared first. On failure nothing is written.
pub(crate) fn encode_plain<T: TwoPassEncode, S: EncodeSink>(
    message: &T,
    cache: &mut SizeCache,
    buf: &mut S,
) -> (result: Result<(), EncodeError>)
    requires
        can_encode(message, 0, old(buf)),
    ensures
        cache_after(message, old(cache), final(cache), result is Ok),
        plain_encode(message, old(buf), final(buf), result),
{
    match encode_bounded(message, u32::MAX, cache, buf) {
        Ok(_) => Ok(()),
        Err(e) => Err(e),
    }
}

/// What a length-delimited encode comes to: the size as a varint, then the
/// message.
pub open spec fn delimited_encode<T: TwoPassEncode + ?Sized, S: EncodeSink>(
    message: &T,
    before: &S,
    after: &S,
    result: Result<(), EncodeError>,
) -> bool {
    if message.declared_size() > MAX_MESSAGE_BYTES {
        &&& result == Err::<(), EncodeError>(EncodeError::MessageTooLarge)
        &&& after.written() == before.written()
    } else {
        &&& result == Ok::<(), EncodeError>(())
        &&& after.written() == before.written() + encoding::varint_bytes(
            message.declared_size() as nat,
        ) + message.encoding()
    }
}

/// Encode `message` into `buf` behind its size.
pub(crate) fn encode_delimited<T: TwoPassEncode, S: EncodeSink>(message: &T, buf: &mut S) -> (result:
    Result<(), EncodeError>)
    requires
        can_encode(message, encoding::varint_bytes(message.declared_size() as nat).len(), old(buf)),
    ensures
        delimited_encode(message, old(buf), final(buf), result),
{
    let mut cache = SizeCache::new();
    let len: u32 = match checked_encode_size(message.compute_size(&mut cache)) {
        Ok(len) => len,
        Err(e) => return Err(e),
    };
    encode_varint(len as u64, buf);
    proof {
        lemma_fresh_pass(message, &cache);
    }
    message.write_to(&mut cache, buf);
    Ok(())
}

} // verus!
