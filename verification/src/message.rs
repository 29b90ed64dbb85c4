//! The [`Message`] trait, and the traits of message views.
use vstd::prelude::*;
use crate::buf;
use crate::buf::EncodeSink;
use crate::context::{
    DecodeContext, DEFAULT_ELEMENT_MEMORY_LIMIT, DEFAULT_UNKNOWN_FIELD_LIMIT, RECURSION_LIMIT,
};
use crate::encoding;
use crate::error::{DecodeError, EncodeError};
use crate::merge;
use crate::merge::FieldMerge;
use crate::size_cache::SizeCache;
use crate::two_pass;
use crate::two_pass::{
    checked_encode_size, debug_assert_two_pass, encode_bounded, encode_delimited, encode_plain,
    TwoPassEncode, MAX_MESSAGE_BYTES,
};

verus! {

/// The limits of a decode that sets none of its own.
pub open spec fn default_limits() -> DecodeContext {
    DecodeContext::limits(
        RECURSION_LIMIT,
        DEFAULT_UNKNOWN_FIELD_LIMIT,
        Some(DEFAULT_ELEMENT_MEMORY_LIMIT),
    )
}

/// The limits of a decode that sets none of its own.
fn default_context() -> (ctx: DecodeContext)
    ensures
        ctx == default_limits(),
{
    proof {
        DecodeContext::lemma_limits_of(RECURSION_LIMIT, DEFAULT_UNKNOWN_FIELD_LIMIT, None);
    }
    DecodeContext::new(RECURSION_LIMIT, DEFAULT_UNKNOWN_FIELD_LIMIT).with_element_memory(
        DEFAULT_ELEMENT_MEMORY_LIMIT,
    )
}

/// Decoding all of `input` under the limits `ctx` may leave `rest` and return
/// `result`: a default message, with every field of the input merged into it.
pub open spec fn decoded<M: FieldMerge>(
    input: Seq<u8>,
    ctx: DecodeContext,
    rest: Seq<u8>,
    result: Result<M, DecodeError>,
) -> bool {
    exists|start: M, after: merge::MergeState<M>, merged: Result<(), DecodeError>|
        {
            &&& #[trigger] merge::merged_to_limit(merge::at(start, input, ctx), 0, after, merged)
            &&& call_ensures(<M as Default>::default, (), start)
            &&& rest == after.rest
            &&& outcome(after.msg, merged, result)
        }
}

/// Decoding a message of at most `max` bytes behind its length may leave
/// `rest` and return `result`.
pub open spec fn decoded_delimited<M: FieldMerge>(
    input: Seq<u8>,
    max: nat,
    ctx: DecodeContext,
    rest: Seq<u8>,
    result: Result<M, DecodeError>,
) -> bool {
    exists|start: M, after: merge::MergeState<M>, merged: Result<(), DecodeError>|
        {
            &&& #[trigger] merge::merged_delimited(merge::at(start, input, ctx), max, after, merged)
            &&& call_ensures(<M as Default>::default, (), start)
            &&& rest == after.rest
            &&& outcome(after.msg, merged, result)
        }
}

/// A decode returns the message that it merged into, or the error that stopped
/// it.
pub open spec fn outcome<M>(
    msg: M,
    merged: Result<(), DecodeError>,
    result: Result<M, DecodeError>,
) -> bool {
    match merged {
        Ok(()) => result == Ok::<M, DecodeError>(msg),
        Err(e) => result == Err::<M, DecodeError>(e),
    }
}

/// Decode all of `buf` into a new message, under the limits `ctx`.
pub(crate) fn decode_all<M: FieldMerge>(buf: &mut &[u8], ctx: DecodeContext) -> (result: Result<
    M,
    DecodeError,
>)
    ensures
        decoded::<M>(old(buf)@, ctx, final(buf)@, result),
{
    let mut msg: M = M::default();
    let mut spent: DecodeContext = ctx;
    let ghost before = merge::at(msg, buf@, ctx);
    let merged = merge::merge_to_limit(&mut msg, buf, &mut spent, 0);
    assert(merge::merged_to_limit(before, 0, merge::at(msg, buf@, spent), merged));
    match merged {
        Ok(()) => Ok(msg),
        Err(e) => Err(e),
    }
}

/// Decode a message of at most `max` bytes behind its length.
pub(crate) fn decode_delimited<M: FieldMerge>(buf: &mut &[u8], max: u32, ctx: DecodeContext) -> (result:
    Result<M, DecodeError>)
    ensures
        decoded_delimited::<M>(old(buf)@, max as nat, ctx, final(buf)@, result),
{
    let mut msg: M = M::default();
    let mut spent: DecodeContext = ctx;
    let ghost before = merge::at(msg, buf@, ctx);
    let merged = merge::merge_delimited(&mut msg, buf, &mut spent, max);
    assert(merge::merged_delimited(before, max as nat, merge::at(msg, buf@, spent), merged));
    match merged {
        Ok(()) => Ok(msg),
        Err(e) => Err(e),
    }
}

/// A protobuf message.
///
/// The required half is in [`TwoPassEncode`] and [`FieldMerge`]; everything
/// here is provided.
pub trait Message: TwoPassEncode + FieldMerge {
    /// Encode into `buf`. The message has to be within the protobuf limit; see
    /// [`try_encode`](Self::try_encode).
    fn encode<S: EncodeSink>(&self, buf: &mut S)
        requires
            two_pass::can_encode(self, 0, old(buf)),
            self.declared_size() <= MAX_MESSAGE_BYTES,
        ensures
            final(buf).written() == old(buf).written() + self.encoding(),
    {
        let mut cache = SizeCache::new();
        let _ = encode_plain(self, &mut cache, buf);
    }

    /// Encode into `buf`, or fail with nothing written if the message is over
    /// the protobuf limit.
    fn try_encode<S: EncodeSink>(&self, buf: &mut S) -> (result: Result<(), EncodeError>)
        requires
            two_pass::can_encode(self, 0, old(buf)),
        ensures
            two_pass::plain_encode(self, old(buf), final(buf), result),
    {
        let mut cache = SizeCache::new();
        encode_plain(self, &mut cache, buf)
    }

    /// [`encode`](Self::encode) with a cache that is cleared and used again.
    fn encode_with_cache<S: EncodeSink>(&self, cache: &mut SizeCache, buf: &mut S)
        requires
            two_pass::can_encode(self, 0, old(buf)),
            self.declared_size() <= MAX_MESSAGE_BYTES,
        ensures
            two_pass::cache_after(self, old(cache), final(cache), true),
            final(buf).written() == old(buf).written() + self.encoding(),
    {
        let _ = encode_plain(self, cache, buf);
    }

    /// [`try_encode`](Self::try_encode) with a cache that is cleared and used
    /// again.
    fn try_encode_with_cache<S: EncodeSink>(&self, cache: &mut SizeCache, buf: &mut S) -> (result:
        Result<(), EncodeError>)
        requires
            two_pass::can_encode(self, 0, old(buf)),
        ensures
            two_pass::cache_after(self, old(cache), final(cache), result is Ok),
            two_pass::plain_encode(self, old(buf), final(buf), result),
    {
        encode_plain(self, cache, buf)
    }

    /// Encode into `buf` if the message fits in `max_bytes`, and return its
    /// size. On failure nothing is written.
    fn try_encode_bounded<S: EncodeSink>(&self, max_bytes: u32, buf: &mut S) -> (result: Result<
        u32,
        EncodeError,
    >)
        requires
            two_pass::can_encode(self, 0, old(buf)),
        ensures
            two_pass::bounded_encode(self, max_bytes, old(buf), final(buf), result),
    {
        let mut cache = SizeCache::new();
        encode_bounded(self, max_bytes, &mut cache, buf)
    }

    /// [`try_encode_bounded`](Self::try_encode_bounded) with a cache that is
    /// cleared and used again.
    fn try_encode_bounded_with_cache<S: EncodeSink>(
        &self,
        max_bytes: u32,
        cache: &mut SizeCache,
        buf: &mut S,
    ) -> (result: Result<u32, EncodeError>)
        requires
            two_pass::can_encode(self, 0, old(buf)),
        ensures
            two_pass::cache_after(self, old(cache), final(cache), result is Ok),
            two_pass::bounded_encode(self, max_bytes, old(buf), final(buf), result),
    {
        encode_bounded(self, max_bytes, cache, buf)
    }

    /// The encoded size. The message has to be within the protobuf limit; see
    /// [`try_encoded_len`](Self::try_encoded_len).
    fn encoded_len(&self) -> (len: u32)
        requires
            self.nested_sizes().len() <= u32::MAX,
            self.declared_size() <= MAX_MESSAGE_BYTES,
        ensures
            len == self.declared_size(),
    {
        let mut cache = SizeCache::new();
        self.compute_size(&mut cache)
    }

    /// The encoded size, or an error if it is over the protobuf limit.
    fn try_encoded_len(&self) -> (result: Result<u32, EncodeError>)
        requires
            self.nested_sizes().len() <= u32::MAX,
        ensures
            result == two_pass::checked_size(self.declared_size()),
    {
        let mut cache = SizeCache::new();
        checked_encode_size(self.compute_size(&mut cache))
    }

    /// Encode into `buf` behind the encoded size. The message has to be within
    /// the protobuf limit; see
    /// [`try_encode_length_delimited`](Self::try_encode_length_delimited).
    fn encode_length_delimited<S: EncodeSink>(&self, buf: &mut S)
        requires
            two_pass::can_encode(
                self,
                encoding::varint_bytes(self.declared_size() as nat).len(),
                old(buf),
            ),
            self.declared_size() <= MAX_MESSAGE_BYTES,
        ensures
            final(buf).written() == old(buf).written() + encoding::varint_bytes(
                self.declared_size() as nat,
            ) + self.encoding(),
    {
        let _ = encode_delimited(self, buf);
    }

    /// Encode into `buf` behind the encoded size, or fail with nothing written,
    /// not even the size, if the message is over the protobuf limit.
    fn try_encode_length_delimited<S: EncodeSink>(&self, buf: &mut S) -> (result: Result<
        (),
        EncodeError,
    >)
        requires
            two_pass::can_encode(
                self,
                encoding::varint_bytes(self.declared_size() as nat).len(),
                old(buf),
            ),
        ensures
            two_pass::delimited_encode(self, old(buf), final(buf), result),
    {
        encode_delimited(self, buf)
    }

    /// Encode to a new `Vec`. The message has to be within the protobuf limit;
    /// see [`try_encode_to_vec`](Self::try_encode_to_vec).
    fn encode_to_vec(&self) -> (bytes: Vec<u8>)
        requires
            self.nested_sizes().len() <= u32::MAX,
            two_pass::two_pass_agree(self),
            self.declared_size() <= MAX_MESSAGE_BYTES,
        ensures
            bytes@ == self.encoding(),
    {
        let mut cache = SizeCache::new();
        let size: usize = self.compute_size(&mut cache) as usize;
        let mut buf: Vec<u8> = Vec::with_capacity(size);
        proof {
            two_pass::lemma_fresh_pass(self, &cache);
        }
        self.write_to(&mut cache, &mut buf);
        assert(buf@ =~= self.encoding());
        debug_assert_two_pass(buf.len(), size);
        buf
    }

    /// Encode to a new `Vec`, or fail if the message is over the protobuf
    /// limit.
    fn try_encode_to_vec(&self) -> (result: Result<Vec<u8>, EncodeError>)
        requires
            self.nested_sizes().len() <= u32::MAX,
            two_pass::two_pass_agree(self),
        ensures
            match result {
                Ok(bytes) => self.declared_size() <= MAX_MESSAGE_BYTES && bytes@ == self.encoding(),
                Err(e) => e == EncodeError::MessageTooLarge && self.declared_size()
                    > MAX_MESSAGE_BYTES,
            },
    {
        let mut cache = SizeCache::new();
        let size: usize = match checked_encode_size(self.compute_size(&mut cache)) {
            Ok(size) => size as usize,
            Err(e) => return Err(e),
        };
        let mut buf: Vec<u8> = Vec::with_capacity(size);
        proof {
            two_pass::lemma_fresh_pass(self, &cache);
        }
        self.write_to(&mut cache, &mut buf);
        assert(buf@ =~= self.encoding());
        debug_assert_two_pass(buf.len(), size);
        Ok(buf)
    }

    /// Encode to new `Bytes`. The message has to be within the protobuf limit;
    /// see [`try_encode_to_bytes`](Self::try_encode_to_bytes).
    fn encode_to_bytes(&self) -> (bytes: bytes::Bytes)
        requires
            self.nested_sizes().len() <= u32::MAX,
            two_pass::two_pass_agree(self),
            self.declared_size() <= MAX_MESSAGE_BYTES,
        ensures
            buf::bytes_contents(bytes) == self.encoding(),
    {
        let mut cache = SizeCache::new();
        let size: usize = self.compute_size(&mut cache) as usize;
        let mut buf = buf::bytes_mut_with_capacity(size);
        proof {
            two_pass::lemma_fresh_pass(self, &cache);
        }
        self.write_to(&mut cache, &mut buf);
        assert(buf.written() =~= self.encoding());
        debug_assert_two_pass(buf::bytes_mut_len(&buf), size);
        buf::bytes_mut_freeze(buf)
    }

    /// Encode to new `Bytes`, or fail if the message is over the protobuf
    /// limit.
    fn try_encode_to_bytes(&self) -> (result: Result<bytes::Bytes, EncodeError>)
        requires
            self.nested_sizes().len() <= u32::MAX,
            two_pass::two_pass_agree(self),
        ensures
            match result {
                Ok(bytes) => self.declared_size() <= MAX_MESSAGE_BYTES && buf::bytes_contents(bytes)
                    == self.encoding(),
                Err(e) => e == EncodeError::MessageTooLarge && self.declared_size()
                    > MAX_MESSAGE_BYTES,
            },
    {
        let mut cache = SizeCache::new();
        let size: usize = match checked_encode_size(self.compute_size(&mut cache)) {
            Ok(size) => size as usize,
            Err(e) => return Err(e),
        };
        let mut buf = buf::bytes_mut_with_capacity(size);
        proof {
            two_pass::lemma_fresh_pass(self, &cache);
        }
        self.write_to(&mut cache, &mut buf);
        assert(buf.written() =~= self.encoding());
        debug_assert_two_pass(buf::bytes_mut_len(&buf), size);
        Ok(buf::bytes_mut_freeze(buf))
    }

    /// Decode a message from all of `buf`, under the default limits.
    fn decode(buf: &mut &[u8]) -> (result: Result<Self, DecodeError>)
        ensures
            decoded::<Self>(old(buf)@, default_limits(), final(buf)@, result),
    {
        decode_all(buf, default_context())
    }

    /// Decode a message from a byte slice, under the default limits.
    fn decode_from_slice(data: &[u8]) -> (result: Result<Self, DecodeError>)
        ensures
            exists|rest: Seq<u8>| #[trigger]
                decoded::<Self>(data@, default_limits(), rest, result),
    {
        let mut cursor: &[u8] = data;
        decode_all(&mut cursor, default_context())
    }

    /// Decode a message behind its length from the front of `buf`, under the
    /// default limits. What follows the message is left in `buf`.
    fn decode_length_delimited(buf: &mut &[u8]) -> (result: Result<Self, DecodeError>)
        ensures
            decoded_delimited::<Self>(
                old(buf)@,
                MAX_MESSAGE_BYTES as nat,
                default_limits(),
                final(buf)@,
                result,
            ),
    {
        decode_delimited(buf, MAX_MESSAGE_BYTES, default_context())
    }

    /// Merge fields until no more than `limit` bytes of `buf` are left.
    fn merge_to_limit(
        &mut self,
        buf: &mut &[u8],
        ctx: &mut DecodeContext,
        limit: usize,
    ) -> (result: Result<(), DecodeError>)
        ensures
            merge::merged_to_limit(
                merge::at(*old(self), old(buf)@, *old(ctx)),
                limit as nat,
                merge::at(*final(self), final(buf)@, *final(ctx)),
                result,
            ),
    {
        merge::merge_to_limit(self, buf, ctx, limit)
    }

    /// Merge a group, whose start tag has just been read, up to its end tag.
    fn merge_group(
        &mut self,
        buf: &mut &[u8],
        ctx: &mut DecodeContext,
        field_number: u32,
    ) -> (result: Result<(), DecodeError>)
        ensures
            merge::merged_group(
                merge::at(*old(self), old(buf)@, *old(ctx)),
                field_number,
                merge::at(*final(self), final(buf)@, *final(ctx)),
                result,
            ),
    {
        merge::merge_group(self, buf, ctx, field_number)
    }

    /// Merge all of `buf`.
    fn merge(&mut self, buf: &mut &[u8], ctx: &mut DecodeContext) -> (result: Result<
        (),
        DecodeError,
    >)
        ensures
            merge::merged_to_limit(
                merge::at(*old(self), old(buf)@, *old(ctx)),
                0,
                merge::at(*final(self), final(buf)@, *final(ctx)),
                result,
            ),
    {
        merge::merge_to_limit(self, buf, ctx, 0)
    }

    /// Merge a byte slice, under the default limits.
    fn merge_from_slice(&mut self, data: &[u8]) -> (result: Result<(), DecodeError>)
        ensures
            exists|rest: Seq<u8>, ctx: DecodeContext| #[trigger]
                merge::merged_to_limit(
                    merge::at(*old(self), data@, default_limits()),
                    0,
                    merge::at(*final(self), rest, ctx),
                    result,
                ),
    {
        let mut cursor: &[u8] = data;
        let mut ctx: DecodeContext = default_context();
        let ghost before = merge::at(*self, data@, ctx);
        let result = merge::merge_to_limit(self, &mut cursor, &mut ctx, 0);
        assert(merge::merged_to_limit(before, 0, merge::at(*self, cursor@, ctx), result));
        result
    }

    /// Merge a nested message behind its length. It takes one nesting level.
    fn merge_length_delimited(&mut self, buf: &mut &[u8], ctx: &mut DecodeContext) -> (result:
        Result<(), DecodeError>)
        ensures
            merge::merged_length_delimited(
                merge::at(*old(self), old(buf)@, *old(ctx)),
                MAX_MESSAGE_BYTES as nat,
                merge::at(*final(self), final(buf)@, *final(ctx)),
                result,
            ),
    {
        merge::merge_length_delimited(self, buf, ctx, MAX_MESSAGE_BYTES)
    }
}

/// The protobuf names of a message type.
///
/// It has no `Message` bound: a registry keyed by name can hold a type without
/// knowing how to encode it.
pub trait MessageName {
    /// The package, without a leading or trailing dot; empty for the unnamed
    /// root package.
    const PACKAGE: &'static str;

    /// The name within the package, with dots between nesting levels.
    const NAME: &'static str;

    /// The package and the name, joined by a dot where there is a package.
    const FULL_NAME: &'static str;

    /// `type.googleapis.com/` and the full name.
    const TYPE_URL: &'static str;
}

/// A borrowed view of a message that can be encoded.
pub trait ViewEncode<'a>: TwoPassEncode + Sized {
    /// Encode into `buf` with a cache that is cleared and used again. The
    /// message has to be within the protobuf limit.
    fn encode_with_cache<S: EncodeSink>(&self, cache: &mut SizeCache, buf: &mut S)
        requires
            two_pass::can_encode(self, 0, old(buf)),
            self.declared_size() <= MAX_MESSAGE_BYTES,
        ensures
            two_pass::cache_after(self, old(cache), final(cache), true),
            final(buf).written() == old(buf).written() + self.encoding(),
    {
        let _ = encode_plain(self, cache, buf);
    }

    /// Encode into `buf` with a cache that is cleared and used again, or fail
    /// with nothing written if the message is over the protobuf limit.
    fn try_encode_with_cache<S: EncodeSink>(&self, cache: &mut SizeCache, buf: &mut S) -> (result:
        Result<(), EncodeError>)
        requires
            two_pass::can_encode(self, 0, old(buf)),
        ensures
            two_pass::cache_after(self, old(cache), final(cache), result is Ok),
            two_pass::plain_encode(self, old(buf), final(buf), result),
    {
        encode_plain(self, cache, buf)
    }

    /// Encode into `buf` if the message fits in `max_bytes`, and return its
    /// size. On failure nothing is written.
    fn try_encode_bounded_with_cache<S: EncodeSink>(
        &self,
        max_bytes: u32,
        cache: &mut SizeCache,
        buf: &mut S,
    ) -> (result: Result<u32, EncodeError>)
        requires
            two_pass::can_encode(self, 0, old(buf)),
        ensures
            two_pass::cache_after(self, old(cache), final(cache), result is Ok),
            two_pass::bounded_encode(self, max_bytes, old(buf), final(buf), result),
    {
        encode_bounded(self, max_bytes, cache, buf)
    }
}

/// A view of a message that borrows from the bytes it was decoded from.
pub trait MessageView<'a>: Sized {
    /// Decoding `input` under the limits `ctx` may return `result`. Anything
    /// may come of it, unless an implementation says otherwise.
    open spec fn decodes_view(
        input: Seq<u8>,
        ctx: DecodeContext,
        result: Result<Self, DecodeError>,
    ) -> bool {
        true
    }

    /// Decode a view of `buf` under the limits `ctx`.
    fn decode_view_with_ctx(buf: &'a [u8], ctx: DecodeContext) -> (result: Result<
        Self,
        DecodeError,
    >)
        ensures
            Self::decodes_view(buf@, ctx, result),
    ;
}

/// A view of a message whose nested messages are decoded when they are
/// accessed.
pub trait LazyMessageView<'a>: Sized {
    /// Decoding `input` under the limits `ctx` may return `result`. Anything
    /// may come of it, unless an implementation says otherwise.
    open spec fn decodes_lazy(
        input: Seq<u8>,
        ctx: DecodeContext,
        result: Result<Self, DecodeError>,
    ) -> bool {
        true
    }

    /// Decode a lazy view of `buf` under the limits `ctx`.
    fn decode_lazy_with_ctx(buf: &'a [u8], ctx: DecodeContext) -> (result: Result<
        Self,
        DecodeError,
    >)
        ensures
            Self::decodes_lazy(buf@, ctx, result),
    ;
}

/// What was encoded behind its length is read back whole: no limit on sizes
/// refuses it, its decoder is handed exactly its bytes, and what follows it is
/// left.
pub proof fn law_delimited_encoding_is_read_back<E: TwoPassEncode, M: FieldMerge>(
    message: &E,
    before: merge::MergeState<M>,
    tail: Seq<u8>,
    after: merge::MergeState<M>,
    result: Result<(), DecodeError>,
)
    requires
        message.declared_size() <= MAX_MESSAGE_BYTES,
        two_pass::two_pass_agree(message),
        before.rest == encoding::varint_bytes(message.declared_size() as nat)
            + message.encoding() + tail,
        merge::merged_delimited(before, MAX_MESSAGE_BYTES as nat, after, result),
    ensures
        exists|merged: Result<(), DecodeError>|
            {
                &&& #[trigger] merge::merged_to_limit(
                    merge::at(before.msg, message.encoding() + tail, before.ctx),
                    tail.len(),
                    after,
                    merged,
                )
                &&& result == if merged is Ok && after.rest.len() < tail.len() {
                    Err(DecodeError::UnexpectedEof)
                } else {
                    merged
                }
            },
        result == Ok::<(), DecodeError>(()) ==> after.rest == tail,
{
    let prefix = encoding::varint_bytes(message.declared_size() as nat);
    let body = message.encoding();
    assert(before.rest =~= prefix + (body + tail));
    encoding::law_varint_roundtrip(message.declared_size() as u64, body + tail);
    let read = merge::past(before, prefix.len());
    assert(read.rest =~= body + tail);
    assert(read == merge::at(before.msg, body + tail, before.ctx));
    if result == Ok::<(), DecodeError>(()) {
        merge::law_delimited_leaves_what_follows(
            before,
            MAX_MESSAGE_BYTES as nat,
            body,
            tail,
            after,
        );
    }
}

} // verus!
