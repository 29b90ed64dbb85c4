//! Decode options, and decoding from a reader.
//!
//! The functions here do no input or output. For a source that is read to its
//! end, [`DecodeOptions::reader_cap`] says how many bytes to read and
//! [`DecodeOptions::decode_read`] judges and decodes what came. For a source of
//! length-delimited messages, [`DecodeOptions::prefix_step`] takes the length
//! prefix byte by byte and says how many bytes to read next, and
//! [`DecodeOptions::decode_body`] judges and decodes those.
use vstd::prelude::*;
use crate::buf;
use crate::context::{
    DecodeContext, DEFAULT_ELEMENT_MEMORY_LIMIT, DEFAULT_UNKNOWN_FIELD_LIMIT, RECURSION_LIMIT,
};
use crate::encoding;
use crate::encoding::{decode_varint, VarintReader, VarintStep};
use crate::error::DecodeError;
use crate::merge;
use crate::message;
use crate::message::{decode_all, decode_delimited, LazyMessageView, Message, MessageView};
use crate::two_pass::MAX_MESSAGE_BYTES;

verus! {

/// Limits on what a decode takes.
#[derive(Clone, Copy, Debug, PartialEq, Eq, Structural)]
pub struct DecodeOptions {
    recursion_limit: u32,
    max_message_size: u32,
    unbounded_reader_size: bool,
    unknown_field_limit: usize,
    element_memory_limit: usize,
}

impl Default for DecodeOptions {
    fn default() -> (options: Self)
        ensures
            options == DecodeOptions::defaults(),
    {
        Self::new()
    }
}

impl DecodeOptions {
    /// No options let a message take more than the protobuf limit.
    #[verifier::type_invariant]
    spec fn within_limit(self) -> bool {
        self.max_message_size <= MAX_MESSAGE_BYTES
    }

    /// How deep messages may nest.
    pub closed spec fn depth(self) -> u32 {
        self.recursion_limit
    }

    /// The most bytes that a message may take.
    pub closed spec fn max_bytes(self) -> u32 {
        self.max_message_size
    }

    /// Whether a source that is read to its end may be of any size.
    pub closed spec fn reader_unbounded(self) -> bool {
        self.unbounded_reader_size
    }

    /// How many unknown fields a decode may materialize.
    pub closed spec fn unknown_fields(self) -> usize {
        self.unknown_field_limit
    }

    /// How much element memory a decode may materialize.
    pub closed spec fn element_memory(self) -> usize {
        self.element_memory_limit
    }

    /// The options with these five settings.
    pub closed spec fn with(
        depth: u32,
        max_bytes: u32,
        reader_unbounded: bool,
        unknown_fields: usize,
        element_memory: usize,
    ) -> Self {
        DecodeOptions {
            recursion_limit: depth,
            max_message_size: max_bytes,
            unbounded_reader_size: reader_unbounded,
            unknown_field_limit: unknown_fields,
            element_memory_limit: element_memory,
        }
    }

    /// The options before anything is set.
    pub open spec fn defaults() -> Self {
        Self::with(
            RECURSION_LIMIT,
            MAX_MESSAGE_BYTES,
            false,
            DEFAULT_UNKNOWN_FIELD_LIMIT,
            DEFAULT_ELEMENT_MEMORY_LIMIT,
        )
    }

    /// Options hold what they were made with.
    pub proof fn lemma_with(
        depth: u32,
        max_bytes: u32,
        reader_unbounded: bool,
        unknown_fields: usize,
        element_memory: usize,
    )
        ensures
            ({
                let options = Self::with(
                    depth,
                    max_bytes,
                    reader_unbounded,
                    unknown_fields,
                    element_memory,
                );
                &&& options.depth() == depth
                &&& options.max_bytes() == max_bytes
                &&& options.reader_unbounded() == reader_unbounded
                &&& options.unknown_fields() == unknown_fields
                &&& options.element_memory() == element_memory
            }),
    {
    }

    /// The limits that each top-level decode starts with.
    pub open spec fn limits(self) -> DecodeContext {
        DecodeContext::limits(self.depth(), self.unknown_fields(), Some(self.element_memory()))
    }

    /// Options with the defaults: the default recursion, unknown-field and
    /// element-memory limits, and messages of up to 2 GiB - 1.
    pub fn new() -> (options: Self)
        ensures
            options == Self::defaults(),
            options.depth() == RECURSION_LIMIT,
            options.max_bytes() == MAX_MESSAGE_BYTES,
            !options.reader_unbounded(),
            options.unknown_fields() == DEFAULT_UNKNOWN_FIELD_LIMIT,
            options.element_memory() == DEFAULT_ELEMENT_MEMORY_LIMIT,
    {
        DecodeOptions {
            recursion_limit: RECURSION_LIMIT,
            max_message_size: MAX_MESSAGE_BYTES,
            unbounded_reader_size: false,
            unknown_field_limit: DEFAULT_UNKNOWN_FIELD_LIMIT,
            element_memory_limit: DEFAULT_ELEMENT_MEMORY_LIMIT,
        }
    }

    /// Set how deep messages may nest.
    pub fn with_recursion_limit(self, limit: u32) -> (options: Self)
        ensures
            options == Self::with(
                limit,
                self.max_bytes(),
                self.reader_unbounded(),
                self.unknown_fields(),
                self.element_memory(),
            ),
            options.max_bytes() <= MAX_MESSAGE_BYTES,
    {
        proof {
            use_type_invariant(&self);
        }
        let mut options = self;
        options.recursion_limit = limit;
        options
    }

    /// Set the most bytes that a message may take. A value above the protobuf
    /// limit is clamped to it.
    ///
    /// A source that is read to its end is bounded again, whatever was set
    /// before.
    pub fn with_max_message_size(self, max_bytes: usize) -> (options: Self)
        ensures
            options == Self::with(
                self.depth(),
                if max_bytes <= MAX_MESSAGE_BYTES {
                    max_bytes as u32
                } else {
                    MAX_MESSAGE_BYTES
                },
                false,
                self.unknown_fields(),
                self.element_memory(),
            ),
            options.max_bytes() <= MAX_MESSAGE_BYTES,
    {
        proof {
            use_type_invariant(&self);
        }
        let mut options = self;
        options.max_message_size = if max_bytes <= MAX_MESSAGE_BYTES as usize {
            max_bytes as u32
        } else {
            MAX_MESSAGE_BYTES
        };
        options.unbounded_reader_size = false;
        options
    }

    /// Let a source that is read to its end be of any size. Every other way to
    /// decode keeps its bound.
    pub fn without_reader_size_limit(self) -> (options: Self)
        ensures
            options == Self::with(
                self.depth(),
                self.max_bytes(),
                true,
                self.unknown_fields(),
                self.element_memory(),
            ),
            options.max_bytes() <= MAX_MESSAGE_BYTES,
    {
        proof {
            use_type_invariant(&self);
        }
        let mut options = self;
        options.unbounded_reader_size = true;
        options
    }

    /// Set how many unknown fields a decode may materialize.
    pub fn with_unknown_field_limit(self, count: usize) -> (options: Self)
        ensures
            options == Self::with(
                self.depth(),
                self.max_bytes(),
                self.reader_unbounded(),
                count,
                self.element_memory(),
            ),
            options.max_bytes() <= MAX_MESSAGE_BYTES,
    {
        proof {
            use_type_invariant(&self);
        }
        let mut options = self;
        options.unknown_field_limit = count;
        options
    }

    /// Set how much element memory a decode may materialize.
    pub fn with_element_memory_limit(self, bytes: usize) -> (options: Self)
        ensures
            options == Self::with(
                self.depth(),
                self.max_bytes(),
                self.reader_unbounded(),
                self.unknown_fields(),
                bytes,
            ),
            options.max_bytes() <= MAX_MESSAGE_BYTES,
    {
        proof {
            use_type_invariant(&self);
        }
        let mut options = self;
        options.element_memory_limit = bytes;
        options
    }

    /// How much element memory a decode may materialize.
    pub fn element_memory_limit(&self) -> (limit: usize)
        ensures
            limit == self.element_memory(),
    {
        self.element_memory_limit
    }

    /// How deep messages may nest.
    pub fn recursion_limit(&self) -> (limit: u32)
        ensures
            limit == self.depth(),
    {
        self.recursion_limit
    }

    /// How many unknown fields a decode may materialize.
    pub fn unknown_field_limit(&self) -> (limit: usize)
        ensures
            limit == self.unknown_fields(),
    {
        self.unknown_field_limit
    }

    /// The most bytes that a message may take, whether or not a reader is
    /// bounded by it. It is never above the protobuf limit.
    pub fn max_message_size(&self) -> (limit: usize)
        ensures
            limit == self.max_bytes(),
            limit <= MAX_MESSAGE_BYTES,
    {
        proof {
            use_type_invariant(&*self);
        }
        self.max_message_size as usize
    }

    /// Whether a source that is read to its end may be of any size.
    pub fn is_reader_size_unbounded(&self) -> (unbounded: bool)
        ensures
            unbounded == self.reader_unbounded(),
    {
        self.unbounded_reader_size
    }

    /// The limits that a top-level decode starts with.
    fn context(&self) -> (ctx: DecodeContext)
        ensures
            ctx == self.limits(),
    {
        proof {
            DecodeContext::lemma_limits_of(self.depth(), self.unknown_fields(), None);
        }
        DecodeContext::new(self.recursion_limit, self.unknown_field_limit).with_element_memory(
            self.element_memory_limit,
        )
    }

    /// Decode a message from all of `buf`.
    pub fn decode<M: Message>(&self, buf: &mut &[u8]) -> (result: Result<M, DecodeError>)
        ensures
            if old(buf)@.len() > self.max_bytes() {
                &&& result == Err::<M, DecodeError>(DecodeError::MessageTooLarge)
                &&& final(buf)@ == old(buf)@
            } else {
                message::decoded::<M>(old(buf)@, self.limits(), final(buf)@, result)
            },
    {
        if buf.len() > self.max_message_size as usize {
            return Err(DecodeError::MessageTooLarge);
        }
        decode_all(buf, self.context())
    }

    /// Decode a message from a byte slice.
    pub fn decode_from_slice<M: Message>(&self, data: &[u8]) -> (result: Result<M, DecodeError>)
        ensures
            self.decodes_slice(data@, result),
    {
        if data.len() > self.max_message_size as usize {
            return Err(DecodeError::MessageTooLarge);
        }
        self.decode_from_slice_unchecked_size(data)
    }

    /// What decoding a byte slice of any size may return.
    pub open spec fn decodes_any<M: Message>(
        self,
        data: Seq<u8>,
        result: Result<M, DecodeError>,
    ) -> bool {
        exists|rest: Seq<u8>| #[trigger] message::decoded::<M>(data, self.limits(), rest, result)
    }

    /// What decoding a byte slice may return: one over the size limit is
    /// refused.
    pub open spec fn decodes_slice<M: Message>(
        self,
        data: Seq<u8>,
        result: Result<M, DecodeError>,
    ) -> bool {
        if data.len() > self.max_bytes() {
            result == Err::<M, DecodeError>(DecodeError::MessageTooLarge)
        } else {
            self.decodes_any(data, result)
        }
    }

    /// Decode a message from a byte slice of any size.
    fn decode_from_slice_unchecked_size<M: Message>(&self, data: &[u8]) -> (result: Result<
        M,
        DecodeError,
    >)
        ensures
            self.decodes_any(data@, result),
    {
        let mut cursor: &[u8] = data;
        decode_all(&mut cursor, self.context())
    }

    /// Decode a message behind its length from the front of `buf`. What follows
    /// the message is left in `buf`.
    pub fn decode_length_delimited<M: Message>(&self, buf: &mut &[u8]) -> (result: Result<
        M,
        DecodeError,
    >)
        ensures
            message::decoded_delimited::<M>(
                old(buf)@,
                self.max_bytes() as nat,
                self.limits(),
                final(buf)@,
                result,
            ),
    {
        decode_delimited(buf, self.max_message_size, self.context())
    }

    /// Merge all of `buf` into a message.
    pub fn merge<M: Message>(&self, msg: &mut M, buf: &mut &[u8]) -> (result: Result<
        (),
        DecodeError,
    >)
        ensures
            if old(buf)@.len() > self.max_bytes() {
                &&& result == Err::<(), DecodeError>(DecodeError::MessageTooLarge)
                &&& *final(msg) == *old(msg)
                &&& final(buf)@ == old(buf)@
            } else {
                exists|ctx: DecodeContext| #[trigger]
                    merge::merged_to_limit(
                        merge::at(*old(msg), old(buf)@, self.limits()),
                        0,
                        merge::at(*final(msg), final(buf)@, ctx),
                        result,
                    )
            },
    {
        if buf.len() > self.max_message_size as usize {
            return Err(DecodeError::MessageTooLarge);
        }
        let mut ctx: DecodeContext = self.context();
        let ghost before = merge::at(*msg, buf@, ctx);
        let result = merge::merge_to_limit(msg, buf, &mut ctx, 0);
        assert(merge::merged_to_limit(before, 0, merge::at(*msg, buf@, ctx), result));
        result
    }

    /// Merge a byte slice into a message.
    pub fn merge_from_slice<M: Message>(&self, msg: &mut M, data: &[u8]) -> (result: Result<
        (),
        DecodeError,
    >)
        ensures
            if data@.len() > self.max_bytes() {
                &&& result == Err::<(), DecodeError>(DecodeError::MessageTooLarge)
                &&& *final(msg) == *old(msg)
            } else {
                exists|rest: Seq<u8>, ctx: DecodeContext| #[trigger]
                    merge::merged_to_limit(
                        merge::at(*old(msg), data@, self.limits()),
                        0,
                        merge::at(*final(msg), rest, ctx),
                        result,
                    )
            },
    {
        let mut cursor: &[u8] = data;
        self.merge(msg, &mut cursor)
    }

    /// Decode a view that borrows from a byte slice.
    pub fn decode_view<'a, V: MessageView<'a>>(&self, buf: &'a [u8]) -> (result: Result<
        V,
        DecodeError,
    >)
        ensures
            if buf@.len() > self.max_bytes() {
                result == Err::<V, DecodeError>(DecodeError::MessageTooLarge)
            } else {
                V::decodes_view(buf@, self.limits(), result)
            },
    {
        if buf.len() > self.max_message_size as usize {
            return Err(DecodeError::MessageTooLarge);
        }
        V::decode_view_with_ctx(buf, self.context())
    }

    /// Decode a lazy view that borrows from a byte slice.
    pub fn decode_lazy_view<'a, L: LazyMessageView<'a>>(&self, buf: &'a [u8]) -> (result: Result<
        L,
        DecodeError,
    >)
        ensures
            if buf@.len() > self.max_bytes() {
                result == Err::<L, DecodeError>(DecodeError::MessageTooLarge)
            } else {
                L::decodes_lazy(buf@, self.limits(), result)
            },
    {
        if buf.len() > self.max_message_size as usize {
            return Err(DecodeError::MessageTooLarge);
        }
        L::decode_lazy_with_ctx(buf, self.context())
    }
}

/// How a failed read is classed.
#[derive(Clone, Copy, Debug, PartialEq, Eq, Structural)]
pub enum ReadErrorKind {
    /// What came does not decode, or is too large.
    InvalidData,
    /// The source ended too early.
    UnexpectedEof,
}

/// Why decoding from a reader failed, where the reader itself did not.
#[derive(Clone, Copy, Debug, PartialEq, Eq, Structural)]
pub struct ReadError {
    /// The class of the failure.
    pub kind: ReadErrorKind,
    /// What went wrong.
    pub source: DecodeError,
}

impl ReadError {
    /// The class of the failure.
    pub fn kind(&self) -> (kind: ReadErrorKind)
        ensures
            kind == self.kind,
    {
        self.kind
    }
}

/// The error of data that does not decode.
pub open spec fn invalid_data(source: DecodeError) -> ReadError {
    ReadError { kind: ReadErrorKind::InvalidData, source }
}

/// The error of a source that ended too early.
pub open spec fn early_end() -> ReadError {
    ReadError { kind: ReadErrorKind::UnexpectedEof, source: DecodeError::UnexpectedEof }
}

/// Read a varint from a source held in memory, byte by byte. Every byte read is
/// taken: the source is left just past the varint, at its end where it ended too
/// early, and past the tenth byte where the varint is too long.
pub fn read_varint(reader: &mut &[u8]) -> (result: Result<u64, ReadError>)
    ensures
        match encoding::parse_varint(old(reader)@) {
            Ok((value, n)) => {
                &&& result == Ok::<u64, ReadError>(value)
                &&& final(reader)@ == old(reader)@.skip(n as int)
            },
            Err(DecodeError::UnexpectedEof) => {
                &&& result == Err::<u64, ReadError>(early_end())
                &&& final(reader)@ == Seq::<u8>::empty()
            },
            Err(e) => {
                &&& result == Err::<u64, ReadError>(invalid_data(e))
                &&& final(reader)@ == old(reader)@.skip(10)
            },
        },
{
    match decode_varint(reader) {
        Ok(value) => Ok(value),
        Err(DecodeError::UnexpectedEof) => {
            let rest: usize = buf::remaining(reader);
            buf::advance(reader, rest);
            assert(reader@ =~= Seq::<u8>::empty());
            Err(
                ReadError {
                    kind: ReadErrorKind::UnexpectedEof,
                    source: DecodeError::UnexpectedEof,
                },
            )
        },
        Err(e) => {
            buf::advance(reader, 10);
            Err(ReadError { kind: ReadErrorKind::InvalidData, source: e })
        },
    }
}

/// What to do after a byte of a length prefix.
#[derive(Clone, Copy, Debug, PartialEq, Eq, Structural)]
pub enum PrefixStep {
    /// Read another byte of the prefix.
    More,
    /// Read a body of this many bytes.
    Body(usize),
    /// Give up.
    Refused(ReadError),
}

/// The most bytes to set aside for a body before any of it has come.
pub const INITIAL_CAPACITY_CAP: usize = 64 * 1024;

/// How many bytes to set aside for a body declared to be `len` long. A declared
/// length is not to be trusted with an allocation.
pub fn initial_capacity(len: usize) -> (capacity: usize)
    ensures
        capacity == if len < INITIAL_CAPACITY_CAP {
            len
        } else {
            INITIAL_CAPACITY_CAP
        },
{
    if len < INITIAL_CAPACITY_CAP {
        len
    } else {
        INITIAL_CAPACITY_CAP
    }
}

impl DecodeOptions {
    /// What decoding everything that a source held may return.
    pub open spec fn decodes_read<M: Message>(
        self,
        data: Seq<u8>,
        result: Result<M, ReadError>,
    ) -> bool {
        if !self.reader_unbounded() && data.len() > self.max_bytes() {
            result == Err::<M, ReadError>(invalid_data(DecodeError::MessageTooLarge))
        } else {
            match result {
                Ok(msg) => self.decodes_any::<M>(data, Ok(msg)),
                Err(e) => e == invalid_data(e.source) && self.decodes_any::<M>(data, Err(e.source)),
            }
        }
    }

    /// How many bytes to read from a source that is read to its end: one more
    /// than a message may take, so that a source that is too large shows, or no
    /// bound at all.
    pub fn reader_cap(&self) -> (cap: Option<u64>)
        ensures
            cap == if self.reader_unbounded() {
                None::<u64>
            } else {
                Some((self.max_bytes() + 1) as u64)
            },
    {
        if self.unbounded_reader_size {
            None
        } else {
            Some(self.max_message_size as u64 + 1)
        }
    }

    /// Decode everything that a source held, up to the
    /// [`reader_cap`](Self::reader_cap).
    pub fn decode_read<M: Message>(&self, data: &[u8]) -> (result: Result<M, ReadError>)
        ensures
            self.decodes_read(data@, result),
    {
        if !self.unbounded_reader_size && data.len() > self.max_message_size as usize {
            return Err(
                ReadError {
                    kind: ReadErrorKind::InvalidData,
                    source: DecodeError::MessageTooLarge,
                },
            );
        }
        match self.decode_from_slice_unchecked_size(data) {
            Ok(msg) => Ok(msg),
            Err(e) => Err(ReadError { kind: ReadErrorKind::InvalidData, source: e }),
        }
    }

    /// What the bytes of a length prefix call for.
    pub open spec fn prefix_calls_for(self, prefix: Seq<u8>) -> PrefixStep {
        match encoding::parse_varint(prefix) {
            Ok((len, _)) => if len > self.max_bytes() {
                PrefixStep::Refused(invalid_data(DecodeError::MessageTooLarge))
            } else {
                PrefixStep::Body(len as usize)
            },
            Err(DecodeError::UnexpectedEof) => PrefixStep::More,
            Err(e) => PrefixStep::Refused(invalid_data(e)),
        }
    }

    /// Take the next byte of a length prefix.
    pub fn prefix_step(&self, prefix: &mut VarintReader, byte: u8) -> (step: PrefixStep)
        requires
            old(prefix).wf(),
        ensures
            step == self.prefix_calls_for(old(prefix).seen().push(byte)),
            step == PrefixStep::More ==> final(prefix).wf() && final(prefix).seen() == old(
                prefix,
            ).seen().push(byte),
    {
        match prefix.push(byte) {
            VarintStep::More => PrefixStep::More,
            VarintStep::TooLong => PrefixStep::Refused(
                ReadError { kind: ReadErrorKind::InvalidData, source: DecodeError::VarintTooLong },
            ),
            VarintStep::Done(len) => {
                if len > self.max_message_size as u64 {
                    return PrefixStep::Refused(
                        ReadError {
                            kind: ReadErrorKind::InvalidData,
                            source: DecodeError::MessageTooLarge,
                        },
                    );
                }
                PrefixStep::Body(len as usize)
            },
        }
    }

    /// What decoding a body that was declared to be `declared` bytes long may
    /// return.
    pub open spec fn decodes_body<M: Message>(
        self,
        declared: nat,
        body: Seq<u8>,
        result: Result<M, ReadError>,
    ) -> bool {
        if body.len() < declared {
            result == Err::<M, ReadError>(early_end())
        } else {
            match result {
                Ok(msg) => self.decodes_slice::<M>(body, Ok(msg)),
                Err(e) => e == invalid_data(e.source) && self.decodes_slice::<M>(
                    body,
                    Err(e.source),
                ),
            }
        }
    }

    /// Decode a body that was declared to be `declared` bytes long. A shorter
    /// one means that the source ended too early.
    pub fn decode_body<M: Message>(&self, declared: usize, body: &[u8]) -> (result: Result<
        M,
        ReadError,
    >)
        ensures
            self.decodes_body(declared as nat, body@, result),
    {
        if body.len() < declared {
            return Err(
                ReadError {
                    kind: ReadErrorKind::UnexpectedEof,
                    source: DecodeError::UnexpectedEof,
                },
            );
        }
        match self.decode_from_slice(body) {
            Ok(msg) => Ok(msg),
            Err(e) => Err(ReadError { kind: ReadErrorKind::InvalidData, source: e }),
        }
    }
}

} // verus!
