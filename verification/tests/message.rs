use buffa::encoding::{
    decode_varint, encode_varint, skip_field, varint_len, Tag, VarintReader, VarintStep, WireType,
};
use buffa::options::{initial_capacity, read_varint, PrefixStep, ReadError, ReadErrorKind};
use buffa::{
    checked_encode_size, saturate_size, DecodeContext, DecodeError, DecodeOptions, EncodeError,
    EncodeSink, FieldMerge, LazyMessageView, Message, MessageName, MessageView, SizeCache,
    SizeCachePool, TwoPassEncode, ViewEncode, DEFAULT_ELEMENT_MEMORY_LIMIT,
    DEFAULT_UNKNOWN_FIELD_LIMIT, MAX_MESSAGE_BYTES, RECURSION_LIMIT,
};

use std::io::Read;

// A minimal message: field 1 is an int32.
#[derive(Clone, Debug, Default, PartialEq)]
struct FlatMsg {
    value: i32,
}

impl TwoPassEncode for FlatMsg {
    fn compute_size(&self, _cache: &mut SizeCache) -> u32 {
        if self.value != 0 {
            1 + varint_len(self.value as i64 as u64) as u32
        } else {
            0
        }
    }

    fn write_to<S: EncodeSink>(&self, _cache: &mut SizeCache, buf: &mut S) {
        if self.value != 0 {
            Tag::new(1, WireType::Varint).encode(buf);
            encode_varint(self.value as i64 as u64, buf);
        }
    }
}

impl FieldMerge for FlatMsg {
    fn merge_field(
        &mut self,
        tag: Tag,
        buf: &mut &[u8],
        _ctx: &mut DecodeContext,
    ) -> Result<(), DecodeError> {
        match tag.field_number() {
            1 => {
                self.value = decode_varint(buf)? as i32;
            }
            _ => {
                skip_field(tag, buf)?;
            }
        }
        Ok(())
    }

    fn clear(&mut self) {
        *self = Self::default();
    }
}

impl Message for FlatMsg {}

// A borrowed view of a `FlatMsg`.
struct FlatView<'a>(&'a FlatMsg);

impl<'a> TwoPassEncode for FlatView<'a> {
    fn compute_size(&self, cache: &mut SizeCache) -> u32 {
        self.0.compute_size(cache)
    }

    fn write_to<S: EncodeSink>(&self, cache: &mut SizeCache, buf: &mut S) {
        self.0.write_to(cache, buf)
    }
}

impl<'a> ViewEncode<'a> for FlatView<'a> {}

// A message that reports whatever size it is told to, and writes nothing.
#[derive(Clone, Debug, Default, PartialEq)]
struct SizedMsg {
    reported_size: u32,
}

impl TwoPassEncode for SizedMsg {
    fn compute_size(&self, _cache: &mut SizeCache) -> u32 {
        self.reported_size
    }

    fn write_to<S: EncodeSink>(&self, _cache: &mut SizeCache, _buf: &mut S) {}
}

impl FieldMerge for SizedMsg {
    fn merge_field(
        &mut self,
        tag: Tag,
        buf: &mut &[u8],
        _ctx: &mut DecodeContext,
    ) -> Result<(), DecodeError> {
        skip_field(tag, buf)
    }

    fn clear(&mut self) {
        *self = Self::default();
    }
}

impl Message for SizedMsg {}

// A borrowed view of a `SizedMsg`.
struct SizedView<'a>(&'a SizedMsg);

impl<'a> TwoPassEncode for SizedView<'a> {
    fn compute_size(&self, cache: &mut SizeCache) -> u32 {
        self.0.compute_size(cache)
    }

    fn write_to<S: EncodeSink>(&self, cache: &mut SizeCache, buf: &mut S) {
        self.0.write_to(cache, buf)
    }
}

impl<'a> ViewEncode<'a> for SizedView<'a> {}

// A message of `count` nested messages of one byte each, that reports a size of
// its own.
#[derive(Clone, Debug, Default, PartialEq)]
struct NestedMsg {
    count: usize,
    reported_size: u32,
}

impl TwoPassEncode for NestedMsg {
    fn compute_size(&self, cache: &mut SizeCache) -> u32 {
        for _ in 0..self.count {
            let slot = cache.reserve();
            cache.set(slot, 1);
        }
        self.reported_size
    }

    fn write_to<S: EncodeSink>(&self, cache: &mut SizeCache, buf: &mut S) {
        for _ in 0..self.count {
            encode_varint(cache.consume_next() as u64, buf);
        }
    }
}

impl FieldMerge for NestedMsg {
    fn merge_field(
        &mut self,
        tag: Tag,
        buf: &mut &[u8],
        _ctx: &mut DecodeContext,
    ) -> Result<(), DecodeError> {
        skip_field(tag, buf)
    }

    fn clear(&mut self) {
        *self = Self::default();
    }
}

impl Message for NestedMsg {}

struct NestedView<'a>(&'a NestedMsg);

impl<'a> TwoPassEncode for NestedView<'a> {
    fn compute_size(&self, cache: &mut SizeCache) -> u32 {
        self.0.compute_size(cache)
    }

    fn write_to<S: EncodeSink>(&self, cache: &mut SizeCache, buf: &mut S) {
        self.0.write_to(cache, buf)
    }
}

impl<'a> ViewEncode<'a> for NestedView<'a> {}

fn encode_int32(value: i32, buf: &mut Vec<u8>) {
    encode_varint(value as i64 as u64, buf);
}

fn test_ctx(depth: u32) -> DecodeContext {
    DecodeContext::new(depth, DEFAULT_UNKNOWN_FIELD_LIMIT)
        .with_element_memory(DEFAULT_ELEMENT_MEMORY_LIMIT)
}

fn io_error(e: ReadError) -> std::io::Error {
    let kind = match e.kind() {
        ReadErrorKind::InvalidData => std::io::ErrorKind::InvalidData,
        ReadErrorKind::UnexpectedEof => std::io::ErrorKind::UnexpectedEof,
    };
    std::io::Error::new(kind, format!("{:?}", e.source))
}

// Drives the library's reader decisions over a `std::io::Read`.
trait DecodeReader {
    fn decode_reader<M: Message>(
        &self,
        reader: &mut impl Read,
    ) -> Result<M, std::io::Error>;

    fn decode_length_delimited_reader<M: Message>(
        &self,
        reader: &mut impl Read,
    ) -> Result<M, std::io::Error>;
}

impl DecodeReader for DecodeOptions {
    fn decode_reader<M: Message>(
        &self,
        reader: &mut impl Read,
    ) -> Result<M, std::io::Error> {
        let mut data = Vec::new();
        match self.reader_cap() {
            None => reader.read_to_end(&mut data)?,
            Some(cap) => reader.take(cap).read_to_end(&mut data)?,
        };
        self.decode_read(&data).map_err(io_error)
    }

    fn decode_length_delimited_reader<M: Message>(
        &self,
        reader: &mut impl Read,
    ) -> Result<M, std::io::Error> {
        let mut prefix = VarintReader::new();
        loop {
            let mut byte = [0u8; 1];
            reader.read_exact(&mut byte)?;
            match self.prefix_step(&mut prefix, byte[0]) {
                PrefixStep::More => {}
                PrefixStep::Refused(e) => return Err(io_error(e)),
                PrefixStep::Body(len) => {
                    let mut body = Vec::with_capacity(initial_capacity(len));
                    reader.take(len as u64).read_to_end(&mut body)?;
                    return self.decode_body(len, &body).map_err(io_error);
                }
            }
        }
    }
}

// A reader that errors immediately.
struct ErrReader;

impl Read for ErrReader {
    fn read(&mut self, _: &mut [u8]) -> std::io::Result<usize> {
        Err(std::io::Error::new(std::io::ErrorKind::BrokenPipe, "gone"))
    }
}

fn wire_bytes(msg: &FlatMsg) -> Vec<u8> {
    let mut buf = Vec::new();
    msg.encode_length_delimited(&mut buf);
    buf
}

#[test]
fn test_merge_length_delimited_basic() {
    let src = FlatMsg { value: 42 };
    let mut dst = FlatMsg::default();
    dst.merge_length_delimited(
        &mut wire_bytes(&src).as_slice(),
        &mut test_ctx(RECURSION_LIMIT),
    )
    .unwrap();
    assert_eq!(dst.value, 42);
}

#[test]
fn test_merge_length_delimited_merges_into_existing() {
    // Second merge overwrites (proto3 last-wins for scalar fields).
    let mut dst = FlatMsg::default();
    dst.merge_length_delimited(
        &mut wire_bytes(&FlatMsg { value: 1 }).as_slice(),
        &mut test_ctx(RECURSION_LIMIT),
    )
    .unwrap();
    assert_eq!(dst.value, 1);
    dst.merge_length_delimited(
        &mut wire_bytes(&FlatMsg { value: 2 }).as_slice(),
        &mut test_ctx(RECURSION_LIMIT),
    )
    .unwrap();
    assert_eq!(dst.value, 2);
}

#[test]
fn test_merge_length_delimited_truncated() {
    // Length prefix says 10 bytes but buffer contains only 2.
    let mut buf = Vec::new();
    encode_varint(10, &mut buf);
    buf.extend_from_slice(&[0x01, 0x01]);
    let mut dst = FlatMsg::default();
    assert_eq!(
        dst.merge_length_delimited(&mut buf.as_slice(), &mut test_ctx(RECURSION_LIMIT)),
        Err(DecodeError::UnexpectedEof)
    );
}

#[test]
fn test_merge_length_delimited_oversized() {
    // Length prefix exceeds the 2 GiB safety limit.
    let mut buf = Vec::new();
    encode_varint(0x8000_0000u64, &mut buf); // 2 GiB + 1
    let mut dst = FlatMsg::default();
    assert_eq!(
        dst.merge_length_delimited(&mut buf.as_slice(), &mut test_ctx(RECURSION_LIMIT)),
        Err(DecodeError::MessageTooLarge)
    );
}

#[test]
fn test_merge_length_delimited_recursion_limit() {
    // depth=1 means merge_length_delimited will decrement to 0, then any
    // nested call would return RecursionLimitExceeded.  Passing depth=1
    // to merge_length_delimited itself is the boundary: it decrements to
    // 0 and calls merge with depth=0, which for FlatMsg (a leaf) succeeds.
    // Passing depth=0 directly must return RecursionLimitExceeded.
    let src = FlatMsg { value: 7 };
    let mut dst = FlatMsg::default();
    assert_eq!(
        dst.merge_length_delimited(&mut wire_bytes(&src).as_slice(), &mut test_ctx(0)),
        Err(DecodeError::RecursionLimitExceeded)
    );
    // depth=1 succeeds: exactly one level is consumed.
    dst.merge_length_delimited(&mut wire_bytes(&src).as_slice(), &mut test_ctx(1))
        .unwrap();
    assert_eq!(dst.value, 7);
}

#[test]
fn test_decode_from_slice_basic() {
    let src = FlatMsg { value: 42 };
    let bytes = src.encode_to_vec();
    let dst = FlatMsg::decode_from_slice(&bytes).unwrap();
    assert_eq!(dst.value, 42);
}

#[test]
fn test_encode_to_bytes_matches_encode_to_vec() {
    let src = FlatMsg { value: 42 };
    let vec = src.encode_to_vec();
    let bytes = src.encode_to_bytes();
    assert_eq!(vec.as_slice(), bytes.as_ref());
    // Round-trip through the Bytes variant.
    let dst = FlatMsg::decode_from_slice(&bytes).unwrap();
    assert_eq!(dst.value, 42);
    // Empty-message case: zero-length buffer is well-defined.
    assert!(FlatMsg::default().encode_to_bytes().is_empty());
}

#[test]
fn test_decode_from_slice_empty() {
    let dst = FlatMsg::decode_from_slice(&[]).unwrap();
    assert_eq!(dst.value, 0);
}

#[test]
fn test_decode_from_slice_invalid_returns_error() {
    // A lone 0xFF byte is not a valid varint tag.
    let result = FlatMsg::decode_from_slice(&[0xFF]);
    assert!(result.is_err());
}

#[test]
fn test_merge_from_slice_basic() {
    let src = FlatMsg { value: 7 };
    let bytes = src.encode_to_vec();
    let mut dst = FlatMsg::default();
    dst.merge_from_slice(&bytes).unwrap();
    assert_eq!(dst.value, 7);
}

#[test]
fn test_merge_from_slice_last_wins() {
    let src1 = FlatMsg { value: 1 };
    let src2 = FlatMsg { value: 2 };
    let mut dst = FlatMsg::default();
    dst.merge_from_slice(&src1.encode_to_vec()).unwrap();
    dst.merge_from_slice(&src2.encode_to_vec()).unwrap();
    // Proto3 last-wins semantics for scalar fields.
    assert_eq!(dst.value, 2);
}

// DecodeOptions tests

#[test]
fn test_decode_options_default_works() {
    let src = FlatMsg { value: 99 };
    let bytes = src.encode_to_vec();
    let msg: FlatMsg = DecodeOptions::new().decode_from_slice(&bytes).unwrap();
    assert_eq!(msg.value, 99);
}

#[test]
fn test_decode_options_max_message_size_rejects() {
    let src = FlatMsg { value: 42 };
    let bytes = src.encode_to_vec();
    // Set max size to 1 byte — smaller than the encoded message.
    let result: Result<FlatMsg, _> = DecodeOptions::new()
        .with_max_message_size(1)
        .decode_from_slice(&bytes);
    assert_eq!(result, Err(DecodeError::MessageTooLarge));
}

#[test]
fn test_decode_options_max_message_size_exact_boundary() {
    let src = FlatMsg { value: 42 };
    let bytes = src.encode_to_vec();
    // Exact size should succeed.
    let msg: FlatMsg = DecodeOptions::new()
        .with_max_message_size(bytes.len())
        .decode_from_slice(&bytes)
        .unwrap();
    assert_eq!(msg.value, 42);
    // One byte less should fail.
    let result: Result<FlatMsg, _> = DecodeOptions::new()
        .with_max_message_size(bytes.len() - 1)
        .decode_from_slice(&bytes);
    assert_eq!(result, Err(DecodeError::MessageTooLarge));
}

#[test]
fn test_decode_options_custom_recursion_limit() {
    // FlatMsg has no nested messages, so any recursion limit >= 0 works.
    // Just verify the API compiles and runs.
    let src = FlatMsg { value: 7 };
    let bytes = src.encode_to_vec();
    let msg: FlatMsg = DecodeOptions::new()
        .with_recursion_limit(1)
        .decode_from_slice(&bytes)
        .unwrap();
    assert_eq!(msg.value, 7);
}

#[test]
fn test_decode_options_merge() {
    let src = FlatMsg { value: 55 };
    let bytes = src.encode_to_vec();
    let mut msg = FlatMsg::default();
    DecodeOptions::new()
        .merge_from_slice(&mut msg, &bytes)
        .unwrap();
    assert_eq!(msg.value, 55);
}

#[test]
fn test_decode_options_merge_rejects_oversize() {
    let src = FlatMsg { value: 55 };
    let bytes = src.encode_to_vec();
    let mut msg = FlatMsg::default();
    let result = DecodeOptions::new()
        .with_max_message_size(1)
        .merge_from_slice(&mut msg, &bytes);
    assert_eq!(result, Err(DecodeError::MessageTooLarge));
}

#[test]
fn test_decode_options_length_delimited() {
    let src = FlatMsg { value: 42 };
    let mut ld_bytes = Vec::new();
    src.encode_length_delimited(&mut ld_bytes);
    let msg: FlatMsg = DecodeOptions::new()
        .decode_length_delimited(&mut ld_bytes.as_slice())
        .unwrap();
    assert_eq!(msg.value, 42);
}

#[test]
fn test_decode_options_length_delimited_rejects_oversize() {
    let src = FlatMsg { value: 42 };
    let mut ld_bytes = Vec::new();
    src.encode_length_delimited(&mut ld_bytes);
    let result: Result<FlatMsg, _> = DecodeOptions::new()
        .with_max_message_size(1)
        .decode_length_delimited(&mut ld_bytes.as_slice());
    assert_eq!(result, Err(DecodeError::MessageTooLarge));
}

#[test]
fn decode_options_getters_return_defaults() {
    let opts = DecodeOptions::new();
    assert_eq!(opts.recursion_limit(), RECURSION_LIMIT);
    assert_eq!(opts.max_message_size(), 0x7FFF_FFFF);
    assert_eq!(opts.unknown_field_limit(), DEFAULT_UNKNOWN_FIELD_LIMIT);
}

#[test]
fn decode_options_getters_return_custom_values() {
    let opts = DecodeOptions::new()
        .with_recursion_limit(42)
        .with_max_message_size(1024)
        .with_unknown_field_limit(2048);
    assert_eq!(opts.recursion_limit(), 42);
    assert_eq!(opts.max_message_size(), 1024);
    assert_eq!(opts.unknown_field_limit(), 2048);
}

#[test]
fn decode_options_max_message_size_above_protobuf_limit_saturates() {
    let opts = DecodeOptions::new().with_max_message_size(MAX_MESSAGE_BYTES as usize + 1);
    assert_eq!(opts.max_message_size(), MAX_MESSAGE_BYTES as usize);
}

#[test]
fn test_decode_options_default_impl() {
    // DecodeOptions::default() ≡ DecodeOptions::new().
    let opts = DecodeOptions::default();
    assert_eq!(opts.recursion_limit(), RECURSION_LIMIT);
    assert_eq!(opts.max_message_size(), 0x7FFF_FFFF);
    assert_eq!(opts.unknown_field_limit(), DEFAULT_UNKNOWN_FIELD_LIMIT);
}

#[test]
fn test_decode_options_decode_buf() {
    // The Buf-taking decode() variant (vs decode_from_slice).
    let src = FlatMsg { value: 123 };
    let bytes = src.encode_to_vec();
    let msg: FlatMsg = DecodeOptions::new().decode(&mut bytes.as_slice()).unwrap();
    assert_eq!(msg.value, 123);
    // Oversize check on the Buf variant.
    let result: Result<FlatMsg, _> = DecodeOptions::new()
        .with_max_message_size(1)
        .decode(&mut bytes.as_slice());
    assert_eq!(result, Err(DecodeError::MessageTooLarge));
}

#[test]
fn test_decode_options_merge_buf() {
    // The Buf-taking merge() variant (vs merge_from_slice).
    let src = FlatMsg { value: 77 };
    let bytes = src.encode_to_vec();
    let mut msg = FlatMsg::default();
    DecodeOptions::new()
        .merge(&mut msg, &mut bytes.as_slice())
        .unwrap();
    assert_eq!(msg.value, 77);
    // Oversize check.
    let mut msg = FlatMsg::default();
    let result = DecodeOptions::new()
        .with_max_message_size(1)
        .merge(&mut msg, &mut bytes.as_slice());
    assert_eq!(result, Err(DecodeError::MessageTooLarge));
}

// Message trait default methods

#[test]
fn test_message_encode_trait_default() {
    // Message::encode(buf) ≡ compute_size() then write_to(buf).
    let src = FlatMsg { value: 42 };
    let mut buf = Vec::new();
    src.encode(&mut buf);
    assert_eq!(buf, src.encode_to_vec());
}

#[test]
fn test_message_decode_length_delimited_trait_default() {
    // The trait-level decode_length_delimited (distinct from
    // DecodeOptions::decode_length_delimited).
    let src = FlatMsg { value: 42 };
    let mut ld = Vec::new();
    src.encode_length_delimited(&mut ld);
    let got = FlatMsg::decode_length_delimited(&mut ld.as_slice()).unwrap();
    assert_eq!(got.value, 42);
}

#[test]
fn test_message_decode_length_delimited_oversize() {
    // Length prefix > 2 GiB → MessageTooLarge.
    let mut buf = Vec::new();
    encode_varint(0x8000_0000u64, &mut buf);
    let result = FlatMsg::decode_length_delimited(&mut buf.as_slice());
    assert_eq!(result, Err(DecodeError::MessageTooLarge));
}

#[test]
fn test_message_decode_length_delimited_truncated() {
    // Length prefix says 10 bytes, buffer has 2.
    let mut buf = Vec::new();
    encode_varint(10, &mut buf);
    buf.push(0x08);
    buf.push(0x01);
    let result = FlatMsg::decode_length_delimited(&mut buf.as_slice());
    assert_eq!(result, Err(DecodeError::UnexpectedEof));
}

#[test]
fn test_message_decode_length_delimited_with_trailing() {
    // Buffer has two back-to-back length-delimited messages.
    // decode_length_delimited should consume exactly the first one
    // and leave the buffer positioned at the second.
    let a = FlatMsg { value: 1 };
    let b = FlatMsg { value: 2 };
    let mut buf = Vec::new();
    a.encode_length_delimited(&mut buf);
    b.encode_length_delimited(&mut buf);

    let mut cur = buf.as_slice();
    let first = FlatMsg::decode_length_delimited(&mut cur).unwrap();
    assert_eq!(first.value, 1);
    let second = FlatMsg::decode_length_delimited(&mut cur).unwrap();
    assert_eq!(second.value, 2);
    assert!(cur.is_empty());
}

// merge_group tests

/// Build a group body for FlatMsg (field 1 = value) terminated by
/// EndGroup with the given field number.
fn group_bytes(value: i32, group_field_number: u32) -> Vec<u8> {
    let mut buf = Vec::new();
    if value != 0 {
        Tag::new(1, WireType::Varint).encode(&mut buf);
        encode_int32(value, &mut buf);
    }
    Tag::new(group_field_number, WireType::EndGroup).encode(&mut buf);
    buf
}

#[test]
fn test_merge_group_basic() {
    let data = group_bytes(42, 5);
    let mut dst = FlatMsg::default();
    dst.merge_group(&mut data.as_slice(), &mut test_ctx(RECURSION_LIMIT), 5)
        .unwrap();
    assert_eq!(dst.value, 42);
}

#[test]
fn test_merge_group_empty() {
    // Group with no fields — just EndGroup.
    let data = group_bytes(0, 3);
    let mut dst = FlatMsg::default();
    dst.merge_group(&mut data.as_slice(), &mut test_ctx(RECURSION_LIMIT), 3)
        .unwrap();
    assert_eq!(dst.value, 0);
}

#[test]
fn test_merge_group_merges_into_existing() {
    let data1 = group_bytes(1, 5);
    let data2 = group_bytes(2, 5);
    let mut dst = FlatMsg::default();
    dst.merge_group(&mut data1.as_slice(), &mut test_ctx(RECURSION_LIMIT), 5)
        .unwrap();
    assert_eq!(dst.value, 1);
    dst.merge_group(&mut data2.as_slice(), &mut test_ctx(RECURSION_LIMIT), 5)
        .unwrap();
    assert_eq!(dst.value, 2);
}

#[test]
fn test_merge_group_recursion_limit_zero() {
    // depth=0 should immediately fail with RecursionLimitExceeded
    // because merge_group decrements before entering the loop.
    let data = group_bytes(42, 5);
    let mut dst = FlatMsg::default();
    assert_eq!(
        dst.merge_group(&mut data.as_slice(), &mut test_ctx(0), 5),
        Err(DecodeError::RecursionLimitExceeded)
    );
}

#[test]
fn test_merge_group_recursion_limit_one_succeeds() {
    // depth=1 succeeds: merge_group decrements to 0, but FlatMsg's
    // merge_field doesn't recurse further.
    let data = group_bytes(7, 5);
    let mut dst = FlatMsg::default();
    dst.merge_group(&mut data.as_slice(), &mut test_ctx(1), 5)
        .unwrap();
    assert_eq!(dst.value, 7);
}

#[test]
fn test_merge_group_mismatched_end() {
    // EndGroup with wrong field number.
    let mut data = Vec::new();
    Tag::new(99, WireType::EndGroup).encode(&mut data);

    let mut dst = FlatMsg::default();
    assert_eq!(
        dst.merge_group(&mut data.as_slice(), &mut test_ctx(RECURSION_LIMIT), 5),
        Err(DecodeError::InvalidEndGroup(99))
    );
}

#[test]
fn test_merge_group_truncated() {
    // Buffer ends without EndGroup tag.
    let mut data = Vec::new();
    Tag::new(1, WireType::Varint).encode(&mut data);
    encode_int32(42, &mut data);
    // No EndGroup.

    let mut dst = FlatMsg::default();
    assert_eq!(
        dst.merge_group(&mut data.as_slice(), &mut test_ctx(RECURSION_LIMIT), 5),
        Err(DecodeError::UnexpectedEof)
    );
}

#[test]
fn test_merge_group_empty_buffer() {
    let mut dst = FlatMsg::default();
    assert_eq!(
        dst.merge_group(&mut [].as_slice(), &mut test_ctx(RECURSION_LIMIT), 5),
        Err(DecodeError::UnexpectedEof)
    );
}

#[test]
fn test_merge_group_unknown_fields_skipped() {
    // Group body contains an unknown field (field 99) which FlatMsg
    // routes to skip_field; the known field (field 1) should still
    // be decoded.
    let mut data = Vec::new();
    // Unknown varint field 99 = 0
    Tag::new(99, WireType::Varint).encode(&mut data);
    encode_varint(0, &mut data);
    // Known field 1 = 99
    Tag::new(1, WireType::Varint).encode(&mut data);
    encode_int32(99, &mut data);
    // EndGroup(5)
    Tag::new(5, WireType::EndGroup).encode(&mut data);

    let mut dst = FlatMsg::default();
    dst.merge_group(&mut data.as_slice(), &mut test_ctx(RECURSION_LIMIT), 5)
        .unwrap();
    assert_eq!(dst.value, 99);
}

#[test]
fn test_merge_group_trailing_data_preserved() {
    // After the EndGroup tag, trailing data should remain in the buffer.
    let mut data = group_bytes(42, 5);
    data.extend_from_slice(&[0xDE, 0xAD]);

    let mut cur = data.as_slice();
    let mut dst = FlatMsg::default();
    dst.merge_group(&mut cur, &mut test_ctx(RECURSION_LIMIT), 5)
        .unwrap();
    assert_eq!(dst.value, 42);
    assert_eq!(cur, &[0xDE, 0xAD]);
}

// read_varint tests

#[test]
fn roundtrip_values() {
    let cases: &[u64] = &[0, 1, 127, 128, 300, 1 << 14, 1 << 35, 1 << 63, u64::MAX];
    for &v in cases {
        let mut buf = Vec::new();
        encode_varint(v, &mut buf);
        let got = read_varint(&mut buf.as_slice()).unwrap();
        assert_eq!(got, v, "roundtrip failed for {v}");
    }
}

#[test]
fn rejects_10th_byte_overflow() {
    // 9 continuation bytes + 10th byte with overflow bit (0x02).
    let mut bad: Vec<u8> = vec![0xFF; 9];
    bad.push(0x02);
    let err = read_varint(&mut bad.as_slice()).unwrap_err();
    assert_eq!(err.kind(), ReadErrorKind::InvalidData);
}

#[test]
fn rejects_11th_byte() {
    // 10 continuation bytes — implies an 11th byte is needed.
    let bad: &[u8] = &[0xFF; 10];
    let err = read_varint(&mut &bad[..]).unwrap_err();
    assert_eq!(err.kind(), ReadErrorKind::InvalidData);
}

#[test]
fn u64_max_roundtrips() {
    // u64::MAX requires 10 bytes with the 10th byte == 0x01.
    let mut buf = Vec::new();
    encode_varint(u64::MAX, &mut buf);
    assert_eq!(buf.len(), 10);
    assert_eq!(buf[9], 0x01);
    let got = read_varint(&mut buf.as_slice()).unwrap();
    assert_eq!(got, u64::MAX);
}

#[test]
fn eof_before_terminator_is_error() {
    // Single continuation byte with no follow-up.
    let bad: &[u8] = &[0x80];
    let err = read_varint(&mut &bad[..]).unwrap_err();
    assert_eq!(err.kind(), ReadErrorKind::UnexpectedEof);
}

#[test]
fn empty_input_is_error() {
    let err = read_varint(&mut &[][..]).unwrap_err();
    assert_eq!(err.kind(), ReadErrorKind::UnexpectedEof);
}

#[test]
fn a_read_takes_every_byte_it_reads() {
    let mut early: &[u8] = &[0x80, 0x80];
    assert_eq!(read_varint(&mut early).unwrap_err().kind(), ReadErrorKind::UnexpectedEof);
    assert!(early.is_empty());
    let mut long: &[u8] = &[0xFF; 12];
    assert_eq!(read_varint(&mut long).unwrap_err().kind(), ReadErrorKind::InvalidData);
    assert_eq!(long, &[0xFF; 2]);
    let mut fine: &[u8] = &[0xAC, 0x02, 7];
    assert_eq!(read_varint(&mut fine).unwrap(), 300);
    assert_eq!(fine, &[7]);
}

// Encode-side 2 GiB guard tests

const OVER_LIMIT: u32 = MAX_MESSAGE_BYTES + 1;

#[test]
fn saturate_size_is_exact_below_u32_max_and_saturates_above() {
    assert_eq!(saturate_size(0), 0);
    assert_eq!(saturate_size(MAX_MESSAGE_BYTES as u64), MAX_MESSAGE_BYTES);
    // 2–4 GiB window: exact (this is what makes the guard byte-precise).
    assert_eq!(saturate_size(0x8000_0000), 0x8000_0000u32);
    assert_eq!(saturate_size(u32::MAX as u64), u32::MAX);
    assert_eq!(saturate_size(u32::MAX as u64 + 1), u32::MAX);
    assert_eq!(saturate_size(u64::MAX), u32::MAX);
}

#[test]
fn encode_at_exactly_max_size_is_allowed() {
    // The guard is strictly-greater-than: a (fake) message of exactly
    // MAX_MESSAGE_BYTES passes. `encode` has no write-count ledger, so
    // the no-op write_to is fine here.
    let msg = SizedMsg {
        reported_size: MAX_MESSAGE_BYTES,
    };
    let mut buf = Vec::new();
    msg.encode(&mut buf);
    assert!(msg.try_encode(&mut buf).is_ok());
}

#[test]
fn try_encode_over_limit_errors_and_writes_nothing() {
    let msg = SizedMsg {
        reported_size: OVER_LIMIT,
    };
    let mut buf = Vec::new();
    assert_eq!(msg.try_encode(&mut buf), Err(EncodeError::MessageTooLarge));
    assert!(buf.is_empty(), "no bytes may reach the buffer on Err");
    let mut cache = SizeCache::new();
    assert_eq!(
        msg.try_encode_with_cache(&mut cache, &mut buf),
        Err(EncodeError::MessageTooLarge)
    );
    assert!(buf.is_empty(), "no bytes may reach the buffer on Err");
    assert_eq!(
        msg.try_encode_length_delimited(&mut buf),
        Err(EncodeError::MessageTooLarge)
    );
    assert!(buf.is_empty(), "not even the length prefix");
    assert_eq!(msg.try_encode_to_vec(), Err(EncodeError::MessageTooLarge));
    assert_eq!(msg.try_encode_to_bytes(), Err(EncodeError::MessageTooLarge));
    assert_eq!(msg.try_encoded_len(), Err(EncodeError::MessageTooLarge));
}

#[test]
fn try_encode_matches_encode_for_normal_messages() {
    let msg = FlatMsg { value: 42 };
    let mut expected = Vec::new();
    msg.encode(&mut expected);
    let mut actual = Vec::new();
    msg.try_encode(&mut actual).unwrap();
    assert_eq!(actual, expected);
    let mut cache = SizeCache::new();
    let mut cached = Vec::new();
    msg.try_encode_with_cache(&mut cache, &mut cached).unwrap();
    assert_eq!(cached, expected);
    assert_eq!(msg.try_encode_to_vec().unwrap(), expected);
    assert_eq!(msg.try_encode_to_bytes().unwrap(), expected);
    assert_eq!(msg.try_encoded_len().unwrap(), expected.len() as u32);

    let mut ld_expected = Vec::new();
    msg.encode_length_delimited(&mut ld_expected);
    let mut ld_actual = Vec::new();
    msg.try_encode_length_delimited(&mut ld_actual).unwrap();
    assert_eq!(ld_actual, ld_expected);
}

#[test]
fn try_encode_bounded_within_budget_encodes_and_returns_len() {
    let msg = FlatMsg { value: 42 };
    let mut expected = Vec::new();
    msg.encode(&mut expected);
    let budget = expected.len() as u32;

    let mut buf = Vec::new();
    let len = msg.try_encode_bounded(budget, &mut buf).unwrap();
    assert_eq!(buf, expected);
    assert_eq!(len, budget);

    // with_cache variant agrees
    let mut cache = SizeCache::new();
    let mut buf2 = Vec::new();
    let len2 = msg
        .try_encode_bounded_with_cache(budget, &mut cache, &mut buf2)
        .unwrap();
    assert_eq!(buf2, expected);
    assert_eq!(len2, budget);
}

#[test]
fn try_encode_bounded_at_exact_limit_succeeds() {
    let msg = FlatMsg { value: 42 };
    let exact = msg.encoded_len();
    let mut buf = Vec::new();
    assert!(msg.try_encode_bounded(exact, &mut buf).is_ok());
}

#[test]
fn try_encode_bounded_over_budget_errors_and_writes_nothing() {
    let msg = FlatMsg { value: 42 };
    let len = msg.encoded_len();
    let budget = len - 1; // one byte under

    let mut buf = Vec::new();
    assert_eq!(
        msg.try_encode_bounded(budget, &mut buf),
        Err(EncodeError::ExceedsBudget {
            len,
            max_bytes: budget
        })
    );
    assert!(buf.is_empty(), "nothing written on budget exceeded");
}

/// "Nothing written on `Err`" has to hold for a sink that already has
/// bytes in it, which is how a caller framing several messages uses one
/// buffer. Every other test starts from an empty `Vec`, so the append
/// case — where a partial write would corrupt the *preceding* message
/// rather than produce an obviously empty one — would go unnoticed.
#[test]
fn try_encode_bounded_over_budget_leaves_a_populated_buffer_untouched() {
    let msg = FlatMsg { value: 42 };
    let len = msg.encoded_len();
    let budget = len - 1;

    let prefix = b"already framed".to_vec();
    let mut buf = prefix.clone();
    assert_eq!(
        msg.try_encode_bounded(budget, &mut buf),
        Err(EncodeError::ExceedsBudget {
            len,
            max_bytes: budget
        })
    );
    assert_eq!(buf, prefix, "the bytes already in the sink must survive");
}

#[test]
fn try_encode_bounded_zero_budget_with_empty_message_succeeds() {
    // A default FlatMsg with value=0 encodes to 0 bytes (all defaults
    // are elided in proto3), so budget=0 is exactly satisfied.
    let msg = FlatMsg { value: 0 };
    let mut buf = Vec::new();
    let len = msg.try_encode_bounded(0, &mut buf).unwrap();
    assert_eq!(len, 0);
    assert!(buf.is_empty());
}

#[test]
fn try_encode_bounded_over_protobuf_limit_errors_as_too_large() {
    let msg = SizedMsg {
        reported_size: OVER_LIMIT,
    };
    let mut buf = Vec::new();
    assert_eq!(
        msg.try_encode_bounded(u32::MAX, &mut buf),
        Err(EncodeError::MessageTooLarge)
    );
    assert!(buf.is_empty());
}

#[test]
fn pool_try_encode_bounded_within_budget_encodes_and_returns_len() {
    let msg = FlatMsg { value: 42 };
    let mut expected = Vec::new();
    msg.encode(&mut expected);
    let budget = expected.len() as u32;

    let mut pool = SizeCachePool::sequential(64);
    let mut buf = Vec::new();
    let len = pool.try_encode_bounded(&msg, budget, &mut buf).unwrap();
    assert_eq!(buf, expected);
    assert_eq!(len, budget);
}

#[test]
fn pool_try_encode_bounded_over_budget_errors_and_writes_nothing() {
    let msg = FlatMsg { value: 42 };
    let len = msg.encoded_len();
    let budget = len - 1;

    let mut pool = SizeCachePool::sequential(64);
    let mut buf = Vec::new();
    assert_eq!(
        pool.try_encode_bounded(&msg, budget, &mut buf),
        Err(EncodeError::ExceedsBudget {
            len,
            max_bytes: budget
        })
    );
    assert!(buf.is_empty());
    // Pool buffer must be returned even on Err.
    assert_eq!(pool.try_encode_bounded(&msg, len, &mut buf).unwrap(), len);
}

#[test]
fn pool_try_encode_bounded_over_protobuf_limit_errors_as_too_large() {
    let msg = SizedMsg {
        reported_size: OVER_LIMIT,
    };
    let mut pool = SizeCachePool::sequential(64);
    let mut buf = Vec::new();
    assert_eq!(
        pool.try_encode_bounded(&msg, u32::MAX, &mut buf),
        Err(EncodeError::MessageTooLarge)
    );
    assert!(buf.is_empty());
}

// Decoding from a reader

#[test]
fn decode_reader_basic() {
    let src = FlatMsg { value: 42 };
    let bytes = src.encode_to_vec();
    let msg: FlatMsg = DecodeOptions::new()
        .decode_reader(&mut bytes.as_slice())
        .unwrap();
    assert_eq!(msg.value, 42);
}

#[test]
fn decode_reader_rejects_oversize() {
    let src = FlatMsg { value: 42 };
    let bytes = src.encode_to_vec();
    let err = DecodeOptions::new()
        .with_max_message_size(1)
        .decode_reader::<FlatMsg>(&mut bytes.as_slice())
        .unwrap_err();
    assert_eq!(err.kind(), std::io::ErrorKind::InvalidData);
}

#[test]
fn decode_reader_exact_boundary() {
    // max_message_size == encoded length → success.
    let src = FlatMsg { value: 42 };
    let bytes = src.encode_to_vec();
    let msg: FlatMsg = DecodeOptions::new()
        .with_max_message_size(bytes.len())
        .decode_reader(&mut bytes.as_slice())
        .unwrap();
    assert_eq!(msg.value, 42);
}

#[test]
fn decode_options_reader_size_unbounded_getter_tracks_builder_order() {
    let opts = DecodeOptions::new();
    assert!(!opts.is_reader_size_unbounded());

    let opts = opts.without_reader_size_limit();
    assert!(opts.is_reader_size_unbounded());

    let opts = opts.with_max_message_size(1024);
    assert!(!opts.is_reader_size_unbounded());
}

#[test]
fn decode_reader_without_size_limit_does_not_overflow() {
    let src = FlatMsg { value: 42 };
    let bytes = src.encode_to_vec();
    let msg: FlatMsg = DecodeOptions::new()
        .without_reader_size_limit()
        .decode_reader(&mut bytes.as_slice())
        .unwrap();
    assert_eq!(msg.value, 42);
}

#[test]
fn decode_reader_with_max_message_size_after_without_limit_reenables_limit() {
    let src = FlatMsg { value: 42 };
    let bytes = src.encode_to_vec();
    let opts = DecodeOptions::new()
        .without_reader_size_limit()
        .with_max_message_size(1);
    assert!(!opts.is_reader_size_unbounded());

    let err = opts
        .decode_reader::<FlatMsg>(&mut bytes.as_slice())
        .unwrap_err();
    assert_eq!(err.kind(), std::io::ErrorKind::InvalidData);
}

#[test]
fn decode_reader_without_size_limit_keeps_slice_limit() {
    let src = FlatMsg { value: 42 };
    let bytes = src.encode_to_vec();
    let opts = DecodeOptions::new()
        .with_max_message_size(1)
        .without_reader_size_limit();
    assert!(opts.is_reader_size_unbounded());

    let slice_result: Result<FlatMsg, _> = opts.decode_from_slice(&bytes);
    assert_eq!(slice_result, Err(DecodeError::MessageTooLarge));

    let msg: FlatMsg = opts.decode_reader(&mut bytes.as_slice()).unwrap();
    assert_eq!(msg.value, 42);
}

#[test]
fn decode_reader_propagates_read_error() {
    let err = DecodeOptions::new()
        .decode_reader::<FlatMsg>(&mut ErrReader)
        .unwrap_err();
    assert_eq!(err.kind(), std::io::ErrorKind::BrokenPipe);
}

#[test]
fn decode_length_delimited_reader_basic() {
    let src = FlatMsg { value: 99 };
    let mut ld = Vec::new();
    src.encode_length_delimited(&mut ld);
    let msg: FlatMsg = DecodeOptions::new()
        .decode_length_delimited_reader(&mut ld.as_slice())
        .unwrap();
    assert_eq!(msg.value, 99);
}

#[test]
fn decode_length_delimited_reader_rejects_oversize_prefix() {
    // Length prefix claims more bytes than max_message_size allows.
    let src = FlatMsg { value: 99 };
    let mut ld = Vec::new();
    src.encode_length_delimited(&mut ld);
    let err = DecodeOptions::new()
        .with_max_message_size(1)
        .decode_length_delimited_reader::<FlatMsg>(&mut ld.as_slice())
        .unwrap_err();
    assert_eq!(err.kind(), std::io::ErrorKind::InvalidData);
}

#[test]
fn decode_length_delimited_reader_zero_length() {
    // A zero length prefix decodes to the default message and
    // consumes only the prefix byte.
    let stream = [0x00u8, 0xFF]; // len=0, then unrelated trailing byte
    let mut cursor = std::io::Cursor::new(stream);
    let msg: FlatMsg = DecodeOptions::new()
        .decode_length_delimited_reader(&mut cursor)
        .unwrap();
    assert_eq!(msg, FlatMsg::default());
    assert_eq!(cursor.position(), 1);
}

#[test]
fn decode_length_delimited_reader_truncated_reports_eof() {
    // Length prefix declares more bytes than the stream delivers.
    let src = FlatMsg { value: 99 };
    let mut ld = Vec::new();
    src.encode_length_delimited(&mut ld);
    ld.truncate(ld.len() - 1);
    let err = DecodeOptions::new()
        .decode_length_delimited_reader::<FlatMsg>(&mut ld.as_slice())
        .unwrap_err();
    assert_eq!(err.kind(), std::io::ErrorKind::UnexpectedEof);
}

#[test]
fn decode_length_delimited_reader_huge_claim_without_delivery() {
    // A 5-byte prefix declaring ~2 GiB followed by EOF must fail with
    // UnexpectedEof without allocating the declared length up front —
    // the buffer only grows as bytes are actually delivered. (This
    // test completes instantly; before the incremental-read fix it
    // zero-filled a ~2 GiB buffer first.)
    let mut stream = Vec::new();
    encode_varint(0x7FFF_FFF0, &mut stream); // just under the cap
    let err = DecodeOptions::new()
        .decode_length_delimited_reader::<FlatMsg>(&mut stream.as_slice())
        .unwrap_err();
    assert_eq!(err.kind(), std::io::ErrorKind::UnexpectedEof);
}

#[test]
fn decode_length_delimited_without_reader_size_limit_keeps_protobuf_cap() {
    let mut stream = Vec::new();
    encode_varint(0x8000_0000, &mut stream);
    let result: Result<FlatMsg, _> = DecodeOptions::new()
        .without_reader_size_limit()
        .decode_length_delimited(&mut stream.as_slice());
    assert_eq!(result, Err(DecodeError::MessageTooLarge));
}

#[test]
fn decode_length_delimited_reader_without_size_limit_keeps_protobuf_cap() {
    let mut stream = Vec::new();
    encode_varint(0x8000_0000, &mut stream);
    let err = DecodeOptions::new()
        .without_reader_size_limit()
        .decode_length_delimited_reader::<FlatMsg>(&mut stream.as_slice())
        .unwrap_err();
    assert_eq!(err.kind(), std::io::ErrorKind::InvalidData);
}

#[test]
fn decode_length_delimited_reader_sequential() {
    // Two messages in a stream — typical log-file use case.
    let a = FlatMsg { value: 10 };
    let b = FlatMsg { value: 20 };
    let mut stream = Vec::new();
    a.encode_length_delimited(&mut stream);
    b.encode_length_delimited(&mut stream);

    let mut cursor = std::io::Cursor::new(stream);
    let first: FlatMsg = DecodeOptions::new()
        .decode_length_delimited_reader(&mut cursor)
        .unwrap();
    assert_eq!(first.value, 10);
    let second: FlatMsg = DecodeOptions::new()
        .decode_length_delimited_reader(&mut cursor)
        .unwrap();
    assert_eq!(second.value, 20);
}

#[test]
fn decode_length_delimited_reader_truncated_body() {
    // Length prefix says N bytes but reader EOFs early.
    let mut buf = Vec::new();
    encode_varint(100, &mut buf);
    buf.push(0x08);
    let err = DecodeOptions::new()
        .decode_length_delimited_reader::<FlatMsg>(&mut buf.as_slice())
        .unwrap_err();
    assert_eq!(err.kind(), std::io::ErrorKind::UnexpectedEof);
}

// Further cases

#[test]
fn varint_lengths_are_exact() {
    for (value, len) in [
        (0u64, 1),
        (127, 1),
        (128, 2),
        (16_383, 2),
        (16_384, 3),
        (u32::MAX as u64, 5),
        ((1 << 63) - 1, 9),
        (1 << 63, 10),
        (u64::MAX, 10),
    ] {
        let mut buf = Vec::new();
        encode_varint(value, &mut buf);
        assert_eq!(buf.len(), len);
        assert_eq!(varint_len(value), len);
        buf.push(0x55);
        let mut cursor = buf.as_slice();
        assert_eq!(decode_varint(&mut cursor), Ok(value));
        assert_eq!(cursor, &[0x55]);
    }
    let mut buf = Vec::new();
    encode_varint(300, &mut buf);
    assert_eq!(buf, vec![0xAC, 0x02]);
}

#[test]
fn decode_varint_leaves_bad_input_alone() {
    let bad = [0x80u8, 0x80];
    let mut cursor = &bad[..];
    assert_eq!(decode_varint(&mut cursor), Err(DecodeError::UnexpectedEof));
    assert_eq!(cursor, &bad);
    let long = [0xFFu8; 11];
    let mut cursor = &long[..];
    assert_eq!(decode_varint(&mut cursor), Err(DecodeError::VarintTooLong));
    assert_eq!(cursor.len(), 11);
    // A varint need not be the shortest one.
    let padded = [0x81u8, 0x80, 0x00];
    assert_eq!(decode_varint(&mut &padded[..]), Ok(1));
}

#[test]
fn varint_reader_steps() {
    let mut reader = VarintReader::new();
    assert_eq!(reader.push(0xAC), VarintStep::More);
    assert_eq!(reader.push(0x02), VarintStep::Done(300));
    let mut reader = VarintReader::new();
    for _ in 0..9 {
        assert_eq!(reader.push(0xFF), VarintStep::More);
    }
    assert_eq!(reader.push(0x02), VarintStep::TooLong);
}

#[test]
fn tags_roundtrip_and_reject() {
    for wire_type in [
        WireType::Varint,
        WireType::Fixed64,
        WireType::LengthDelimited,
        WireType::StartGroup,
        WireType::EndGroup,
        WireType::Fixed32,
    ] {
        for number in [1u32, 15, 16, 2047, 0x1FFF_FFFF] {
            let mut buf = Vec::new();
            Tag::new(number, wire_type).encode(&mut buf);
            let tag = Tag::decode(&mut buf.as_slice()).unwrap();
            assert_eq!(tag.field_number(), number);
            assert_eq!(tag.wire_type(), wire_type);
        }
    }
    // Field 0, wire type 6 and 7, and a number past the maximum.
    assert_eq!(
        Tag::decode(&mut &[0x02u8][..]),
        Err(DecodeError::InvalidFieldNumber)
    );
    assert_eq!(
        Tag::decode(&mut &[0x0Eu8][..]),
        Err(DecodeError::InvalidWireType(6))
    );
    assert_eq!(
        Tag::decode(&mut &[0x0Fu8][..]),
        Err(DecodeError::InvalidWireType(7))
    );
    let mut buf = Vec::new();
    encode_varint(0x2000_0000u64 << 3, &mut buf);
    assert_eq!(
        Tag::decode(&mut buf.as_slice()),
        Err(DecodeError::InvalidFieldNumber)
    );
}

#[test]
fn skip_field_spans_every_wire_type() {
    let cases: [(WireType, &[u8], usize); 4] = [
        (WireType::Varint, &[0x80, 0x01, 0xEE], 2),
        (WireType::Fixed64, &[0; 9], 8),
        (WireType::Fixed32, &[0; 5], 4),
        (WireType::LengthDelimited, &[0x02, 1, 2, 0xEE], 3),
    ];
    for (wire_type, bytes, span) in cases {
        let mut cursor = bytes;
        assert_eq!(skip_field(Tag::new(3, wire_type), &mut cursor), Ok(()));
        assert_eq!(cursor.len(), bytes.len() - span);
        let mut short = &bytes[..span - 1];
        assert_eq!(
            skip_field(Tag::new(3, wire_type), &mut short),
            Err(DecodeError::UnexpectedEof)
        );
        assert_eq!(short.len(), span - 1);
    }
    assert_eq!(
        skip_field(Tag::new(3, WireType::EndGroup), &mut &[][..]),
        Err(DecodeError::InvalidEndGroup(3))
    );
}

#[test]
fn skip_field_follows_nested_groups() {
    let mut body = Vec::new();
    Tag::new(7, WireType::StartGroup).encode(&mut body);
    Tag::new(1, WireType::Varint).encode(&mut body);
    encode_varint(9, &mut body);
    Tag::new(7, WireType::EndGroup).encode(&mut body);
    Tag::new(3, WireType::EndGroup).encode(&mut body);
    body.push(0xEE);
    let mut cursor = body.as_slice();
    assert_eq!(
        skip_field(Tag::new(3, WireType::StartGroup), &mut cursor),
        Ok(())
    );
    assert_eq!(cursor, &[0xEE]);
    // The outer group ends with the inner one's number.
    let mut crossed = Vec::new();
    Tag::new(7, WireType::EndGroup).encode(&mut crossed);
    assert_eq!(
        skip_field(Tag::new(3, WireType::StartGroup), &mut crossed.as_slice()),
        Err(DecodeError::InvalidEndGroup(7))
    );
    // Deeper than the limit.
    let mut deep = Vec::new();
    for _ in 0..100 {
        Tag::new(3, WireType::StartGroup).encode(&mut deep);
    }
    assert_eq!(
        skip_field(Tag::new(3, WireType::StartGroup), &mut deep.as_slice()),
        Err(DecodeError::RecursionLimitExceeded)
    );
}

#[test]
fn context_allowances_run_out() {
    let mut ctx = DecodeContext::new(2, 1);
    assert_eq!(ctx.depth(), 2);
    assert_eq!(ctx.remaining_element_memory(), None);
    assert_eq!(ctx.register_element_memory(usize::MAX), Ok(()));
    assert_eq!(ctx.register_unknown_field(), Ok(()));
    assert_eq!(
        ctx.register_unknown_field(),
        Err(DecodeError::UnknownFieldLimitExceeded)
    );
    assert_eq!(ctx.remaining_unknown_fields(), 0);
    let mut ctx = ctx.with_element_memory(10);
    assert_eq!(ctx.register_element_memory(7), Ok(()));
    assert_eq!(
        ctx.register_element_memory(4),
        Err(DecodeError::ElementMemoryLimitExceeded)
    );
    assert_eq!(ctx.remaining_element_memory(), Some(3));
}

#[test]
fn context_levels_share_their_allowances() {
    let mut outer = DecodeContext::new(1, 5).with_element_memory(100);
    let mut inner = outer.descend().unwrap();
    assert_eq!(inner.depth(), 0);
    assert_eq!(
        inner.descend().unwrap_err(),
        DecodeError::RecursionLimitExceeded
    );
    inner.register_unknown_field().unwrap();
    inner.register_element_memory(60).unwrap();
    outer.resume(inner);
    assert_eq!(outer.depth(), 1);
    assert_eq!(outer.remaining_unknown_fields(), 4);
    assert_eq!(outer.remaining_element_memory(), Some(40));
}

#[test]
fn merge_to_limit_stops_at_the_limit() {
    let mut data = Vec::new();
    Tag::new(1, WireType::Varint).encode(&mut data);
    encode_int32(5, &mut data);
    data.extend_from_slice(&[0xAA, 0xBB]);
    let mut cursor = data.as_slice();
    let mut msg = FlatMsg::default();
    msg.merge_to_limit(&mut cursor, &mut test_ctx(1), 2).unwrap();
    assert_eq!(msg.value, 5);
    assert_eq!(cursor, &[0xAA, 0xBB]);
}

#[test]
fn a_field_that_overruns_its_message_is_cut_off() {
    // The length covers the tag of field 1 but not its value.
    let data = [0x01u8, 0x08, 0x07];
    assert_eq!(
        FlatMsg::decode_length_delimited(&mut &data[..]),
        Err(DecodeError::UnexpectedEof)
    );
}

#[test]
fn clear_puts_defaults_back() {
    let mut msg = FlatMsg { value: 3 };
    msg.clear();
    assert_eq!(msg, FlatMsg::default());
}

#[test]
fn checked_encode_size_is_inclusive() {
    assert_eq!(checked_encode_size(MAX_MESSAGE_BYTES), Ok(MAX_MESSAGE_BYTES));
    assert_eq!(
        checked_encode_size(OVER_LIMIT),
        Err(EncodeError::MessageTooLarge)
    );
}

#[test]
fn pooled_encodes_return_their_buffer() {
    let msg = NestedMsg { count: 40, reported_size: 40 };
    let over = NestedMsg { count: 40, reported_size: MAX_MESSAGE_BYTES + 1 };
    let flat = FlatMsg { value: 42 };
    let mut pool = SizeCachePool::new(2, 1024);
    let mut buf = Vec::new();

    pool.try_encode(&flat, &mut buf).unwrap();
    assert!(pool.free().is_empty(), "an encode that does not spill has nothing to leave");
    assert_eq!(pool.try_encoded_len(&over), Err(EncodeError::MessageTooLarge));
    assert_eq!(pool.free().len(), 1, "a failed one leaves its buffer");
    let grown = pool.free()[0].capacity();

    assert_eq!(pool.encoded_len(&msg), 40);
    assert_eq!(pool.try_encoded_len(&flat), Ok(2));
    pool.encode(&msg, &mut buf);
    pool.encode_view(&NestedView(&msg), &mut buf);
    assert_eq!(pool.try_encode(&over, &mut buf), Err(EncodeError::MessageTooLarge));
    assert_eq!(
        pool.try_encode_view(&NestedView(&over), &mut buf),
        Err(EncodeError::MessageTooLarge)
    );
    assert_eq!(
        pool.try_encode_bounded(&msg, 39, &mut buf),
        Err(EncodeError::ExceedsBudget { len: 40, max_bytes: 39 })
    );
    assert_eq!(
        pool.try_encode_view_bounded(&NestedView(&msg), 39, &mut buf),
        Err(EncodeError::ExceedsBudget { len: 40, max_bytes: 39 })
    );
    assert_eq!(pool.free().len(), 1, "one buffer does for all of them");
    assert!(pool.free()[0].capacity() >= grown);
    assert!(pool.free()[0].is_empty());
}

#[test]
fn an_encode_leaves_the_nested_sizes_in_its_cache() {
    let msg = NestedMsg { count: 20, reported_size: 20 };
    let mut cache = SizeCache::new();
    let stale = cache.reserve();
    cache.set(stale, 9);
    let mut buf = Vec::new();
    msg.encode_with_cache(&mut cache, &mut buf);
    assert_eq!((cache.len(), cache.cursor()), (20, 20));
    assert_eq!(buf, vec![1; 20]);
    assert_eq!(
        msg.try_encode_bounded_with_cache(19, &mut cache, &mut buf),
        Err(EncodeError::ExceedsBudget { len: 20, max_bytes: 19 })
    );
    assert_eq!((cache.len(), cache.cursor()), (20, 0));
    assert_eq!(cache.dump().spill, vec![1; 4]);
}

#[test]
fn pool_entry_points_agree_with_the_plain_ones() {
    let msg = FlatMsg { value: 42 };
    let mut pool = SizeCachePool::new(2, 8);
    assert_eq!(pool.encoded_len(&msg), msg.encoded_len());
    assert_eq!(pool.try_encoded_len(&msg), Ok(2));
    let expected = msg.encode_to_vec();
    assert_eq!(expected, vec![0x08, 42]);
    let mut buf = vec![1u8];
    pool.encode(&msg, &mut buf);
    pool.try_encode(&msg, &mut buf).unwrap();
    pool.encode_view(&FlatView(&msg), &mut buf);
    pool.try_encode_view(&FlatView(&msg), &mut buf).unwrap();
    assert_eq!(pool.try_encode_view_bounded(&FlatView(&msg), 2, &mut buf), Ok(2));
    assert_eq!(buf, vec![1, 8, 42, 8, 42, 8, 42, 8, 42, 8, 42]);
    assert_eq!(
        pool.try_encode_view_bounded(&FlatView(&msg), 1, &mut buf),
        Err(EncodeError::ExceedsBudget { len: 2, max_bytes: 1 })
    );
    let over = SizedMsg { reported_size: OVER_LIMIT };
    assert_eq!(pool.try_encoded_len(&over), Err(EncodeError::MessageTooLarge));
    assert_eq!(pool.try_encode(&over, &mut buf), Err(EncodeError::MessageTooLarge));
    assert_eq!(
        pool.try_encode_view(&SizedView(&over), &mut buf),
        Err(EncodeError::MessageTooLarge)
    );
    assert_eq!(buf.len(), 11);
}

#[test]
fn encode_with_cache_clears_first() {
    let msg = FlatMsg { value: 42 };
    let mut cache = SizeCache::new();
    let stale = cache.reserve();
    cache.set(stale, 1);
    let mut buf = Vec::new();
    msg.encode_with_cache(&mut cache, &mut buf);
    assert_eq!(buf, vec![0x08, 42]);
    assert_eq!(cache.len(), 0);
    FlatView(&msg).encode_with_cache(&mut cache, &mut buf);
    assert_eq!(buf.len(), 4);
}

#[test]
fn bytes_mut_is_a_sink() {
    let mut sink = bytes::BytesMut::new();
    sink.put_slice(&[1, 2]);
    FlatMsg { value: 42 }.encode(&mut sink);
    assert_eq!(sink.as_ref(), &[1, 2, 0x08, 42]);
}

struct ByteView<'a> {
    bytes: &'a [u8],
    depth: u32,
}

impl<'a> MessageView<'a> for ByteView<'a> {
    fn decode_view_with_ctx(buf: &'a [u8], ctx: DecodeContext) -> Result<Self, DecodeError> {
        Ok(ByteView { bytes: buf, depth: ctx.depth() })
    }
}

impl<'a> LazyMessageView<'a> for ByteView<'a> {
    fn decode_lazy_with_ctx(buf: &'a [u8], ctx: DecodeContext) -> Result<Self, DecodeError> {
        Ok(ByteView { bytes: buf, depth: ctx.depth() })
    }
}

#[test]
fn views_are_held_to_the_options() {
    let opts = DecodeOptions::new()
        .with_recursion_limit(7)
        .with_max_message_size(2);
    let view: ByteView = opts.decode_view(&[1, 2]).unwrap();
    assert_eq!(view.bytes, &[1, 2]);
    assert_eq!(view.depth, 7);
    let lazy: ByteView = opts.decode_lazy_view(&[1]).unwrap();
    assert_eq!(lazy.depth, 7);
    assert!(opts.decode_view::<ByteView>(&[1, 2, 3]).is_err());
    assert!(matches!(
        opts.decode_lazy_view::<ByteView>(&[1, 2, 3]),
        Err(DecodeError::MessageTooLarge)
    ));
}

#[test]
fn element_memory_limit_is_kept() {
    let opts = DecodeOptions::new();
    assert_eq!(opts.element_memory_limit(), DEFAULT_ELEMENT_MEMORY_LIMIT);
    assert_eq!(
        opts.with_element_memory_limit(12).element_memory_limit(),
        12
    );
}

#[test]
fn reader_decisions() {
    let opts = DecodeOptions::new().with_max_message_size(300);
    assert_eq!(opts.reader_cap(), Some(301));
    assert_eq!(opts.without_reader_size_limit().reader_cap(), None);
    let mut prefix = VarintReader::new();
    assert_eq!(opts.prefix_step(&mut prefix, 0xAC), PrefixStep::More);
    assert_eq!(opts.prefix_step(&mut prefix, 0x02), PrefixStep::Body(300));
    let mut prefix = VarintReader::new();
    assert_eq!(opts.prefix_step(&mut prefix, 0xAD), PrefixStep::More);
    let refused = ReadError {
        kind: ReadErrorKind::InvalidData,
        source: DecodeError::MessageTooLarge,
    };
    assert_eq!(opts.prefix_step(&mut prefix, 0x02), PrefixStep::Refused(refused));
    assert_eq!(initial_capacity(10), 10);
    assert_eq!(initial_capacity(1 << 30), 64 * 1024);
}

struct Named;

impl MessageName for Named {
    const PACKAGE: &'static str = "demo";
    const NAME: &'static str = "Demo";
    const FULL_NAME: &'static str = "demo.Demo";
    const TYPE_URL: &'static str = "type.googleapis.com/demo.Demo";
}

fn registry_key<T: MessageName>() -> &'static str {
    T::FULL_NAME
}

#[test]
fn names_are_read_through_the_trait() {
    assert_eq!(registry_key::<Named>(), "demo.Demo");
    assert_eq!(Named::TYPE_URL, "type.googleapis.com/demo.Demo");
    assert_eq!(Named::PACKAGE, "demo");
    assert_eq!(Named::NAME, "Demo");
}
