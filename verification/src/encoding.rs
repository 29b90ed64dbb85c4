//! The binary wire format: varints, tags, and skipping over unknown fields.
//!
//! A varint holds an integer in base 128, least significant digit first, one
//! digit per byte, with the top bit of every byte but the last set. Decoding
//! accepts at most ten bytes, the tenth of which may only be 0 or 1.
use vstd::prelude::*;
use crate::buf;
use crate::buf::EncodeSink;
use crate::error::DecodeError;

verus! {

/// The base-128 number whose digits, least significant first, are the low
/// seven bits of each byte of `s`.
pub open spec fn varint_value(s: Seq<u8>) -> nat
    decreases s.len(),
{
    if s.len() == 0 {
        0
    } else {
        (s[0] % 128) as nat + 128 * varint_value(s.skip(1))
    }
}

/// The number of leading bytes of `s` whose continuation bit is set.
pub open spec fn continuation_run(s: Seq<u8>) -> nat
    decreases s.len(),
{
    if s.len() == 0 || s[0] < 0x80 {
        0
    } else {
        1 + continuation_run(s.skip(1))
    }
}

/// What a varint at the front of `s` decodes to, and how many bytes it takes.
pub open spec fn parse_varint(s: Seq<u8>) -> Result<(u64, nat), DecodeError> {
    let run = continuation_run(s);
    if run < 9 {
        if run < s.len() {
            Ok((varint_value(s.take(run as int + 1)) as u64, run + 1))
        } else {
            Err(DecodeError::UnexpectedEof)
        }
    } else if s.len() < 10 {
        Err(DecodeError::UnexpectedEof)
    } else if s[9] > 1 {
        Err(DecodeError::VarintTooLong)
    } else {
        Ok((varint_value(s.take(10)) as u64, 10))
    }
}

/// The canonical varint encoding of `v`.
pub open spec fn varint_bytes(v: nat) -> Seq<u8>
    decreases v,
{
    if v < 128 {
        seq![v as u8]
    } else {
        seq![(v % 128 + 128) as u8] + varint_bytes(v / 128)
    }
}

/// `128` to the power `n`.
pub open spec fn pow128(n: nat) -> nat
    decreases n,
{
    if n == 0 {
        1
    } else {
        128 * pow128((n - 1) as nat)
    }
}

pub(crate) proof fn lemma_pow128_values()
    ensures
        pow128(0) == 1,
        pow128(9) == 0x8000_0000_0000_0000,
{
    reveal_with_fuel(pow128, 10);
}

pub(crate) proof fn lemma_pow128_monotone(a: nat, b: nat)
    requires
        a <= b,
    ensures
        pow128(a) <= pow128(b),
    decreases b - a,
{
    if a < b {
        lemma_pow128_monotone(a, (b - 1) as nat);
    }
}

/// Appending a byte adds its digit at the next power of the base.
pub(crate) proof fn lemma_varint_value_push(s: Seq<u8>, b: u8)
    ensures
        varint_value(s.push(b)) == varint_value(s) + (b % 128) * pow128(s.len()),
    decreases s.len(),
{
    if s.len() == 0 {
        assert(s.push(b).skip(1) =~= Seq::<u8>::empty());
        assert(pow128(0) == 1);
        assert((b % 128) * 1 == b % 128);
        assert(varint_value(Seq::<u8>::empty()) == 0);
    } else {
        lemma_varint_value_push(s.skip(1), b);
        assert(s.push(b).skip(1) =~= s.skip(1).push(b));
        assert(128 * (varint_value(s.skip(1)) + (b % 128) * pow128((s.len() - 1) as nat)) == 128
            * varint_value(s.skip(1)) + (b % 128) * (128 * pow128((s.len() - 1) as nat)))
            by (nonlinear_arith);
    }
}

pub(crate) proof fn lemma_varint_value_bound(s: Seq<u8>)
    ensures
        varint_value(s) < pow128(s.len()),
    decreases s.len(),
{
    if s.len() > 0 {
        lemma_varint_value_bound(s.skip(1));
    }
}

/// What the run means: that many continuation bytes, then a byte without the
/// bit or the end of the input.
pub(crate) proof fn lemma_continuation_run_meaning(s: Seq<u8>)
    ensures
        continuation_run(s) <= s.len(),
        forall|i: int| 0 <= i < continuation_run(s) ==> s[i] >= 0x80,
        continuation_run(s) < s.len() ==> s[continuation_run(s) as int] < 0x80,
    decreases s.len(),
{
    if s.len() > 0 && s[0] >= 0x80 {
        let tail = s.skip(1);
        lemma_continuation_run_meaning(tail);
        assert forall|i: int| 0 <= i < continuation_run(s) implies s[i] >= 0x80 by {
            if i > 0 {
                assert(tail[i - 1] == s[i]);
            }
        }
    }
}

/// The converse: a prefix of continuation bytes bounds the run from below, and
/// is the run where a byte without the bit, or the end, follows.
pub(crate) proof fn lemma_continuation_run(s: Seq<u8>, n: nat)
    requires
        n <= s.len(),
        forall|i: int| 0 <= i < n ==> s[i] >= 0x80,
    ensures
        continuation_run(s) >= n,
        n < s.len() && s[n as int] < 0x80 ==> continuation_run(s) == n,
        n == s.len() ==> continuation_run(s) == n,
    decreases n,
{
    if n > 0 {
        assert forall|i: int| 0 <= i < n - 1 implies s.skip(1)[i] >= 0x80 by {
            assert(s.skip(1)[i] == s[i + 1]);
        }
        lemma_continuation_run(s.skip(1), (n - 1) as nat);
    }
}

/// A varint is settled by the bytes that make it up: once a prefix decodes, or
/// is too long, whatever follows changes nothing.
pub proof fn law_varint_prefix_decides(s: Seq<u8>, k: nat)
    requires
        k <= s.len(),
        parse_varint(s.take(k as int)) != Err::<(u64, nat), DecodeError>(
            DecodeError::UnexpectedEof,
        ),
    ensures
        parse_varint(s) == parse_varint(s.take(k as int)),
{
    let p = s.take(k as int);
    let run = continuation_run(p);
    lemma_continuation_run_meaning(p);
    assert forall|i: int| 0 <= i < run implies s[i] >= 0x80 by {
        assert(p[i] == s[i]);
    }
    lemma_continuation_run(s, run);
    if run < 9 {
        assert(p[run as int] == s[run as int]);
        assert(p.take(run as int + 1) =~= s.take(run as int + 1));
    } else {
        assert(p[9] == s[9]);
        assert(p.take(10) =~= s.take(10));
    }
}

/// What one more byte did to a varint that is being read.
#[derive(Clone, Copy, Debug, PartialEq, Eq, Structural)]
pub enum VarintStep {
    /// The varint goes on: hand over the next byte.
    More,
    /// The varint is complete.
    Done(u64),
    /// The varint does not fit in 64 bits.
    TooLong,
}

/// A varint read one byte at a time.
pub struct VarintReader {
    value: u64,
    scale: u64,
    count: u32,
    seen: Ghost<Seq<u8>>,
}

impl VarintReader {
    /// The bytes seen so far do not make up a varint yet.
    pub proof fn lemma_incomplete(&self)
        requires
            self.wf(),
        ensures
            parse_varint(self.seen()) == Err::<(u64, nat), DecodeError>(DecodeError::UnexpectedEof),
    {
        lemma_continuation_run(self.seen@, self.seen@.len());
    }

    /// The bytes handed over so far.
    pub closed spec fn seen(&self) -> Seq<u8> {
        self.seen@
    }

    /// The reader holds the value of the bytes seen, all of which ask for more.
    pub closed spec fn wf(&self) -> bool {
        &&& self.count == self.seen@.len()
        &&& self.count <= 9
        &&& forall|i: int| 0 <= i < self.seen@.len() ==> self.seen@[i] >= 0x80
        &&& self.value == varint_value(self.seen@)
        &&& self.scale == pow128(self.seen@.len())
    }

    /// A reader that has seen nothing.
    pub fn new() -> (reader: Self)
        ensures
            reader.wf(),
            reader.seen() == Seq::<u8>::empty(),
    {
        proof {
            lemma_pow128_values();
        }
        VarintReader { value: 0, scale: 1, count: 0, seen: Ghost(Seq::empty()) }
    }

    /// Take the next byte. The answer is what the bytes seen so far, this one
    /// last, decode to.
    pub fn push(&mut self, b: u8) -> (step: VarintStep)
        requires
            old(self).wf(),
        ensures
            match parse_varint(old(self).seen().push(b)) {
                Ok((value, n)) => step == VarintStep::Done(value) && n == old(self).seen().len() + 1,
                Err(DecodeError::UnexpectedEof) => {
                    &&& step == VarintStep::More
                    &&& final(self).wf()
                    &&& final(self).seen() == old(self).seen().push(b)
                },
                Err(e) => step == VarintStep::TooLong && e == DecodeError::VarintTooLong,
            },
    {
        let ghost before = self.seen@;
        let ghost after = before.push(b);
        proof {
            lemma_pow128_values();
            lemma_pow128_monotone(before.len(), 9);
            lemma_varint_value_push(before, b);
            lemma_varint_value_bound(before);
            lemma_varint_value_bound(after);
            lemma_continuation_run(after, before.len());
            assert(after.take(after.len() as int) =~= after);
            if b >= 0x80 {
                lemma_continuation_run(after, after.len());
            }
        }
        if self.count == 9 {
            if b > 1 {
                return VarintStep::TooLong;
            }
            proof {
                assert((b % 128) * pow128(9) == b * 0x8000_0000_0000_0000) by (nonlinear_arith)
                    requires
                        b <= 1,
                        pow128(9) == 0x8000_0000_0000_0000,
                ;
            }
            let top: u64 = if b == 1 { 0x8000_0000_0000_0000 } else { 0 };
            return VarintStep::Done(self.value + top);
        }
        let digit: u64 = (b % 128) as u64;
        proof {
            lemma_pow128_monotone(after.len(), 9);
            assert(digit * self.scale <= 127 * pow128(before.len())) by (nonlinear_arith)
                requires
                    digit <= 127,
                    self.scale == pow128(before.len()),
            ;
            assert(pow128(after.len()) == 128 * pow128(before.len()));
        }
        let value: u64 = self.value + digit * self.scale;
        if b < 0x80 {
            return VarintStep::Done(value);
        }
        self.value = value;
        self.scale = self.scale * 128;
        self.count = self.count + 1;
        self.seen = Ghost(after);
        VarintStep::More
    }
}

/// Decode a varint from the front of `buf`.
///
/// On success `buf` is left just past the varint; on failure it is untouched.
pub fn decode_varint(buf: &mut &[u8]) -> (result: Result<u64, DecodeError>)
    ensures
        match parse_varint(old(buf)@) {
            Ok((value, n)) => result == Ok::<u64, DecodeError>(value) && final(buf)@
                == old(buf)@.skip(n as int),
            Err(e) => result == Err::<u64, DecodeError>(e) && final(buf)@ == old(buf)@,
        },
{
    let ghost input = buf@;
    let mut cursor: &[u8] = *buf;
    let mut reader = VarintReader::new();
    assert(input.skip(0) =~= input);
    while buf::remaining(&cursor) > 0
        invariant
            reader.wf(),
            reader.seen().len() <= input.len(),
            reader.seen() == input.take(reader.seen().len() as int),
            cursor@ == input.skip(reader.seen().len() as int),
            buf@ == input,
            old(buf)@ == input,
        decreases cursor@.len(),
    {
        let ghost seen = reader.seen();
        let b: u8 = buf::get_u8(&mut cursor);
        proof {
            assert(seen.push(b) =~= input.take(seen.len() as int + 1));
            assert(cursor@ =~= input.skip(seen.len() as int + 1));
        }
        match reader.push(b) {
            VarintStep::More => {},
            VarintStep::Done(value) => {
                proof {
                    law_varint_prefix_decides(input, seen.len() + 1);
                }
                *buf = cursor;
                return Ok(value);
            },
            VarintStep::TooLong => {
                proof {
                    law_varint_prefix_decides(input, seen.len() + 1);
                }
                return Err(DecodeError::VarintTooLong);
            },
        }
    }
    proof {
        assert(input.take(input.len() as int) =~= input);
        reader.lemma_incomplete();
    }
    Err(DecodeError::UnexpectedEof)
}

/// Encoded length in bytes of `value` as a varint.
pub fn varint_len(value: u64) -> (len: usize)
    ensures
        len == varint_bytes(value as nat).len(),
        1 <= len <= 10,
{
    proof {
        lemma_pow128_values();
        lemma_varint_bytes_shape(value as nat, 9);
    }
    let mut rest: u64 = value;
    let mut len: usize = 1;
    while rest >= 128
        invariant
            len + varint_bytes(rest as nat).len() - 1 == varint_bytes(value as nat).len(),
            1 <= len,
            varint_bytes(value as nat).len() <= 10,
        decreases rest,
    {
        assert(varint_bytes(rest as nat).len() == 1 + varint_bytes((rest / 128) as nat).len());
        assert(varint_bytes((rest / 128) as nat).len() >= 1);
        rest = rest / 128;
        len = len + 1;
    }
    len
}

/// Fewer than `2 * 128^n` means at most `n + 1` bytes, the last of which is 0
/// or 1 when all `n + 1` are used.
proof fn lemma_varint_bytes_shape(v: nat, n: nat)
    requires
        v < 2 * pow128(n),
    ensures
        1 <= varint_bytes(v).len() <= n + 1,
        varint_bytes(v).len() == n + 1 ==> varint_bytes(v)[n as int] <= 1,
    decreases n,
{
    if v >= 128 {
        assert(n > 0);
        lemma_varint_bytes_shape(v / 128, (n - 1) as nat);
    } else if n == 0 {
        assert(varint_bytes(v) =~= seq![v as u8]);
    }
}

/// A varint's own digits are its value.
proof fn lemma_varint_bytes_value(v: nat)
    ensures
        varint_value(varint_bytes(v)) == v,
        continuation_run(varint_bytes(v)) == varint_bytes(v).len() - 1,
        forall|i: int|
            0 <= i < varint_bytes(v).len() - 1 ==> #[trigger] varint_bytes(v)[i] >= 0x80,
        varint_bytes(v).last() < 0x80,
    decreases v,
{
    let bytes = varint_bytes(v);
    if v < 128 {
        assert(bytes.skip(1) =~= Seq::<u8>::empty());
        assert(varint_value(bytes.skip(1)) == 0);
    } else {
        let tail = varint_bytes(v / 128);
        lemma_varint_bytes_value(v / 128);
        assert(bytes.skip(1) =~= tail);
        assert(bytes.last() == tail.last());
        assert forall|i: int| 0 <= i < bytes.len() - 1 implies #[trigger] bytes[i] >= 0x80 by {
            if i > 0 {
                assert(bytes[i] == tail[i - 1]);
            }
        }
    }
}

/// Decoding reads back what encoding wrote, and stops where it ended: the
/// bytes of `v` followed by anything decode to `v`.
pub proof fn law_varint_roundtrip(v: u64, rest: Seq<u8>)
    ensures
        parse_varint(varint_bytes(v as nat) + rest) == Ok::<(u64, nat), DecodeError>(
            (v, varint_bytes(v as nat).len()),
        ),
{
    let bytes = varint_bytes(v as nat);
    let all = bytes + rest;
    lemma_pow128_values();
    lemma_varint_bytes_shape(v as nat, 9);
    lemma_varint_bytes_value(v as nat);
    assert forall|i: int| 0 <= i < bytes.len() - 1 implies all[i] >= 0x80 by {
        assert(all[i] == bytes[i]);
    }
    assert(all[bytes.len() - 1] == bytes.last());
    lemma_continuation_run(all, (bytes.len() - 1) as nat);
    assert(all.take(bytes.len() as int) =~= bytes);
}

/// Append `value` to `buf` as a varint.
pub fn encode_varint<S: EncodeSink>(value: u64, buf: &mut S)
    requires
        buf::has_room(old(buf), varint_bytes(value as nat).len()),
    ensures
        final(buf).written() == old(buf).written() + varint_bytes(value as nat),
{
    let mut bytes: Vec<u8> = Vec::new();
    let mut rest: u64 = value;
    while rest >= 128
        invariant
            bytes@ + varint_bytes(rest as nat) == varint_bytes(value as nat),
        decreases rest,
    {
        let ghost before = bytes@;
        let digit: u8 = (rest % 128) as u8;
        bytes.push(digit + 128);
        proof {
            assert(varint_bytes(rest as nat) == seq![(digit + 128) as u8] + varint_bytes(
                (rest / 128) as nat,
            ));
            assert(bytes@ + varint_bytes((rest / 128) as nat) =~= before + varint_bytes(
                rest as nat,
            ));
        }
        rest = rest / 128;
    }
    let ghost before = bytes@;
    bytes.push(rest as u8);
    assert(bytes@ =~= before + varint_bytes(rest as nat));
    buf.put_slice(bytes.as_slice());
}

/// How a field's value is laid out on the wire.
#[derive(Clone, Copy, Debug, PartialEq, Eq, Structural)]
pub enum WireType {
    /// A varint.
    Varint,
    /// Eight bytes.
    Fixed64,
    /// A varint length, then that many bytes.
    LengthDelimited,
    /// The start of a group, which runs to the matching end.
    StartGroup,
    /// The end of a group.
    EndGroup,
    /// Four bytes.
    Fixed32,
}

/// The number that stands for a wire type in a tag.
pub open spec fn wire_type_number(wire_type: WireType) -> nat {
    match wire_type {
        WireType::Varint => 0,
        WireType::Fixed64 => 1,
        WireType::LengthDelimited => 2,
        WireType::StartGroup => 3,
        WireType::EndGroup => 4,
        WireType::Fixed32 => 5,
    }
}

impl WireType {
    /// The number that stands for the wire type in a tag.
    pub fn number(self) -> (n: u32)
        ensures
            n == wire_type_number(self),
    {
        match self {
            WireType::Varint => 0,
            WireType::Fixed64 => 1,
            WireType::LengthDelimited => 2,
            WireType::StartGroup => 3,
            WireType::EndGroup => 4,
            WireType::Fixed32 => 5,
        }
    }

    /// The wire type that a number stands for.
    pub fn from_number(n: u32) -> (wire_type: Option<WireType>)
        ensures
            match wire_type {
                Some(w) => wire_type_number(w) == n,
                None => n > 5,
            },
    {
        match n {
            0 => Some(WireType::Varint),
            1 => Some(WireType::Fixed64),
            2 => Some(WireType::LengthDelimited),
            3 => Some(WireType::StartGroup),
            4 => Some(WireType::EndGroup),
            5 => Some(WireType::Fixed32),
            _ => None,
        }
    }
}

/// The largest field number that a tag can carry.
pub const MAX_FIELD_NUMBER: u32 = 0x1FFF_FFFF;

/// A field's key on the wire: its number, and how its value is laid out.
#[derive(Clone, Copy, Debug, PartialEq, Eq, Structural)]
pub struct Tag {
    field_number: u32,
    wire_type: WireType,
}

/// The integer that a tag is on the wire.
pub open spec fn tag_key(tag: Tag) -> nat {
    (tag.number() * 8 + wire_type_number(tag.layout())) as nat
}

/// What a tag at the front of `s` decodes to, and how many bytes it takes.
pub open spec fn parse_tag(s: Seq<u8>) -> Result<(Tag, nat), DecodeError> {
    match parse_varint(s) {
        Err(e) => Err(e),
        Ok((key, n)) => if key / 8 == 0 || key / 8 > MAX_FIELD_NUMBER {
            Err(DecodeError::InvalidFieldNumber)
        } else if key % 8 > 5 {
            Err(DecodeError::InvalidWireType((key % 8) as u32))
        } else {
            Ok((choose|tag: Tag| tag.wf() && tag_key(tag) == key, n))
        },
    }
}

/// A tag is determined by its key.
pub(crate) proof fn lemma_tag_key_injective(a: Tag, b: Tag)
    requires
        tag_key(a) == tag_key(b),
    ensures
        a == b,
{
}

/// Every field number that the format allows, with any wire type, makes a tag.
pub proof fn lemma_tag_of(number: u32, layout: WireType) -> (tag: Tag)
    requires
        1 <= number <= MAX_FIELD_NUMBER,
    ensures
        tag.wf(),
        tag.number() == number,
        tag.layout() == layout,
{
    Tag { field_number: number, wire_type: layout }
}

impl Tag {
    /// The field number.
    pub closed spec fn number(self) -> u32 {
        self.field_number
    }

    /// The wire type.
    pub closed spec fn layout(self) -> WireType {
        self.wire_type
    }

    /// The field number is one that the format allows.
    pub open spec fn wf(self) -> bool {
        1 <= self.number() <= MAX_FIELD_NUMBER
    }

    /// The tag of field `field_number` with the given wire type.
    pub fn new(field_number: u32, wire_type: WireType) -> (tag: Self)
        requires
            1 <= field_number <= MAX_FIELD_NUMBER,
        ensures
            tag.wf(),
            tag.number() == field_number,
            tag.layout() == wire_type,
    {
        Tag { field_number, wire_type }
    }

    /// The field number.
    pub fn field_number(&self) -> (n: u32)
        ensures
            n == self.number(),
    {
        self.field_number
    }

    /// The wire type.
    pub fn wire_type(&self) -> (wire_type: WireType)
        ensures
            wire_type == self.layout(),
    {
        self.wire_type
    }

    /// Append the tag to `buf`.
    pub fn encode<S: EncodeSink>(&self, buf: &mut S)
        requires
            self.wf(),
            buf::has_room(old(buf), varint_bytes(tag_key(*self)).len()),
        ensures
            final(buf).written() == old(buf).written() + varint_bytes(tag_key(*self)),
    {
        let key: u32 = self.field_number * 8 + self.wire_type.number();
        encode_varint(key as u64, buf);
    }

    /// Decode a tag from the front of `buf`.
    ///
    /// On success `buf` is left just past the tag; on failure it is untouched.
    pub fn decode(buf: &mut &[u8]) -> (result: Result<Tag, DecodeError>)
        ensures
            match parse_tag(old(buf)@) {
                Ok((tag, n)) => result == Ok::<Tag, DecodeError>(tag) && final(buf)@
                    == old(buf)@.skip(n as int) && tag.wf(),
                Err(e) => result == Err::<Tag, DecodeError>(e) && final(buf)@ == old(buf)@,
            },
    {
        let mut cursor: &[u8] = *buf;
        let key: u64 = match decode_varint(&mut cursor) {
            Ok(key) => key,
            Err(e) => return Err(e),
        };
        let number: u64 = key / 8;
        if number == 0 || number > MAX_FIELD_NUMBER as u64 {
            return Err(DecodeError::InvalidFieldNumber);
        }
        match WireType::from_number((key % 8) as u32) {
            None => Err(DecodeError::InvalidWireType((key % 8) as u32)),
            Some(wire_type) => {
                let tag = Tag { field_number: number as u32, wire_type };
                proof {
                    assert(tag.wf() && tag_key(tag) == key);
                    let chosen = choose|t: Tag| t.wf() && tag_key(t) == key;
                    lemma_tag_key_injective(tag, chosen);
                }
                *buf = cursor;
                Ok(tag)
            },
        }
    }
}

/// Decoding reads back the tag that encoding wrote.
pub proof fn law_tag_roundtrip(tag: Tag, rest: Seq<u8>)
    requires
        tag.wf(),
    ensures
        parse_tag(varint_bytes(tag_key(tag)) + rest) == Ok::<(Tag, nat), DecodeError>(
            (tag, varint_bytes(tag_key(tag)).len()),
        ),
{
    let key = tag_key(tag);
    law_varint_roundtrip(key as u64, rest);
    let chosen = choose|t: Tag| t.wf() && tag_key(t) == key;
    lemma_tag_key_injective(tag, chosen);
}

/// How deeply groups may nest in a field that is skipped.
pub const SKIP_DEPTH: u32 = 100;

/// How many bytes the value of a field tagged `tag` takes at the front of `s`,
/// with groups nested at most `depth` deep.
pub open spec fn value_span(tag: Tag, s: Seq<u8>, depth: nat) -> Result<nat, DecodeError>
    decreases depth, s.len(), 1nat,
{
    match tag.layout() {
        WireType::Varint => match parse_varint(s) {
            Err(e) => Err(e),
            Ok((_, n)) => Ok(n),
        },
        WireType::Fixed64 => if s.len() < 8 {
            Err(DecodeError::UnexpectedEof)
        } else {
            Ok(8)
        },
        WireType::Fixed32 => if s.len() < 4 {
            Err(DecodeError::UnexpectedEof)
        } else {
            Ok(4)
        },
        WireType::LengthDelimited => match parse_varint(s) {
            Err(e) => Err(e),
            Ok((len, n)) => if s.len() - n < len {
                Err(DecodeError::UnexpectedEof)
            } else {
                Ok(n + len as nat)
            },
        },
        WireType::EndGroup => Err(DecodeError::InvalidEndGroup(tag.number())),
        WireType::StartGroup => if depth == 0 {
            Err(DecodeError::RecursionLimitExceeded)
        } else {
            group_span(tag.number(), s, (depth - 1) as nat)
        },
    }
}

/// How many bytes the body of group `field_number` takes at the front of `s`,
/// its end tag among them.
pub open spec fn group_span(field_number: u32, s: Seq<u8>, depth: nat) -> Result<nat, DecodeError>
    decreases depth, s.len(), 0nat,
{
    match parse_tag(s) {
        Err(e) => Err(e),
        Ok((tag, n)) => if n > s.len() {
            Err(DecodeError::UnexpectedEof)
        } else if tag.layout() == WireType::EndGroup {
            if tag.number() == field_number {
                Ok(n)
            } else {
                Err(DecodeError::InvalidEndGroup(tag.number()))
            }
        } else {
            match value_span(tag, s.skip(n as int), depth) {
                Err(e) => Err(e),
                Ok(m) => if n + m > s.len() {
                    Err(DecodeError::UnexpectedEof)
                } else {
                    match group_span(field_number, s.skip((n + m) as int), depth) {
                        Err(e) => Err(e),
                        Ok(k) => Ok(n + m + k),
                    }
                },
            }
        },
    }
}

/// A varint or a tag never spans more than the input holds.
pub proof fn lemma_parse_within(s: Seq<u8>)
    ensures
        parse_varint(s) matches Ok((_, n)) ==> 1 <= n <= s.len(),
        parse_tag(s) matches Ok((_, n)) ==> 1 <= n <= s.len(),
{
    lemma_continuation_run_meaning(s);
}

/// Nor does the value of a field.
pub proof fn lemma_value_span_within(tag: Tag, s: Seq<u8>, depth: nat)
    ensures
        value_span(tag, s, depth) matches Ok(n) ==> n <= s.len(),
    decreases depth, s.len(), 1nat,
{
    lemma_parse_within(s);
    if tag.layout() == WireType::StartGroup && depth > 0 {
        lemma_group_span_within(tag.number(), s, (depth - 1) as nat);
    }
}

/// Nor the body of a group.
pub proof fn lemma_group_span_within(field_number: u32, s: Seq<u8>, depth: nat)
    ensures
        group_span(field_number, s, depth) matches Ok(n) ==> n <= s.len(),
    decreases depth, s.len(), 0nat,
{
    lemma_parse_within(s);
    if let Ok((tag, n)) = parse_tag(s) {
        if let Ok(m) = value_span(tag, s.skip(n as int), depth) {
            if n + m <= s.len() {
                lemma_group_span_within(field_number, s.skip((n + m) as int), depth);
            }
        }
    }
}

/// The bytes that a varint or a tag takes decide what it is, whatever follows
/// them.
pub proof fn law_parse_looks_no_further(s: Seq<u8>, t: Seq<u8>)
    requires
        parse_varint(s) is Ok,
        parse_varint(s)->Ok_0.1 <= t.len(),
        t.take(parse_varint(s)->Ok_0.1 as int) == s.take(parse_varint(s)->Ok_0.1 as int),
    ensures
        parse_varint(t) == parse_varint(s),
        parse_tag(t) == parse_tag(s),
{
    let n = parse_varint(s)->Ok_0.1;
    let front = s.take(n as int);
    lemma_parse_within(s);
    lemma_continuation_run_meaning(s);
    assert forall|i: int| 0 <= i < n implies t[i] == s[i] by {
        assert(t.take(n as int)[i] == front[i]);
    }
    lemma_continuation_run(t, (n - 1) as nat);
    if n == 10 {
        assert(t.take(10) =~= s.take(10));
        lemma_continuation_run_meaning(t);
    }
}

/// The bytes that the value of a field takes decide where it ends, whatever
/// follows them.
pub proof fn law_skip_looks_no_further(tag: Tag, s: Seq<u8>, t: Seq<u8>, depth: nat)
    requires
        value_span(tag, s, depth) is Ok,
        value_span(tag, s, depth)->Ok_0 <= t.len(),
        t.take(value_span(tag, s, depth)->Ok_0 as int) == s.take(
            value_span(tag, s, depth)->Ok_0 as int,
        ),
    ensures
        value_span(tag, t, depth) == value_span(tag, s, depth),
    decreases depth, s.len(), 1nat,
{
    let k = value_span(tag, s, depth)->Ok_0;
    lemma_value_span_within(tag, s, depth);
    if tag.layout() == WireType::StartGroup {
        lemma_group_looks_no_further(tag.number(), s, t, (depth - 1) as nat);
    } else if tag.layout() == WireType::Varint || tag.layout() == WireType::LengthDelimited {
        lemma_parse_within(s);
        let n = parse_varint(s)->Ok_0.1;
        assert(t.take(n as int) =~= t.take(k as int).take(n as int));
        assert(s.take(n as int) =~= s.take(k as int).take(n as int));
        law_parse_looks_no_further(s, t);
    }
}

/// The same, of the body of a group.
proof fn lemma_group_looks_no_further(field_number: u32, s: Seq<u8>, t: Seq<u8>, depth: nat)
    requires
        group_span(field_number, s, depth) is Ok,
        group_span(field_number, s, depth)->Ok_0 <= t.len(),
        t.take(group_span(field_number, s, depth)->Ok_0 as int) == s.take(
            group_span(field_number, s, depth)->Ok_0 as int,
        ),
    ensures
        group_span(field_number, t, depth) == group_span(field_number, s, depth),
    decreases depth, s.len(), 0nat,
{
    let k = group_span(field_number, s, depth)->Ok_0;
    lemma_group_span_within(field_number, s, depth);
    lemma_parse_within(s);
    let (tag, n) = parse_tag(s)->Ok_0;
    assert(t.take(n as int) =~= t.take(k as int).take(n as int));
    assert(s.take(n as int) =~= s.take(k as int).take(n as int));
    law_parse_looks_no_further(s, t);
    if tag.layout() != WireType::EndGroup {
        let body = s.skip(n as int);
        let other = t.skip(n as int);
        let m = value_span(tag, body, depth)->Ok_0;
        assert(other.take(m as int) =~= t.take(k as int).subrange(n as int, (n + m) as int));
        assert(body.take(m as int) =~= s.take(k as int).subrange(n as int, (n + m) as int));
        law_skip_looks_no_further(tag, body, other, depth);
        let rest = s.skip((n + m) as int);
        let other_rest = t.skip((n + m) as int);
        let j = group_span(field_number, rest, depth)->Ok_0;
        assert(other_rest.take(j as int) =~= t.take(k as int).skip((n + m) as int));
        assert(rest.take(j as int) =~= s.take(k as int).skip((n + m) as int));
        lemma_group_looks_no_further(field_number, rest, other_rest, depth);
    }
}

/// Skip the value of a field whose tag has just been read.
///
/// On success `buf` is left just past the value; on failure it is untouched.
pub fn skip_field(tag: Tag, buf: &mut &[u8]) -> (result: Result<(), DecodeError>)
    ensures
        match value_span(tag, old(buf)@, SKIP_DEPTH as nat) {
            Ok(n) => result == Ok::<(), DecodeError>(()) && final(buf)@ == old(buf)@.skip(n as int),
            Err(e) => result == Err::<(), DecodeError>(e) && final(buf)@ == old(buf)@,
        },
{
    skip_field_depth(tag, buf, SKIP_DEPTH)
}

/// Skip the value of a field, with groups nested at most `depth` deep.
pub fn skip_field_depth(tag: Tag, buf: &mut &[u8], depth: u32) -> (result: Result<(), DecodeError>)
    ensures
        match value_span(tag, old(buf)@, depth as nat) {
            Ok(n) => result == Ok::<(), DecodeError>(()) && final(buf)@ == old(buf)@.skip(n as int),
            Err(e) => result == Err::<(), DecodeError>(e) && final(buf)@ == old(buf)@,
        },
    decreases depth,
{
    let ghost input = buf@;
    let mut cursor: &[u8] = *buf;
    proof {
        lemma_parse_within(input);
    }
    match tag.wire_type() {
        WireType::Varint => match decode_varint(buf) {
            Ok(_) => Ok(()),
            Err(e) => Err(e),
        },
        WireType::Fixed64 => skip_bytes(buf, 8),
        WireType::Fixed32 => skip_bytes(buf, 4),
        WireType::LengthDelimited => {
            let len: u64 = match decode_varint(&mut cursor) {
                Ok(len) => len,
                Err(e) => return Err(e),
            };
            if (buf::remaining(&cursor) as u64) < len {
                return Err(DecodeError::UnexpectedEof);
            }
            buf::advance(&mut cursor, len as usize);
            proof {
                let n = parse_varint(input)->Ok_0.1;
                assert(input.skip(n as int).skip(len as int) =~= input.skip(n as int + len as int));
            }
            *buf = cursor;
            Ok(())
        },
        WireType::EndGroup => Err(DecodeError::InvalidEndGroup(tag.field_number())),
        WireType::StartGroup => {
            if depth == 0 {
                return Err(DecodeError::RecursionLimitExceeded);
            }
            let ghost mut taken: nat = 0;
            assert(input.skip(0) =~= input);
            loop
                invariant
                    depth > 0,
                    tag.layout() == WireType::StartGroup,
                    buf@ == input,
                    old(buf)@ == input,
                    taken <= input.len(),
                    cursor@ == input.skip(taken as int),
                    match group_span(tag.number(), cursor@, (depth - 1) as nat) {
                        Ok(k) => group_span(tag.number(), input, (depth - 1) as nat) == Ok::<
                            nat,
                            DecodeError,
                        >(taken + k),
                        Err(e) => group_span(tag.number(), input, (depth - 1) as nat) == Err::<
                            nat,
                            DecodeError,
                        >(e),
                    },
                decreases cursor@.len(),
            {
                let ghost at = cursor@;
                proof {
                    lemma_parse_within(at);
                }
                let nested: Tag = match Tag::decode(&mut cursor) {
                    Ok(nested) => nested,
                    Err(e) => return Err(e),
                };
                let ghost n = parse_tag(at)->Ok_0.1;
                assert(cursor@ =~= input.skip((taken + n) as int));
                if nested.wire_type() == WireType::EndGroup {
                    if nested.field_number() == tag.field_number() {
                        *buf = cursor;
                        return Ok(());
                    }
                    return Err(DecodeError::InvalidEndGroup(nested.field_number()));
                }
                proof {
                    lemma_value_span_within(nested, cursor@, (depth - 1) as nat);
                }
                let ghost body = cursor@;
                match skip_field_depth(nested, &mut cursor, depth - 1) {
                    Ok(()) => {},
                    Err(e) => return Err(e),
                }
                proof {
                    let m = value_span(nested, body, (depth - 1) as nat)->Ok_0;
                    assert(cursor@ =~= at.skip((n + m) as int));
                    assert(cursor@ =~= input.skip((taken + n + m) as int));
                    taken = taken + n + m;
                }
            }
        },
    }
}

/// Skip a fixed number of bytes, or fail where fewer are left.
fn skip_bytes(buf: &mut &[u8], n: usize) -> (result: Result<(), DecodeError>)
    ensures
        if old(buf)@.len() < n {
            result == Err::<(), DecodeError>(DecodeError::UnexpectedEof) && final(buf)@ == old(buf)@
        } else {
            result == Ok::<(), DecodeError>(()) && final(buf)@ == old(buf)@.skip(n as int)
        },
{
    if buf::remaining(buf) < n {
        return Err(DecodeError::UnexpectedEof);
    }
    buf::advance(buf, n);
    Ok(())
}

} // verus!
