//! What the bytes on the wire stand for.
use vstd::prelude::*;
use vstd::arithmetic::power::pow;
use crate::buf::EncodeSink;
use crate::context::DecodeContext;
use crate::encoding;
use crate::encoding::{group_span, parse_tag, parse_varint, value_span, Tag, WireType};
use crate::error::{DecodeError, EncodeError};
use crate::merge::MergeState;
use crate::message;
use crate::message::Message;
use crate::options;
use crate::options::{DecodeOptions, PrefixStep, ReadError, ReadErrorKind};
use crate::runs;
use crate::two_pass;
use crate::two_pass::{TwoPassEncode, MAX_MESSAGE_BYTES};

verus! {

/// The number that the first `n` bytes stand for: the low seven bits of each are its
/// digits to the base 128, the least significant first.
pub open spec fn number_of(s: Seq<u8>, n: nat) -> int
    decreases n,
{
    if n == 0 {
        0
    } else {
        number_of(s, (n - 1) as nat) + (s[n - 1] as int % 128) * pow(128, (n - 1) as nat)
    }
}

proof fn lemma_pow(n: nat)
    ensures
        encoding::pow128(n) == pow(128, n),
    decreases n,
{
    vstd::arithmetic::power::lemma_pow0(128);
    if n > 0 {
        lemma_pow((n - 1) as nat);
        reveal(pow);
    }
}

proof fn lemma_number(s: Seq<u8>, n: nat)
    requires
        n <= s.len(),
    ensures
        encoding::varint_value(s.take(n as int)) == number_of(s, n),
    decreases n,
{
    if n == 0 {
        assert(s.take(0) =~= Seq::<u8>::empty());
    } else {
        lemma_number(s, (n - 1) as nat);
        lemma_pow((n - 1) as nat);
        encoding::lemma_varint_value_push(s.take(n - 1), s[n - 1]);
        assert(s.take(n as int) =~= s.take(n - 1).push(s[n - 1]));
    }
}

/// A varint is the bytes up to and with the first whose top bit is clear. Up to nine
/// bytes stand for their number, whether or not they are as few as can be; a tenth may
/// be 0 or 1 only, and too few bytes are an early end.
pub proof fn law_a_varint_is_its_digits(s: Seq<u8>, k: nat)
    requires
        k <= s.len(),
        forall|i: int| 0 <= i < k ==> s[i] >= 0x80,
    ensures
        k <= 8 && k < s.len() && s[k as int] < 0x80 ==> (parse_varint(s) matches Ok((v, n)) && n
            == k + 1 && v == number_of(s, k + 1)),
        k == 9 && k < s.len() && s[9] <= 1 ==> (parse_varint(s) matches Ok((v, n)) && n == 10 && v
            == number_of(s, 10)),
        k >= 9 && s.len() >= 10 && s[9] > 1 ==> parse_varint(s) == Err::<(u64, nat), DecodeError>(
            DecodeError::VarintTooLong,
        ),
        k == s.len() && k < 10 ==> parse_varint(s) == Err::<(u64, nat), DecodeError>(
            DecodeError::UnexpectedEof,
        ),
{
    encoding::lemma_continuation_run(s, k);
    encoding::lemma_pow128_values();
    if k <= 8 && k < s.len() && s[k as int] < 0x80 {
        let front = s.take(k as int + 1);
        lemma_number(s, k + 1);
        encoding::lemma_varint_value_bound(front);
        encoding::lemma_pow128_monotone(k + 1, 9);
    }
    if k == 9 && k < s.len() && s[9] <= 1 {
        lemma_number(s, 10);
        lemma_number(s, 9);
        encoding::lemma_varint_value_bound(s.take(9));
        encoding::lemma_varint_value_push(s.take(9), s[9]);
        assert(s.take(10) =~= s.take(9).push(s[9]));
        assert((s[9] % 128) * 0x8000_0000_0000_0000 <= 0x8000_0000_0000_0000) by (nonlinear_arith)
            requires
                s[9] <= 1,
        ;
    }
}

/// A tag is a varint: its number stands above the three bits that say how the value is
/// laid out. A number that no field can have, and a layout that there is not, are
/// refused.
pub proof fn law_a_tag_is_a_number_and_a_layout(s: Seq<u8>, key: u64, n: nat)
    requires
        parse_varint(s) == Ok::<(u64, nat), DecodeError>((key, n)),
    ensures
        key / 8 == 0 || key / 8 > 0x1FFF_FFFF ==> parse_tag(s) == Err::<(Tag, nat), DecodeError>(
            DecodeError::InvalidFieldNumber,
        ),
        1 <= key / 8 <= 0x1FFF_FFFF && key % 8 > 5 ==> parse_tag(s) == Err::<
            (Tag, nat),
            DecodeError,
        >(DecodeError::InvalidWireType((key % 8) as u32)),
        1 <= key / 8 <= 0x1FFF_FFFF && key % 8 <= 5 ==> (parse_tag(s) matches Ok((tag, m)) && m
            == n && tag.number() == key / 8 && tag.layout() == (if key % 8 == 0 {
            WireType::Varint
        } else if key % 8 == 1 {
            WireType::Fixed64
        } else if key % 8 == 2 {
            WireType::LengthDelimited
        } else if key % 8 == 3 {
            WireType::StartGroup
        } else if key % 8 == 4 {
            WireType::EndGroup
        } else {
            WireType::Fixed32
        })),
{
    if 1 <= key / 8 <= 0x1FFF_FFFF && key % 8 <= 5 {
        let layout = if key % 8 == 0 {
            WireType::Varint
        } else if key % 8 == 1 {
            WireType::Fixed64
        } else if key % 8 == 2 {
            WireType::LengthDelimited
        } else if key % 8 == 3 {
            WireType::StartGroup
        } else if key % 8 == 4 {
            WireType::EndGroup
        } else {
            WireType::Fixed32
        };
        let tag = encoding::lemma_tag_of((key / 8) as u32, layout);
        assert(encoding::tag_key(tag) == key);
        let chosen = choose|t: Tag| t.wf() && encoding::tag_key(t) == key;
        assert(chosen.wf() && encoding::tag_key(chosen) == key);
        encoding::lemma_tag_key_injective(tag, chosen);
    }
}

/// A value that is skipped is skipped whole: a varint by its bytes, eight or four bytes
/// where there are so many, and a length with as many bytes as it says.
pub proof fn law_a_value_is_skipped_whole(tag: Tag, v: u64, body: Seq<u8>, rest: Seq<u8>, depth: nat)
    requires
        body.len() <= u64::MAX,
    ensures
        tag.layout() == WireType::Varint ==> value_span(
            tag,
            encoding::varint_bytes(v as nat) + rest,
            depth,
        ) == Ok::<nat, DecodeError>(encoding::varint_bytes(v as nat).len()),
        tag.layout() == WireType::Fixed64 ==> value_span(tag, rest, depth) == (if rest.len() >= 8 {
            Ok::<nat, DecodeError>(8)
        } else {
            Err(DecodeError::UnexpectedEof)
        }),
        tag.layout() == WireType::Fixed32 ==> value_span(tag, rest, depth) == (if rest.len() >= 4 {
            Ok::<nat, DecodeError>(4)
        } else {
            Err(DecodeError::UnexpectedEof)
        }),
        tag.layout() == WireType::LengthDelimited ==> value_span(
            tag,
            encoding::varint_bytes(body.len()) + body + rest,
            depth,
        ) == Ok::<nat, DecodeError>(encoding::varint_bytes(body.len()).len() + body.len()),
        tag.layout() == WireType::LengthDelimited && body.len() > 0 ==> value_span(
            tag,
            encoding::varint_bytes(body.len()) + body.drop_last(),
            depth,
        ) == Err::<nat, DecodeError>(DecodeError::UnexpectedEof),
        tag.layout() == WireType::EndGroup ==> value_span(tag, rest, depth) == Err::<
            nat,
            DecodeError,
        >(DecodeError::InvalidEndGroup(tag.number())),
        tag.layout() == WireType::StartGroup && depth == 0 ==> value_span(tag, rest, depth)
            == Err::<nat, DecodeError>(DecodeError::RecursionLimitExceeded),
{
    let len = encoding::varint_bytes(body.len());
    encoding::law_varint_roundtrip(v, rest);
    encoding::law_varint_roundtrip(body.len() as u64, body + rest);
    assert(len + body + rest =~= len + (body + rest));
    if body.len() > 0 {
        encoding::law_varint_roundtrip(body.len() as u64, body.drop_last());
    }
}

/// One field of a group: a tag that ends no group, and its value.
pub open spec fn is_field(field: Seq<u8>, depth: nat) -> bool {
    parse_tag(field) matches Ok((tag, n)) && tag.layout() != WireType::EndGroup && n <= field.len()
        && value_span(tag, field.skip(n as int), depth) == Ok::<nat, DecodeError>(
        (field.len() - n) as nat,
    )
}

/// A group that is skipped is skipped with all its fields and its end tag, and with
/// nothing behind it.
pub proof fn law_a_group_is_skipped_whole(
    fields: Seq<Seq<u8>>,
    end: Tag,
    rest: Seq<u8>,
    depth: nat,
)
    requires
        forall|i: int| 0 <= i < fields.len() ==> is_field(#[trigger] fields[i], depth),
        end.wf(),
        end.layout() == WireType::EndGroup,
    ensures
        group_span(
            end.number(),
            fields.flatten() + encoding::varint_bytes(encoding::tag_key(end)) + rest,
            depth,
        ) == Ok::<nat, DecodeError>(
            fields.flatten().len() + encoding::varint_bytes(encoding::tag_key(end)).len(),
        ),
    decreases fields.len(),
{
    let mark = encoding::varint_bytes(encoding::tag_key(end));
    let all = fields.flatten() + mark + rest;
    if fields.len() == 0 {
        assert(all =~= mark + rest);
        encoding::law_tag_roundtrip(end, rest);
        encoding::lemma_parse_within(all);
    } else {
        let field = fields.first();
        let others = fields.drop_first();
        assert(is_field(fields[0], depth));
        assert forall|i: int| 0 <= i < others.len() implies is_field(
            #[trigger] others[i],
            depth,
        ) by {
            assert(others[i] == fields[i + 1]);
        }
        law_a_group_is_skipped_whole(others, end, rest, depth);
        let tail = others.flatten() + mark + rest;
        assert(all =~= field + tail);
        let (tag, n) = parse_tag(field)->Ok_0;
        encoding::lemma_parse_within(field);
        assert(all.take(n as int) =~= field.take(n as int));
        encoding::law_parse_looks_no_further(field, all);
        let m = (field.len() - n) as nat;
        assert(all.skip(n as int).take(m as int) =~= field.skip(n as int).take(m as int));
        encoding::law_skip_looks_no_further(tag, field.skip(n as int), all.skip(n as int), depth);
        assert(all.skip((n + m) as int) =~= tail);
    }
}

/// An encode writes all of a message or nothing: all of it where it is within the
/// protobuf limit and within the budget, and otherwise nothing, with the error that says
/// which. The protobuf limit goes first.
pub proof fn law_an_encode_writes_all_or_nothing<T: TwoPassEncode, S: EncodeSink>(
    message: &T,
    max_bytes: u32,
    before: &S,
    after: &S,
    result: Result<u32, EncodeError>,
)
    requires
        two_pass::bounded_encode(message, max_bytes, before, after, result),
    ensures
        result is Ok <==> message.declared_size() <= 0x7FFF_FFFF && message.declared_size()
            <= max_bytes,
        result is Ok ==> result->Ok_0 == message.declared_size() && after.written()
            == before.written() + message.encoding(),
        result is Err ==> after.written() == before.written(),
        result == Err::<u32, EncodeError>(EncodeError::MessageTooLarge)
            <==> message.declared_size() > 0x7FFF_FFFF,
{
}

/// An encode without a budget is one with a budget that nothing exceeds.
pub proof fn law_no_budget_is_a_budget_without_end<T: TwoPassEncode, S: EncodeSink>(
    message: &T,
    before: &S,
    after: &S,
)
    ensures
        two_pass::plain_encode(message, before, after, Ok(())) <==> two_pass::bounded_encode(
            message,
            u32::MAX,
            before,
            after,
            Ok(message.declared_size()),
        ),
        two_pass::plain_encode(message, before, after, Err(EncodeError::MessageTooLarge))
            <==> two_pass::bounded_encode(
            message,
            u32::MAX,
            before,
            after,
            Err(EncodeError::MessageTooLarge),
        ),
{
}

/// A message behind its length is the length, and then what an encode of the message
/// alone writes.
pub proof fn law_a_length_goes_before_the_message<T: TwoPassEncode, S: EncodeSink>(
    message: &T,
    before: &S,
    middle: &S,
    after: &S,
)
    requires
        message.declared_size() <= MAX_MESSAGE_BYTES,
        middle.written() == before.written() + encoding::varint_bytes(
            message.declared_size() as nat,
        ),
    ensures
        two_pass::delimited_encode(message, before, after, Ok(())) <==> two_pass::plain_encode(
            message,
            middle,
            after,
            Ok(()),
        ),
{
}

/// A decode under options refuses input over their bound, and otherwise hands every
/// field to a default message under all of their limits.
pub proof fn law_options_bound_a_decode<M: Message>(
    options: DecodeOptions,
    data: Seq<u8>,
    result: Result<M, DecodeError>,
) -> (states: Seq<MergeState<M>>)
    requires
        options.decodes_slice::<M>(data, result),
    ensures
        data.len() > options.max_bytes() ==> result == Err::<M, DecodeError>(
            DecodeError::MessageTooLarge,
        ),
        data.len() <= options.max_bytes() ==> {
            &&& runs::is_run(states, 0)
            &&& call_ensures(<M as Default>::default, (), states[0].msg)
            &&& states[0].rest == data
            &&& states[0].ctx == DecodeContext::limits(
                options.depth(),
                options.unknown_fields(),
                Some(options.element_memory()),
            )
            &&& match result {
                Ok(msg) => states.last().rest.len() == 0 && states.last().msg == msg,
                Err(e) => states.last().rest.len() > 0 && exists|after: MergeState<M>|
                    #[trigger] runs::fails_with(states.last(), after, e),
            }
        },
{
    if data.len() > options.max_bytes() {
        Seq::empty()
    } else {
        let rest = choose|rest: Seq<u8>| #[trigger]
            message::decoded::<M>(data, options.limits(), rest, result);
        runs::law_decode_takes_every_field::<M>(data, options.limits(), rest, result)
    }
}

/// What a reader held is judged as a slice is, but for its size, which may be left
/// unbounded; and what goes wrong is bad data.
pub proof fn law_a_read_is_judged_as_a_slice<M: Message>(
    options: DecodeOptions,
    data: Seq<u8>,
    result: Result<M, ReadError>,
)
    requires
        options.decodes_read::<M>(data, result),
    ensures
        !options.reader_unbounded() ==> match result {
            Ok(msg) => options.decodes_slice::<M>(data, Ok(msg)),
            Err(e) => e.kind == ReadErrorKind::InvalidData && options.decodes_slice::<M>(
                data,
                Err(e.source),
            ),
        },
        data.len() <= options.max_bytes() ==> match result {
            Ok(msg) => options.decodes_slice::<M>(data, Ok(msg)),
            Err(e) => e.kind == ReadErrorKind::InvalidData && options.decodes_slice::<M>(
                data,
                Err(e.source),
            ),
        },
{
}

/// A body is decoded as a slice is; one that is shorter than was declared is an early
/// end, and what else goes wrong is bad data.
pub proof fn law_a_short_body_is_an_early_end<M: Message>(
    options: DecodeOptions,
    declared: nat,
    body: Seq<u8>,
    result: Result<M, ReadError>,
)
    requires
        options.decodes_body::<M>(declared, body, result),
    ensures
        body.len() < declared ==> result is Err && result->Err_0.kind
            == ReadErrorKind::UnexpectedEof && result->Err_0.source == DecodeError::UnexpectedEof,
        body.len() >= declared ==> match result {
            Ok(msg) => options.decodes_slice::<M>(body, Ok(msg)),
            Err(e) => e.kind == ReadErrorKind::InvalidData && options.decodes_slice::<M>(
                body,
                Err(e.source),
            ),
        },
{
}

/// The bytes of a length ask for more until they are all there, and then for a body of
/// that length, if it is within the bound.
pub proof fn law_a_prefix_asks_for_its_body(options: DecodeOptions, len: u64, k: nat)
    requires
        k <= encoding::varint_bytes(len as nat).len(),
    ensures
        ({
            let bytes = encoding::varint_bytes(len as nat);
            let step = options.prefix_calls_for(bytes.take(k as int));
            &&& k < bytes.len() ==> step == PrefixStep::More
            &&& k == bytes.len() && len <= options.max_bytes() ==> step == PrefixStep::Body(
                len as usize,
            )
            &&& k == bytes.len() && len > options.max_bytes() ==> step == PrefixStep::Refused(
                ReadError {
                    kind: ReadErrorKind::InvalidData,
                    source: DecodeError::MessageTooLarge,
                },
            )
        }),
{
    let bytes = encoding::varint_bytes(len as nat);
    let part = bytes.take(k as int);
    encoding::law_varint_roundtrip(len, Seq::empty());
    assert(bytes + Seq::<u8>::empty() =~= bytes);
    if k == bytes.len() {
        assert(part =~= bytes);
    } else {
        if parse_varint(part) != Err::<(u64, nat), DecodeError>(DecodeError::UnexpectedEof) {
            encoding::law_varint_prefix_decides(bytes, k);
            encoding::lemma_parse_within(part);
        }
    }
}

} // verus!
