//! The merge loops that decoding is made of.
//!
//! Decoding merges one field at a time into a message: read a tag, hand the
//! rest of the input to the message, and go on until the input, the declared
//! length, or the group ends.
use vstd::prelude::*;
use crate::buf;
use crate::context::DecodeContext;
use crate::encoding;
use crate::encoding::{decode_varint, Tag, WireType};
use crate::error::DecodeError;

verus! {

/// Where a merge stands: the message so far, the input that is left, and what
/// is left of the limits.
pub struct MergeState<M> {
    /// The message so far.
    pub msg: M,
    /// The input that is left.
    pub rest: Seq<u8>,
    /// What is left of the limits.
    pub ctx: DecodeContext,
}

/// The merge state with these three parts.
pub open spec fn at<M>(msg: M, rest: Seq<u8>, ctx: DecodeContext) -> MergeState<M> {
    MergeState { msg, rest, ctx }
}

/// `rest` is what is left of `input` once some of its front has been read.
pub open spec fn is_rest_of(rest: Seq<u8>, input: Seq<u8>) -> bool {
    &&& rest.len() <= input.len()
    &&& rest == input.skip(input.len() - rest.len())
}

/// A message that takes fields one at a time.
pub trait FieldMerge: Default + Sized {
    /// Merging the field tagged `tag`, whose value is at the front of
    /// `before.rest`, may leave `after` and return `result`. Anything may come
    /// of it, unless an implementation says otherwise.
    open spec fn merges_field(
        before: MergeState<Self>,
        tag: Tag,
        after: MergeState<Self>,
        result: Result<(), DecodeError>,
    ) -> bool {
        true
    }

    /// Merge one field, whose tag has just been read.
    ///
    /// The input is read from the front only, and the limits are only drawn
    /// on.
    fn merge_field(&mut self, tag: Tag, buf: &mut &[u8], ctx: &mut DecodeContext) -> (result: Result<
        (),
        DecodeError,
    >)
        requires
            tag.wf(),
        ensures
            Self::merges_field(
                at(*old(self), old(buf)@, *old(ctx)),
                tag,
                at(*final(self), final(buf)@, *final(ctx)),
                result,
            ),
            is_rest_of(final(buf)@, old(buf)@),
            final(ctx).spent_from(*old(ctx)),
    ;

    /// Put every field back to its default.
    fn clear(&mut self)
        ensures
            call_ensures(<Self as Default>::default, (), *final(self)),
    ;
}

/// One field merged: what the message makes of it, within what every merge
/// keeps to.
pub open spec fn field_step<M: FieldMerge>(
    before: MergeState<M>,
    tag: Tag,
    after: MergeState<M>,
    result: Result<(), DecodeError>,
) -> bool {
    &&& M::merges_field(before, tag, after, result)
    &&& is_rest_of(after.rest, before.rest)
    &&& after.ctx.spent_from(before.ctx)
}

/// `before` once `n` bytes of its input have been read.
pub open spec fn past<M>(before: MergeState<M>, n: nat) -> MergeState<M> {
    MergeState { msg: before.msg, rest: before.rest.skip(n as int), ctx: before.ctx }
}

/// Merging fields until no more than `limit` bytes of input are left may leave
/// `after` and return `result`.
pub open spec fn merged_to_limit<M: FieldMerge>(
    before: MergeState<M>,
    limit: nat,
    after: MergeState<M>,
    result: Result<(), DecodeError>,
) -> bool
    decreases before.rest.len(),
{
    if before.rest.len() <= limit {
        after == before && result == Ok::<(), DecodeError>(())
    } else {
        match encoding::parse_tag(before.rest) {
            Err(e) => after == before && result == Err::<(), DecodeError>(e),
            Ok((tag, n)) => exists|mid: MergeState<M>, step: Result<(), DecodeError>|
                #![trigger field_step(past(before, n), tag, mid, step)]
                {
                    &&& field_step(past(before, n), tag, mid, step)
                    &&& match step {
                        Err(_) => after == mid && result == step,
                        Ok(()) => if mid.rest.len() < before.rest.len() {
                            merged_to_limit(mid, limit, after, result)
                        } else {
                            false
                        },
                    }
                },
        }
    }
}

/// Merge fields until no more than `limit` bytes of input are left.
pub fn merge_to_limit<M: FieldMerge>(
    msg: &mut M,
    buf: &mut &[u8],
    ctx: &mut DecodeContext,
    limit: usize,
) -> (result: Result<(), DecodeError>)
    ensures
        merged_to_limit(
            at(*old(msg), old(buf)@, *old(ctx)),
            limit as nat,
            at(*final(msg), final(buf)@, *final(ctx)),
            result,
        ),
{
    let ghost start = at(*msg, buf@, *ctx);
    while buf::remaining(buf) > limit
        invariant
            start == at(*old(msg), old(buf)@, *old(ctx)),
            forall|after: MergeState<M>, result: Result<(), DecodeError>| #[trigger]
                merged_to_limit(at(*msg, buf@, *ctx), limit as nat, after, result)
                    ==> merged_to_limit(start, limit as nat, after, result),
        decreases buf@.len(),
    {
        let ghost before = at(*msg, buf@, *ctx);
        proof {
            encoding::lemma_parse_within(buf@);
        }
        let tag: Tag = match Tag::decode(buf) {
            Ok(tag) => tag,
            Err(e) => {
                assert(merged_to_limit(before, limit as nat, before, Err(e)));
                return Err(e);
            },
        };
        let ghost n = encoding::parse_tag(before.rest)->Ok_0.1;
        let ghost read = past(before, n);
        assert(read == at(*msg, buf@, *ctx));
        let step = msg.merge_field(tag, buf, ctx);
        let ghost mid = at(*msg, buf@, *ctx);
        assert(field_step(read, tag, mid, step));
        assert(mid.rest.len() < before.rest.len());
        match step {
            Ok(()) => {
                assert forall|after: MergeState<M>, result: Result<(), DecodeError>| #[trigger]
                    merged_to_limit(mid, limit as nat, after, result) implies merged_to_limit(
                    start,
                    limit as nat,
                    after,
                    result,
                ) by {
                    assert(merged_to_limit(before, limit as nat, after, result));
                }
            },
            Err(e) => {
                assert(merged_to_limit(before, limit as nat, mid, step));
                return Err(e);
            },
        }
    }
    proof {
        let end = at(*msg, buf@, *ctx);
        assert(merged_to_limit(end, limit as nat, end, Ok(())));
    }
    Ok(())
}

/// Merging fields up to the end tag of group `field_number` may leave `after`
/// and return `result`.
pub open spec fn merged_group_body<M: FieldMerge>(
    before: MergeState<M>,
    field_number: u32,
    after: MergeState<M>,
    result: Result<(), DecodeError>,
) -> bool
    decreases before.rest.len(),
{
    match encoding::parse_tag(before.rest) {
        Err(e) => after == before && result == Err::<(), DecodeError>(e),
        Ok((tag, n)) => if tag.layout() == WireType::EndGroup {
            &&& after == past(before, n)
            &&& result == if tag.number() == field_number {
                Ok::<(), DecodeError>(())
            } else {
                Err(DecodeError::InvalidEndGroup(tag.number()))
            }
        } else {
            exists|mid: MergeState<M>, step: Result<(), DecodeError>|
                #![trigger field_step(past(before, n), tag, mid, step)]
                {
                    &&& field_step(past(before, n), tag, mid, step)
                    &&& match step {
                        Err(_) => after == mid && result == step,
                        Ok(()) => if mid.rest.len() < before.rest.len() {
                            merged_group_body(mid, field_number, after, result)
                        } else {
                            false
                        },
                    }
                }
        },
    }
}

/// `inner_before` and `inner_after` are `before` and `after` one nesting level
/// down.
pub open spec fn one_level_down<M>(
    before: MergeState<M>,
    after: MergeState<M>,
    inner_before: MergeState<M>,
    inner_after: MergeState<M>,
) -> bool {
    &&& inner_before.msg == before.msg
    &&& inner_before.rest == before.rest
    &&& before.ctx.descended(inner_before.ctx)
    &&& inner_after.msg == after.msg
    &&& inner_after.rest == after.rest
    &&& before.ctx.resumed(inner_after.ctx, after.ctx)
}

/// Merging a group, whose start tag has just been read, may leave `after` and
/// return `result`.
pub open spec fn merged_group<M: FieldMerge>(
    before: MergeState<M>,
    field_number: u32,
    after: MergeState<M>,
    result: Result<(), DecodeError>,
) -> bool {
    if before.ctx.levels() == 0 {
        after == before && result == Err::<(), DecodeError>(DecodeError::RecursionLimitExceeded)
    } else {
        exists|inner_before: MergeState<M>, inner_after: MergeState<M>|
            {
                &&& #[trigger] one_level_down(before, after, inner_before, inner_after)
                &&& merged_group_body(inner_before, field_number, inner_after, result)
            }
    }
}

/// Merge fields up to the end tag of group `field_number`, at the nesting level
/// of `ctx`.
fn merge_group_body<M: FieldMerge>(
    msg: &mut M,
    buf: &mut &[u8],
    ctx: &mut DecodeContext,
    field_number: u32,
) -> (result: Result<(), DecodeError>)
    ensures
        merged_group_body(
            at(*old(msg), old(buf)@, *old(ctx)),
            field_number,
            at(*final(msg), final(buf)@, *final(ctx)),
            result,
        ),
{
    let ghost start = at(*msg, buf@, *ctx);
    loop
        invariant
            start == at(*old(msg), old(buf)@, *old(ctx)),
            forall|after: MergeState<M>, result: Result<(), DecodeError>| #[trigger]
                merged_group_body(at(*msg, buf@, *ctx), field_number, after, result)
                    ==> merged_group_body(start, field_number, after, result),
        decreases buf@.len(),
    {
        let ghost before = at(*msg, buf@, *ctx);
        proof {
            encoding::lemma_parse_within(buf@);
        }
        let tag: Tag = match Tag::decode(buf) {
            Ok(tag) => tag,
            Err(e) => {
                assert(merged_group_body(before, field_number, before, Err(e)));
                return Err(e);
            },
        };
        let ghost n = encoding::parse_tag(before.rest)->Ok_0.1;
        let ghost read = past(before, n);
        assert(read == at(*msg, buf@, *ctx));
        if tag.wire_type() == WireType::EndGroup {
            let result = if tag.field_number() == field_number {
                Ok(())
            } else {
                Err(DecodeError::InvalidEndGroup(tag.field_number()))
            };
            assert(merged_group_body(before, field_number, read, result));
            return result;
        }
        let step = msg.merge_field(tag, buf, ctx);
        let ghost mid = at(*msg, buf@, *ctx);
        assert(field_step(read, tag, mid, step));
        assert(mid.rest.len() < before.rest.len());
        match step {
            Ok(()) => {
                assert forall|after: MergeState<M>, result: Result<(), DecodeError>| #[trigger]
                    merged_group_body(mid, field_number, after, result) implies merged_group_body(
                    start,
                    field_number,
                    after,
                    result,
                ) by {
                    assert(merged_group_body(before, field_number, after, result));
                }
            },
            Err(e) => {
                assert(merged_group_body(before, field_number, mid, step));
                return Err(e);
            },
        }
    }
}

/// Merge a group whose start tag has just been read.
///
/// The group takes one nesting level.
pub fn merge_group<M: FieldMerge>(
    msg: &mut M,
    buf: &mut &[u8],
    ctx: &mut DecodeContext,
    field_number: u32,
) -> (result: Result<(), DecodeError>)
    ensures
        merged_group(
            at(*old(msg), old(buf)@, *old(ctx)),
            field_number,
            at(*final(msg), final(buf)@, *final(ctx)),
            result,
        ),
{
    let ghost before = at(*msg, buf@, *ctx);
    let mut inner: DecodeContext = match ctx.descend() {
        Ok(inner) => inner,
        Err(e) => return Err(e),
    };
    let ghost inner_before = at(*msg, buf@, inner);
    let result = merge_group_body(msg, buf, &mut inner, field_number);
    ctx.resume(inner);
    assert(one_level_down(before, at(*msg, buf@, *ctx), inner_before, at(*msg, buf@, inner)));
    result
}

/// Merging a message behind its length, which may be at most `max`, may leave
/// `after` and return `result`.
pub open spec fn merged_delimited<M: FieldMerge>(
    before: MergeState<M>,
    max: nat,
    after: MergeState<M>,
    result: Result<(), DecodeError>,
) -> bool {
    match encoding::parse_varint(before.rest) {
        Err(e) => after == before && result == Err::<(), DecodeError>(e),
        Ok((len, n)) => {
            let body = past(before, n);
            if len > max {
                &&& after == body
                &&& result == Err::<(), DecodeError>(DecodeError::MessageTooLarge)
            } else if body.rest.len() < len {
                &&& after == body
                &&& result == Err::<(), DecodeError>(DecodeError::UnexpectedEof)
            } else {
                let limit = (body.rest.len() - len) as nat;
                exists|merged: Result<(), DecodeError>|
                    {
                        &&& #[trigger] merged_to_limit(body, limit, after, merged)
                        &&& result == if merged is Ok && after.rest.len() < limit {
                            Err(DecodeError::UnexpectedEof)
                        } else {
                            merged
                        }
                    }
            }
        },
    }
}

/// Merge a message behind its length, at the nesting level of `ctx`.
pub fn merge_delimited<M: FieldMerge>(
    msg: &mut M,
    buf: &mut &[u8],
    ctx: &mut DecodeContext,
    max: u32,
) -> (result: Result<(), DecodeError>)
    ensures
        merged_delimited(
            at(*old(msg), old(buf)@, *old(ctx)),
            max as nat,
            at(*final(msg), final(buf)@, *final(ctx)),
            result,
        ),
{
    let ghost before = at(*msg, buf@, *ctx);
    proof {
        encoding::lemma_parse_within(buf@);
    }
    let len_u64: u64 = match decode_varint(buf) {
        Ok(len) => len,
        Err(e) => return Err(e),
    };
    if len_u64 > max as u64 {
        return Err(DecodeError::MessageTooLarge);
    }
    let len: usize = len_u64 as usize;
    if buf::remaining(buf) < len {
        return Err(DecodeError::UnexpectedEof);
    }
    let limit: usize = buf::remaining(buf) - len;
    let ghost body = at(*msg, buf@, *ctx);
    assert(body == past(before, encoding::parse_varint(before.rest)->Ok_0.1));
    let merged = merge_to_limit(msg, buf, ctx, limit);
    let ghost end = at(*msg, buf@, *ctx);
    assert(merged_to_limit(body, (body.rest.len() - len_u64) as nat, end, merged));
    let result = if merged.is_ok() && buf::remaining(buf) < limit {
        Err(DecodeError::UnexpectedEof)
    } else {
        merged
    };
    assert(merged_delimited(before, max as nat, end, result));
    result
}

/// What every run of the merge loop keeps: the input is read from its front,
/// the limits are only drawn on, and a loop that succeeds has reached its
/// limit.
pub proof fn lemma_merged_to_limit<M: FieldMerge>(
    before: MergeState<M>,
    limit: nat,
    after: MergeState<M>,
    result: Result<(), DecodeError>,
)
    requires
        merged_to_limit(before, limit, after, result),
    ensures
        is_rest_of(after.rest, before.rest),
        after.ctx.spent_from(before.ctx),
        result is Ok ==> after.rest.len() <= limit,
    decreases before.rest.len(),
{
    assert(before.rest.skip(0) =~= before.rest);
    if before.rest.len() > limit {
        if let Ok((tag, n)) = encoding::parse_tag(before.rest) {
            encoding::lemma_parse_within(before.rest);
            let (mid, step) = choose|mid: MergeState<M>, step: Result<(), DecodeError>|
                #![trigger field_step(past(before, n), tag, mid, step)]
                {
                    &&& field_step(past(before, n), tag, mid, step)
                    &&& match step {
                        Err(_) => after == mid && result == step,
                        Ok(()) => if mid.rest.len() < before.rest.len() {
                            merged_to_limit(mid, limit, after, result)
                        } else {
                            false
                        },
                    }
                };
            lemma_rest_of_trans(mid.rest, past(before, n).rest, before.rest);
            if step is Ok {
                lemma_merged_to_limit(mid, limit, after, result);
                lemma_rest_of_trans(after.rest, mid.rest, before.rest);
            }
        }
    }
}

proof fn lemma_rest_of_trans(a: Seq<u8>, b: Seq<u8>, c: Seq<u8>)
    requires
        is_rest_of(a, b),
        is_rest_of(b, c),
    ensures
        is_rest_of(a, c),
{
    assert(a =~= c.skip(c.len() - a.len()));
}

/// Merging a nested message behind its length, its tag having been read, may
/// leave `after` and return `result`.
pub open spec fn merged_length_delimited<M: FieldMerge>(
    before: MergeState<M>,
    max: nat,
    after: MergeState<M>,
    result: Result<(), DecodeError>,
) -> bool {
    if before.ctx.levels() == 0 {
        after == before && result == Err::<(), DecodeError>(DecodeError::RecursionLimitExceeded)
    } else {
        exists|inner_before: MergeState<M>, inner_after: MergeState<M>|
            {
                &&& #[trigger] one_level_down(before, after, inner_before, inner_after)
                &&& merged_delimited(inner_before, max, inner_after, result)
            }
    }
}

/// Merge a nested message behind its length.
///
/// The message takes one nesting level.
pub fn merge_length_delimited<M: FieldMerge>(
    msg: &mut M,
    buf: &mut &[u8],
    ctx: &mut DecodeContext,
    max: u32,
) -> (result: Result<(), DecodeError>)
    ensures
        merged_length_delimited(
            at(*old(msg), old(buf)@, *old(ctx)),
            max as nat,
            at(*final(msg), final(buf)@, *final(ctx)),
            result,
        ),
{
    let ghost before = at(*msg, buf@, *ctx);
    let mut inner: DecodeContext = match ctx.descend() {
        Ok(inner) => inner,
        Err(e) => return Err(e),
    };
    let ghost inner_before = at(*msg, buf@, inner);
    let result = merge_delimited(msg, buf, &mut inner, max);
    ctx.resume(inner);
    assert(one_level_down(before, at(*msg, buf@, *ctx), inner_before, at(*msg, buf@, inner)));
    result
}

/// A message behind its length is read up to its end and no further: whatever
/// follows is left in the input.
pub proof fn law_delimited_leaves_what_follows<M: FieldMerge>(
    before: MergeState<M>,
    max: nat,
    body: Seq<u8>,
    tail: Seq<u8>,
    after: MergeState<M>,
)
    requires
        body.len() <= u64::MAX,
        before.rest == encoding::varint_bytes(body.len()) + body + tail,
        merged_delimited(before, max, after, Ok(())),
    ensures
        after.rest == tail,
        body.len() <= max,
{
    let prefix = encoding::varint_bytes(body.len());
    encoding::law_varint_roundtrip(body.len() as u64, body + tail);
    assert(before.rest =~= prefix + (body + tail));
    let read = past(before, prefix.len());
    assert(read.rest =~= body + tail);
    let limit = tail.len();
    lemma_merged_to_limit(read, limit, after, Ok(()));
    assert(after.rest =~= tail);
}

/// A length that is over the maximum, or that the input does not hold, is
/// refused before any field is merged.
pub proof fn law_delimited_refuses_first<M: FieldMerge>(
    before: MergeState<M>,
    max: nat,
    len: u64,
    body: Seq<u8>,
    after: MergeState<M>,
    result: Result<(), DecodeError>,
)
    requires
        before.rest == encoding::varint_bytes(len as nat) + body,
        len > max || body.len() < len,
        merged_delimited(before, max, after, result),
    ensures
        after.msg == before.msg,
        after.ctx == before.ctx,
        len > max ==> result == Err::<(), DecodeError>(DecodeError::MessageTooLarge),
        len <= max ==> result == Err::<(), DecodeError>(DecodeError::UnexpectedEof),
{
    encoding::law_varint_roundtrip(len, body);
    assert(past(before, encoding::varint_bytes(len as nat).len()).rest =~= body);
}

/// Whatever comes of a merge, it draws on the limits that it was given and never
/// adds to them, and reads the input from its front.
pub proof fn law_limits_are_only_drawn_on<M: FieldMerge>(
    before: MergeState<M>,
    max: nat,
    after: MergeState<M>,
    result: Result<(), DecodeError>,
)
    requires
        merged_delimited(before, max, after, result),
    ensures
        after.ctx.spent_from(before.ctx),
        is_rest_of(after.rest, before.rest),
{
    assert(before.rest.skip(0) =~= before.rest);
    if let Ok((len, n)) = encoding::parse_varint(before.rest) {
        encoding::lemma_parse_within(before.rest);
        let body = past(before, n);
        if len <= max && len <= body.rest.len() {
            let limit = (body.rest.len() - len) as nat;
            let merged = choose|merged: Result<(), DecodeError>|
                {
                    &&& #[trigger] merged_to_limit(body, limit, after, merged)
                    &&& result == if merged is Ok && after.rest.len() < limit {
                        Err(DecodeError::UnexpectedEof)
                    } else {
                        merged
                    }
                };
            lemma_merged_to_limit(body, limit, after, merged);
            lemma_rest_of_trans(after.rest, body.rest, before.rest);
        }
    }
}

} // verus!
