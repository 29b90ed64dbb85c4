//! Runs of fields: what the merge loops do, seen from outside.
//!
//! A merge hands the fields of its input to the message in order, each once, and
//! each where the one before it stopped. A run is the list of the states between
//! them.
use vstd::prelude::*;
use crate::context::DecodeContext;
use crate::encoding;
use crate::encoding::WireType;
use crate::error::DecodeError;
use crate::merge;
use crate::merge::{
    at, field_step, merged_delimited, merged_group, merged_group_body,
    merged_length_delimited, merged_to_limit, one_level_down, past, FieldMerge, MergeState,
};
use crate::message;

verus! {

/// One field, tag and all, takes a merge from `a` to `b`: the message is handed
/// the field's tag and the input behind the tag, and takes it.
pub open spec fn takes_field<M: FieldMerge>(a: MergeState<M>, b: MergeState<M>) -> bool {
    match encoding::parse_tag(a.rest) {
        Err(_) => false,
        Ok((tag, n)) => {
            let behind = MergeState { msg: a.msg, rest: a.rest.skip(n as int), ctx: a.ctx };
            &&& M::merges_field(behind, tag, b, Ok(()))
            &&& field_step(behind, tag, b, Ok(()))
        },
    }
}

/// From each state to the next one field is taken, and before each more than
/// `limit` bytes are left.
pub open spec fn is_run<M: FieldMerge>(states: Seq<MergeState<M>>, limit: nat) -> bool {
    &&& states.len() > 0
    &&& forall|i: int|
        0 <= i < states.len() - 1 ==> (#[trigger] states[i]).rest.len() > limit && takes_field(
            states[i],
            states[i + 1],
        )
}

/// The next field cannot be read, with the error `e`, or the message refuses it
/// with that error and is left as `after`.
pub open spec fn fails_with<M: FieldMerge>(
    last: MergeState<M>,
    after: MergeState<M>,
    e: DecodeError,
) -> bool {
    match encoding::parse_tag(last.rest) {
        Err(f) => f == e && after == last,
        Ok((tag, n)) => {
            let behind = MergeState {
                msg: last.msg,
                rest: last.rest.skip(n as int),
                ctx: last.ctx,
            };
            &&& M::merges_field(behind, tag, after, Err(e))
            &&& field_step(behind, tag, after, Err(e))
        },
    }
}

/// There is only one way to succeed.
proof fn lemma_one_success(result: Result<(), DecodeError>)
    ensures
        result is Ok ==> result == Ok::<(), DecodeError>(()),
{
    if let Ok(unit) = result {
        assert(unit == ());
    }
}

/// A run from `before` with one more field in front.
proof fn lemma_longer_run<M: FieldMerge>(
    before: MergeState<M>,
    states: Seq<MergeState<M>>,
    limit: nat,
) -> (longer: Seq<MergeState<M>>)
    requires
        is_run(states, limit),
        before.rest.len() > limit,
        takes_field(before, states[0]),
    ensures
        is_run(longer, limit),
        longer == seq![before] + states,
        longer[0] == before,
        longer.last() == states.last(),
{
    let longer = seq![before] + states;
    assert forall|i: int| 0 <= i < longer.len() - 1 implies (#[trigger] longer[i]).rest.len()
        > limit && takes_field(longer[i], longer[i + 1]) by {
        if i > 0 {
            assert(longer[i] == states[i - 1]);
            assert(longer[i + 1] == states[i]);
        } else {
            assert(longer[1] == states[0]);
        }
    }
    longer
}

/// A merge up to a limit hands every field of the input to the message, in order
/// and each once, until no more than `limit` bytes are left, or until one fails.
pub proof fn law_merge_takes_every_field<M: FieldMerge>(
    before: MergeState<M>,
    limit: nat,
    after: MergeState<M>,
    result: Result<(), DecodeError>,
) -> (states: Seq<MergeState<M>>)
    requires
        merged_to_limit(before, limit, after, result),
    ensures
        is_run(states, limit),
        states[0] == before,
        match result {
            Ok(()) => states.last() == after && after.rest.len() <= limit,
            Err(e) => states.last().rest.len() > limit && fails_with(states.last(), after, e),
        },
    decreases before.rest.len(),
{
    let alone = seq![before];
    if before.rest.len() <= limit {
        return alone;
    }
    match encoding::parse_tag(before.rest) {
        Err(_) => alone,
        Ok((tag, n)) => {
            encoding::lemma_parse_within(before.rest);
            let (mid, step) = choose|mid: MergeState<M>, step: Result<(), DecodeError>|
                #![trigger field_step(past(before, n), tag, mid, step)]
                {
                    &&& field_step(past(before, n), tag, mid, step)
                    &&& match step {
                        Err(_) => after == mid && result == step,
                        Ok(()) => if mid.rest.len() < before.rest.len() {
                            merged_to_limit(mid, limit, after, result)
                        } else {
                            false
                        },
                    }
                };
            match step {
                Err(_) => alone,
                Ok(()) => {
                    lemma_one_success(step);
                    assert(takes_field(before, mid));
                    let states = law_merge_takes_every_field(mid, limit, after, result);
                    lemma_longer_run(before, states, limit)
                },
            }
        },
    }
}

/// And whatever can be made of the fields in this way is a merge.
pub proof fn law_every_run_is_a_merge<M: FieldMerge>(
    states: Seq<MergeState<M>>,
    limit: nat,
    after: MergeState<M>,
    result: Result<(), DecodeError>,
)
    requires
        is_run(states, limit),
        match result {
            Ok(()) => states.last() == after && after.rest.len() <= limit,
            Err(e) => states.last().rest.len() > limit && fails_with(states.last(), after, e),
        },
    ensures
        merged_to_limit(states[0], limit, after, result),
    decreases states.len(),
{
    let before = states[0];
    encoding::lemma_parse_within(before.rest);
    lemma_one_success(result);
    if states.len() == 1 {
        if let Ok((tag, n)) = encoding::parse_tag(before.rest) {
            match result {
                Err(e) => {
                    assert(fails_with(states.last(), after, e));
                    assert(field_step(past(before, n), tag, after, result));
                },
                Ok(()) => {},
            }
        }
    } else {
        let rest = states.skip(1);
        assert forall|i: int| 0 <= i < rest.len() - 1 implies (#[trigger] rest[i]).rest.len()
            > limit && takes_field(rest[i], rest[i + 1]) by {
            assert(rest[i] == states[i + 1]);
            assert(rest[i + 1] == states[i + 2]);
        }
        assert(rest.last() == states.last());
        law_every_run_is_a_merge(rest, limit, after, result);
        assert(takes_field(states[0], states[1]));
        let (tag, n) = encoding::parse_tag(before.rest)->Ok_0;
        assert(field_step(past(before, n), tag, rest[0], Ok(())));
        assert(rest[0].rest.len() < before.rest.len());
        assert(merged_to_limit(rest[0], limit, after, result));
        assert(before.rest.len() > limit);
    }
}

/// To merge the front of an input and then the rest of it is to merge it at once:
/// where the fields of the front end, at `far` bytes from the end of the input,
/// makes no difference to what comes of the whole.
pub proof fn law_merging_in_two_is_merging_at_once<M: FieldMerge>(
    before: MergeState<M>,
    far: nat,
    mid: MergeState<M>,
    limit: nat,
    after: MergeState<M>,
    result: Result<(), DecodeError>,
)
    requires
        limit <= far,
        merged_to_limit(before, far, mid, Ok(())),
        merged_to_limit(mid, limit, after, result),
    ensures
        merged_to_limit(before, limit, after, result),
{
    let first = law_merge_takes_every_field(before, far, mid, Ok(()));
    let second = law_merge_takes_every_field(mid, limit, after, result);
    let states = first + second.skip(1);
    assert forall|i: int| 0 <= i < states.len() - 1 implies (#[trigger] states[i]).rest.len()
        > limit && takes_field(states[i], states[i + 1]) by {
        if i < first.len() - 1 {
            assert(states[i] == first[i] && states[i + 1] == first[i + 1]);
        } else {
            let k = i - (first.len() - 1);
            assert(states[i] == second[k]);
            assert(states[i + 1] == second[k + 1]);
        }
    }
    assert(states.last() == second.last());
    assert(states[0] == before);
    law_every_run_is_a_merge(states, limit, after, result);
}

/// The other way round: what comes of a merge comes of merging any front of the
/// input first, and then the rest.
pub proof fn law_a_merge_can_be_cut<M: FieldMerge>(
    before: MergeState<M>,
    far: nat,
    limit: nat,
    after: MergeState<M>,
) -> (mid: MergeState<M>)
    requires
        limit <= far,
        merged_to_limit(before, limit, after, Ok(())),
    ensures
        merged_to_limit(before, far, mid, Ok(())),
        merged_to_limit(mid, limit, after, Ok(())),
    decreases before.rest.len(),
{
    let states = law_merge_takes_every_field(before, limit, after, Ok(()));
    if before.rest.len() <= far {
        before
    } else {
        assert(states.len() > 1);
        assert(takes_field(states[0], states[1]));
        encoding::lemma_parse_within(before.rest);
        let rest = states.skip(1);
        assert forall|i: int| 0 <= i < rest.len() - 1 implies (#[trigger] rest[i]).rest.len()
            > limit && takes_field(rest[i], rest[i + 1]) by {
            assert(rest[i] == states[i + 1]);
            assert(rest[i + 1] == states[i + 2]);
        }
        assert(rest.last() == states.last());
        law_every_run_is_a_merge(rest, limit, after, Ok(()));
        let mid = law_a_merge_can_be_cut(states[1], far, limit, after);
        let tail = law_merge_takes_every_field(states[1], far, mid, Ok(()));
        let longer = lemma_longer_run(before, tail, far);
        law_every_run_is_a_merge(longer, far, mid, Ok(()));
        mid
    }
}

/// The next tag ends a group.
pub open spec fn at_end_tag(rest: Seq<u8>) -> bool {
    encoding::parse_tag(rest) matches Ok((tag, _)) && tag.layout() == WireType::EndGroup
}

/// A merge of a group hands every field up to the end tag to the message, in order
/// and each once. It succeeds at the end tag of its own number, which it takes, and
/// at no other.
pub proof fn law_group_takes_every_field<M: FieldMerge>(
    before: MergeState<M>,
    field_number: u32,
    after: MergeState<M>,
    result: Result<(), DecodeError>,
) -> (states: Seq<MergeState<M>>)
    requires
        merged_group_body(before, field_number, after, result),
    ensures
        is_run(states, 0),
        states[0] == before,
        forall|i: int| 0 <= i < states.len() - 1 ==> !at_end_tag((#[trigger] states[i]).rest),
        at_end_tag(states.last().rest) ==> {
            let (tag, n) = encoding::parse_tag(states.last().rest)->Ok_0;
            &&& after.msg == states.last().msg
            &&& after.rest == states.last().rest.skip(n as int)
            &&& after.ctx == states.last().ctx
            &&& result == if tag.number() == field_number {
                Ok::<(), DecodeError>(())
            } else {
                Err(DecodeError::InvalidEndGroup(tag.number()))
            }
        },
        !at_end_tag(states.last().rest) ==> result is Err && fails_with(
            states.last(),
            after,
            result->Err_0,
        ),
    decreases before.rest.len(),
{
    let alone = seq![before];
    match encoding::parse_tag(before.rest) {
        Err(_) => alone,
        Ok((tag, n)) => {
            encoding::lemma_parse_within(before.rest);
            if tag.layout() == WireType::EndGroup {
                return alone;
            }
            let (mid, step) = choose|mid: MergeState<M>, step: Result<(), DecodeError>|
                #![trigger field_step(past(before, n), tag, mid, step)]
                {
                    &&& field_step(past(before, n), tag, mid, step)
                    &&& match step {
                        Err(_) => after == mid && result == step,
                        Ok(()) => if mid.rest.len() < before.rest.len() {
                            merged_group_body(mid, field_number, after, result)
                        } else {
                            false
                        },
                    }
                };
            match step {
                Err(_) => alone,
                Ok(()) => {
                    lemma_one_success(step);
                    assert(takes_field(before, mid));
                    let states = law_group_takes_every_field(mid, field_number, after, result);
                    let longer = lemma_longer_run(before, states, 0);
                    assert forall|i: int| 0 <= i < longer.len() - 1 implies !at_end_tag(
                        (#[trigger] longer[i]).rest,
                    ) by {
                        if i > 0 {
                            assert(longer[i] == states[i - 1]);
                        }
                    }
                    longer
                },
            }
        },
    }
}

/// A message behind its length has every field of its body, and of nothing else,
/// handed to it: the merge runs from behind the length to the end of the body.
pub proof fn law_delimited_takes_the_body<M: FieldMerge>(
    before: MergeState<M>,
    max: nat,
    body: Seq<u8>,
    tail: Seq<u8>,
    after: MergeState<M>,
    result: Result<(), DecodeError>,
) -> (states: Seq<MergeState<M>>)
    requires
        body.len() <= max,
        body.len() <= u64::MAX,
        before.rest == encoding::varint_bytes(body.len()) + body + tail,
        merged_delimited(before, max, after, result),
    ensures
        is_run(states, tail.len()),
        states[0].msg == before.msg,
        states[0].rest == body + tail,
        states[0].ctx == before.ctx,
        states.last().rest.len() > tail.len() ==> result is Err && fails_with(
            states.last(),
            after,
            result->Err_0,
        ),
        states.last().rest.len() <= tail.len() ==> after == states.last() && result == if
        after.rest == tail {
            Ok::<(), DecodeError>(())
        } else {
            Err(DecodeError::UnexpectedEof)
        },
{
    let prefix = encoding::varint_bytes(body.len());
    encoding::law_varint_roundtrip(body.len() as u64, body + tail);
    assert(before.rest =~= prefix + (body + tail));
    let read = past(before, prefix.len());
    assert(read.rest =~= body + tail);
    let limit = tail.len();
    let merged = choose|merged: Result<(), DecodeError>|
        {
            &&& #[trigger] merged_to_limit(read, limit, after, merged)
            &&& result == if merged is Ok && after.rest.len() < limit {
                Err(DecodeError::UnexpectedEof)
            } else {
                merged
            }
        };
    merge::lemma_merged_to_limit(read, limit, after, merged);
    if after.rest.len() == limit {
        assert(after.rest =~= tail);
    }
    let states = law_merge_takes_every_field(read, limit, after, merged);
    lemma_one_success(merged);
    states
}

/// A nested message or group is merged one level down and comes back to its own
/// level; where no level is left it is refused, and nothing is read or merged.
pub proof fn law_nesting_takes_one_level<M: FieldMerge>(
    before: MergeState<M>,
    max: nat,
    field_number: u32,
    after: MergeState<M>,
    result: Result<(), DecodeError>,
)
    requires
        merged_length_delimited(before, max, after, result) || merged_group(
            before,
            field_number,
            after,
            result,
        ),
    ensures
        before.ctx.levels() == 0 ==> after == before && result == Err::<(), DecodeError>(
            DecodeError::RecursionLimitExceeded,
        ),
        before.ctx.levels() > 0 ==> exists|inner: MergeState<M>, end: MergeState<M>|
            {
                &&& #[trigger] is_below(before, inner, end, after)
                &&& merged_delimited(inner, max, end, result) || merged_group_body(
                    inner,
                    field_number,
                    end,
                    result,
                )
            },
{
    if before.ctx.levels() > 0 {
        let (inner, end) = choose|inner: MergeState<M>, end: MergeState<M>|
            {
                &&& #[trigger] one_level_down(before, after, inner, end)
                &&& merged_delimited(inner, max, end, result) || merged_group_body(
                    inner,
                    field_number,
                    end,
                    result,
                )
            };
        inner.ctx.law_context_is_its_limits();
        after.ctx.law_context_is_its_limits();
        assert(is_below(before, inner, end, after));
    }
}

/// `inner` is `before` with one nesting level less, and `after` is `end` with the
/// nesting levels of `before`.
pub open spec fn is_below<M>(
    before: MergeState<M>,
    inner: MergeState<M>,
    end: MergeState<M>,
    after: MergeState<M>,
) -> bool {
    &&& inner.msg == before.msg && inner.rest == before.rest
    &&& inner.ctx == DecodeContext::limits(
        (before.ctx.levels() - 1) as u32,
        before.ctx.unknown_fields(),
        before.ctx.element_memory(),
    )
    &&& after.msg == end.msg && after.rest == end.rest
    &&& after.ctx == DecodeContext::limits(
        before.ctx.levels(),
        end.ctx.unknown_fields(),
        end.ctx.element_memory(),
    )
}

/// A decode starts from the default message with all of its limits, hands every
/// field of the input to it, and returns what it has become; or the error of the
/// first field that fails.
pub proof fn law_decode_takes_every_field<M: FieldMerge>(
    input: Seq<u8>,
    ctx: DecodeContext,
    rest: Seq<u8>,
    result: Result<M, DecodeError>,
) -> (states: Seq<MergeState<M>>)
    requires
        message::decoded::<M>(input, ctx, rest, result),
    ensures
        is_run(states, 0),
        call_ensures(<M as Default>::default, (), states[0].msg),
        states[0].rest == input,
        states[0].ctx == ctx,
        match result {
            Ok(msg) => states.last().rest.len() == 0 && states.last().msg == msg && rest.len()
                == 0,
            Err(e) => states.last().rest.len() > 0 && exists|after: MergeState<M>|
                #[trigger] fails_with(states.last(), after, e) && after.rest == rest,
        },
{
    let (start, after, merged) = choose|
        start: M,
        after: MergeState<M>,
        merged: Result<(), DecodeError>,
    |
        {
            &&& #[trigger] merged_to_limit(at(start, input, ctx), 0, after, merged)
            &&& call_ensures(<M as Default>::default, (), start)
            &&& rest == after.rest
            &&& message::outcome(after.msg, merged, result)
        };
    let states = law_merge_takes_every_field(at(start, input, ctx), 0, after, merged);
    if let Err(e) = merged {
        assert(fails_with(states.last(), after, e) && after.rest == rest);
    }
    states
}

} // verus!
