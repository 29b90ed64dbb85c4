//! The descriptor set that reflection embeds.
use vstd::prelude::*;
use crate::buf::EncodeSink;
use crate::codegen::descriptor::FileDescriptorProto;
use crate::encoding;
use crate::encoding::{encode_varint, skip_field, Tag, WireType, SKIP_DEPTH};
use crate::error::DecodeError;

verus! {

/// The number of a file's source info, which is not embedded.
pub const SOURCE_CODE_INFO_FIELD: u32 = 9;

/// The key that a file goes by in a descriptor set: its first field, with a
/// length.
pub const FILE_KEY: u64 = 10;

/// A message without one of its fields.
pub open spec fn without_field(s: Seq<u8>, number: u32) -> Result<Seq<u8>, DecodeError>
    decreases s.len(),
{
    if s.len() == 0 {
        Ok(Seq::empty())
    } else {
        match encoding::parse_tag(s) {
            Err(e) => Err(e),
            Ok((tag, n)) => match encoding::value_span(tag, s.skip(n as int), SKIP_DEPTH as nat) {
                Err(e) => Err(e),
                Ok(k) => if 0 < n && n + k <= s.len() {
                    after(
                        if tag.number() == number {
                            Seq::empty()
                        } else {
                            s.take((n + k) as int)
                        },
                        without_field(s.skip((n + k) as int), number),
                    )
                } else {
                    Err(DecodeError::UnexpectedEof)
                },
            },
        }
    }
}

/// The bytes of `rest` behind `front`.
pub open spec fn after(front: Seq<u8>, rest: Result<Seq<u8>, DecodeError>) -> Result<
    Seq<u8>,
    DecodeError,
> {
    match rest {
        Ok(rest) => Ok(front + rest),
        Err(e) => Err(e),
    }
}

/// Take a field out of a message, wherever it stands. What is no message is
/// refused.
pub fn strip_field(message: &[u8], number: u32) -> (result: Result<Vec<u8>, DecodeError>)
    ensures
        match without_field(message@, number) {
            Ok(rest) => result is Ok && result->Ok_0@ == rest,
            Err(e) => result == Err::<Vec<u8>, DecodeError>(e),
        },
{
    let mut out: Vec<u8> = Vec::new();
    let mut cursor: &[u8] = message;
    assert(after(Seq::empty(), without_field(message@, number)) =~= without_field(
        message@,
        number,
    )) by {
        if let Ok(rest) = without_field(message@, number) {
            assert(Seq::<u8>::empty() + rest =~= rest);
        }
    }
    while cursor.len() > 0
        invariant
            without_field(message@, number) == after(out@, without_field(cursor@, number)),
        decreases cursor@.len(),
    {
        let field: &[u8] = cursor;
        let ghost kept = out@;
        proof {
            encoding::lemma_parse_within(cursor@);
        }
        let tag: Tag = match Tag::decode(&mut cursor) {
            Ok(tag) => tag,
            Err(e) => return Err(e),
        };
        let ghost n = field@.len() - cursor@.len();
        proof {
            encoding::lemma_value_span_within(tag, cursor@, SKIP_DEPTH as nat);
        }
        match skip_field(tag, &mut cursor) {
            Ok(()) => {},
            Err(e) => return Err(e),
        }
        let ghost k = field@.len() - n - cursor@.len();
        assert(field@.skip(n).skip(k) =~= field@.skip(n + k));
        let rest_len: usize = cursor.len();
        if tag.field_number() != number {
            let (bytes, _rest) = field.split_at(field.len() - rest_len);
            out.extend_from_slice(bytes);
            assert(bytes@ =~= field@.take(n + k));
            assert(out@ =~= kept + field@.take(n + k));
        }
        proof {
            if let Ok(rest) = without_field(cursor@, number) {
                assert(kept + (field@.take(n + k) + rest) =~= kept + field@.take(n + k) + rest);
                assert(kept + (Seq::<u8>::empty() + rest) =~= kept + rest);
            }
        }
    }
    assert(out@ + Seq::<u8>::empty() =~= out@);
    Ok(out)
}

/// A message that a field was taken out of does not have it any more, and is
/// otherwise left alone: taking it out again changes nothing.
pub proof fn law_stripping_twice_is_stripping_once(s: Seq<u8>, number: u32)
    requires
        without_field(s, number) is Ok,
    ensures
        without_field(without_field(s, number)->Ok_0, number) == without_field(s, number),
    decreases s.len(),
{
    if s.len() > 0 {
        let (tag, n) = encoding::parse_tag(s)->Ok_0;
        let body = s.skip(n as int);
        let k = encoding::value_span(tag, body, SKIP_DEPTH as nat)->Ok_0;
        let rest = without_field(s.skip((n + k) as int), number)->Ok_0;
        law_stripping_twice_is_stripping_once(s.skip((n + k) as int), number);
        if tag.number() == number {
            assert(Seq::<u8>::empty() + rest =~= rest);
        } else {
            let front = s.take((n + k) as int);
            let all = front + rest;
            assert(all.take(n as int) =~= s.take(n as int));
            encoding::law_parse_looks_no_further(s, all);
            assert(all.skip(n as int).take(k as int) =~= body.take(k as int));
            encoding::law_skip_looks_no_further(
                tag,
                body,
                all.skip(n as int),
                SKIP_DEPTH as nat,
            );
            assert(all.take((n + k) as int) =~= front);
            assert(all.skip((n + k) as int) =~= rest);
        }
    }
}

/// A file in a descriptor set.
pub open spec fn framed(file: Seq<u8>) -> Seq<u8> {
    encoding::varint_bytes(FILE_KEY as nat) + encoding::varint_bytes(file.len()) + file
}

/// The descriptor set of the first `k` files.
pub open spec fn descriptor_set(files: Seq<FileDescriptorProto>, k: nat) -> Result<
    Seq<u8>,
    DecodeError,
>
    decreases k,
{
    if k == 0 || k > files.len() {
        Ok(Seq::empty())
    } else {
        match descriptor_set(files, (k - 1) as nat) {
            Err(e) => Err(e),
            Ok(before) => match without_field(files[k - 1].encoded@, SOURCE_CODE_INFO_FIELD) {
                Err(e) => Err(e),
                Ok(file) => Ok(before + framed(file)),
            },
        }
    }
}

/// A set only grows, and keeps its first error.
proof fn lemma_set_grows(files: Seq<FileDescriptorProto>, k: nat, m: nat)
    requires
        k <= m <= files.len(),
    ensures
        match descriptor_set(files, k) {
            Err(e) => descriptor_set(files, m) == Err::<Seq<u8>, DecodeError>(e),
            Ok(before) => descriptor_set(files, m) matches Ok(after) ==> before.len()
                <= after.len(),
        },
    decreases m,
{
    if k < m {
        lemma_set_grows(files, k, (m - 1) as nat);
    }
}

/// Encode the descriptor set of files, with their source info taken out, for
/// reflection to embed. Overrides of features have been applied to the files.
///
/// A file whose encoding is no message is refused. The set fits in memory.
pub fn encode_descriptor_set(files: &Vec<FileDescriptorProto>) -> (result: Result<
    Vec<u8>,
    DecodeError,
>)
    requires
        forall|k: nat|
            k <= files@.len() && (#[trigger] descriptor_set(files@, k)) is Ok
                ==> descriptor_set(files@, k)->Ok_0.len() <= isize::MAX,
    ensures
        match descriptor_set(files@, files@.len()) {
            Ok(set) => result is Ok && result->Ok_0@ == set,
            Err(e) => result == Err::<Vec<u8>, DecodeError>(e),
        },
{
    let mut out: Vec<u8> = Vec::new();
    let mut i: usize = 0;
    while i < files.len()
        invariant
            i <= files@.len(),
            forall|k: nat|
                k <= files@.len() && (#[trigger] descriptor_set(files@, k)) is Ok
                    ==> descriptor_set(files@, k)->Ok_0.len() <= isize::MAX,
            descriptor_set(files@, i as nat) == Ok::<Seq<u8>, DecodeError>(out@),
        decreases files@.len() - i,
    {
        proof {
            lemma_set_grows(files@, i as nat + 1, files@.len());
        }
        let ghost before = out@;
        let file: Vec<u8> = match strip_field(
            files[i].encoded.as_slice(),
            SOURCE_CODE_INFO_FIELD,
        ) {
            Ok(file) => file,
            Err(e) => return Err(e),
        };
        assert(descriptor_set(files@, i as nat + 1) == Ok::<Seq<u8>, DecodeError>(
            before + framed(file@),
        ));
        encode_varint(FILE_KEY, &mut out);
        encode_varint(file.len() as u64, &mut out);
        out.put_slice(file.as_slice());
        assert(out@ =~= before + framed(file@));
        i = i + 1;
    }
    Ok(out)
}

/// A file that was put into a set can be read back from it, whatever follows.
pub proof fn law_framed_file_reads_back(file: Seq<u8>, rest: Seq<u8>)
    requires
        file.len() <= u64::MAX,
    ensures
        ({
            let s = framed(file) + rest;
            &&& encoding::parse_tag(s) matches Ok((tag, n)) && tag.number() == 1 && tag.layout()
                == WireType::LengthDelimited && {
                let body = s.skip(n as int);
                encoding::parse_varint(body) matches Ok((len, m)) && len == file.len() && body.skip(
                    m as int,
                ).take(len as int) == file && body.skip(m as int).skip(len as int) == rest
            }
        }),
{
    let key = encoding::varint_bytes(FILE_KEY as nat);
    let len = encoding::varint_bytes(file.len());
    let s = framed(file) + rest;
    assert(s =~= key + (len + (file + rest)));
    let tag = encoding::lemma_tag_of(1, WireType::LengthDelimited);
    encoding::law_tag_roundtrip(tag, len + (file + rest));
    let body = s.skip(key.len() as int);
    assert(body =~= len + (file + rest));
    encoding::law_varint_roundtrip(file.len() as u64, file + rest);
    assert(body.skip(len.len() as int) =~= file + rest);
    assert((file + rest).take(file.len() as int) =~= file);
    assert((file + rest).skip(file.len() as int) =~= rest);
}

/// One field of a message as it is encoded, tag and all.
pub struct WireField {
    /// The field's number.
    pub number: u32,
    /// Its bytes.
    pub bytes: Seq<u8>,
}

/// The fields of an encoded message, in order; nothing where it is no message.
pub open spec fn wire_fields(s: Seq<u8>) -> Option<Seq<WireField>>
    decreases s.len(),
{
    if s.len() == 0 {
        Some(Seq::empty())
    } else {
        match encoding::parse_tag(s) {
            Err(_) => None,
            Ok((tag, n)) => match encoding::value_span(tag, s.skip(n as int), SKIP_DEPTH as nat) {
                Err(_) => None,
                Ok(k) => if n + k == 0 || n + k > s.len() {
                    None
                } else {
                    match wire_fields(s.skip((n + k) as int)) {
                        None => None,
                        Some(rest) => Some(
                            seq![
                                WireField { number: tag.number(), bytes: s.take((n + k) as int) },
                            ] + rest,
                        ),
                    }
                },
            },
        }
    }
}

/// The bytes of fields.
pub open spec fn bytes_of(fields: Seq<WireField>) -> Seq<Seq<u8>> {
    fields.map_values(|f: WireField| f.bytes)
}

/// A message is its fields, one after the other. Without a field it is all its
/// other fields, each as it was and in the order in which they stood; what is no
/// message is refused.
pub proof fn law_stripping_leaves_the_other_fields(s: Seq<u8>, number: u32)
    ensures
        wire_fields(s) is Some <==> without_field(s, number) is Ok,
        wire_fields(s) matches Some(fields) ==> {
            &&& bytes_of(fields).flatten() == s
            &&& without_field(s, number) == Ok::<Seq<u8>, DecodeError>(
                bytes_of(fields.filter(|f: WireField| f.number != number)).flatten(),
            )
        },
    decreases s.len(),
{
    let other = |f: WireField| f.number != number;
    if s.len() == 0 {
        assert(bytes_of(Seq::<WireField>::empty()) =~= Seq::<Seq<u8>>::empty());
        assert(Seq::<WireField>::empty().filter(other) =~= Seq::<WireField>::empty());
    } else if let Ok((tag, n)) = encoding::parse_tag(s) {
        encoding::lemma_parse_within(s);
        encoding::lemma_value_span_within(tag, s.skip(n as int), SKIP_DEPTH as nat);
        if let Ok(k) = encoding::value_span(tag, s.skip(n as int), SKIP_DEPTH as nat) {
            let tail = s.skip((n + k) as int);
            law_stripping_leaves_the_other_fields(tail, number);
            if let Some(rest) = wire_fields(tail) {
                let field = WireField { number: tag.number(), bytes: s.take((n + k) as int) };
                let fields = seq![field] + rest;
                lemma_first_bytes(field, rest);
                assert(s =~= field.bytes + tail);
                Seq::filter_distributes_over_add(seq![field], rest, other);
                reveal_with_fuel(Seq::filter, 2);
                assert(seq![field].drop_last() =~= Seq::<WireField>::empty());
                assert(seq![field].last() == field);
                if tag.number() == number {
                    assert(seq![field].filter(other) =~= Seq::<WireField>::empty());
                    assert(fields.filter(other) =~= rest.filter(other));
                    let left = bytes_of(rest.filter(other)).flatten();
                    assert(Seq::<u8>::empty() + left =~= left);
                } else {
                    assert(seq![field].filter(other) =~= seq![field]);
                    assert(fields.filter(other) =~= seq![field] + rest.filter(other));
                    lemma_first_bytes(field, rest.filter(other));
                }
            }
        }
    }
}

proof fn lemma_first_bytes(field: WireField, rest: Seq<WireField>)
    ensures
        bytes_of(seq![field] + rest).flatten() == field.bytes + bytes_of(rest).flatten(),
{
    let all = bytes_of(seq![field] + rest);
    assert(all.drop_first() =~= bytes_of(rest));
    assert(all.first() == field.bytes);
}

/// What a descriptor set holds, read field by field: the bodies of its entries,
/// each in field 1 behind a length. Nothing where there is anything else in it.
pub open spec fn set_entries(s: Seq<u8>) -> Option<Seq<Seq<u8>>>
    decreases s.len(),
{
    if s.len() == 0 {
        Some(Seq::empty())
    } else {
        match encoding::parse_tag(s) {
            Err(_) => None,
            Ok((tag, n)) => match encoding::parse_varint(s.skip(n as int)) {
                Err(_) => None,
                Ok((len, m)) => {
                    let end = n + m + len as nat;
                    if tag.number() != 1 || tag.layout() != WireType::LengthDelimited || end == 0
                        || end > s.len() {
                        None
                    } else {
                        match set_entries(s.skip(end as int)) {
                            None => None,
                            Some(rest) => Some(
                                seq![s.subrange((n + m) as int, end as int)] + rest,
                            ),
                        }
                    }
                },
            },
        }
    }
}

/// A set of one file.
proof fn lemma_only_entry(file: Seq<u8>)
    requires
        file.len() <= u64::MAX,
    ensures
        set_entries(framed(file)) == Some(seq![file]),
{
    let key = encoding::varint_bytes(FILE_KEY as nat);
    let len = encoding::varint_bytes(file.len());
    let s = framed(file);
    assert(s =~= key + (len + file));
    let tag = encoding::lemma_tag_of(1, WireType::LengthDelimited);
    encoding::law_tag_roundtrip(tag, len + file);
    encoding::lemma_parse_within(s);
    assert(s.skip(key.len() as int) =~= len + file);
    encoding::law_varint_roundtrip(file.len() as u64, file);
    let at = key.len() + len.len();
    assert(s.subrange(at as int, s.len() as int) =~= file);
    assert(s.skip(s.len() as int) =~= Seq::<u8>::empty());
    assert(set_entries(s.skip(s.len() as int)) == Some(Seq::<Seq<u8>>::empty()));
    assert(seq![file] + Seq::<Seq<u8>>::empty() =~= seq![file]);
}

/// A set with one more file at its end.
#[verifier::spinoff_prover]
proof fn lemma_one_more_entry(set: Seq<u8>, file: Seq<u8>)
    requires
        file.len() <= u64::MAX,
        set_entries(set) is Some,
    ensures
        set_entries(set + framed(file)) == Some(set_entries(set)->Some_0.push(file)),
    decreases set.len(),
{
    if set.len() == 0 {
        assert(set + framed(file) =~= framed(file));
        lemma_only_entry(file);
        assert(seq![file] =~= Seq::<Seq<u8>>::empty().push(file));
    } else {
        let (tag, n) = encoding::parse_tag(set)->Ok_0;
        let (len, m) = encoding::parse_varint(set.skip(n as int))->Ok_0;
        let end = n + m + len as nat;
        let rest = set.skip(end as int);
        lemma_one_more_entry(rest, file);
        lemma_first_entry_stays(set, framed(file));
        let first = seq![set.subrange((n + m) as int, end as int)];
        let others = set_entries(rest)->Some_0;
        assert(first + others.push(file) =~= (first + others).push(file));
    }
}

/// What follows a set does not change its first entry.
#[verifier::spinoff_prover]
proof fn lemma_first_entry_stays(set: Seq<u8>, more: Seq<u8>)
    requires
        set.len() > 0,
        set_entries(set) is Some,
    ensures
        ({
            let all = set + more;
            let (tag, n) = encoding::parse_tag(set)->Ok_0;
            let (len, m) = encoding::parse_varint(set.skip(n as int))->Ok_0;
            let end = n + m + len as nat;
            &&& encoding::parse_tag(all) == encoding::parse_tag(set)
            &&& encoding::parse_varint(all.skip(n as int)) == encoding::parse_varint(
                set.skip(n as int),
            )
            &&& all.skip(end as int) == set.skip(end as int) + more
            &&& all.subrange((n + m) as int, end as int) == set.subrange(
                (n + m) as int,
                end as int,
            )
        }),
{
    let all = set + more;
    let (tag, n) = encoding::parse_tag(set)->Ok_0;
    let (len, m) = encoding::parse_varint(set.skip(n as int))->Ok_0;
    let end = n + m + len as nat;
    encoding::lemma_parse_within(set);
    encoding::lemma_parse_within(set.skip(n as int));
    assert(all.take(n as int) =~= set.take(n as int));
    encoding::law_parse_looks_no_further(set, all);
    assert(all.skip(n as int).take(m as int) =~= set.skip(n as int).take(m as int));
    encoding::law_parse_looks_no_further(set.skip(n as int), all.skip(n as int));
    assert(all.skip(end as int) =~= set.skip(end as int) + more);
    assert(all.subrange((n + m) as int, end as int) =~= set.subrange((n + m) as int, end as int));
}

proof fn lemma_set_reads_back(files: Seq<FileDescriptorProto>, k: nat, set: Seq<u8>)
    requires
        k <= files.len(),
        descriptor_set(files, k) == Ok::<Seq<u8>, DecodeError>(set),
        set.len() <= u64::MAX,
    ensures
        set_entries(set) matches Some(entries) && entries.len() == k && forall|i: int|
            0 <= i < k ==> without_field((#[trigger] files[i]).encoded@, 9) == Ok::<
                Seq<u8>,
                DecodeError,
            >(entries[i]),
    decreases k,
{
    if k > 0 {
        let before = descriptor_set(files, (k - 1) as nat)->Ok_0;
        let file = without_field(files[k - 1].encoded@, SOURCE_CODE_INFO_FIELD)->Ok_0;
        lemma_set_reads_back(files, (k - 1) as nat, before);
        lemma_one_more_entry(before, file);
    }
}

/// A set holds every file, and nothing else: read back field by field it has as
/// many entries as there are files, each in field 1, and each is the file in its
/// place, all of its fields but the source info in field 9.
pub proof fn law_set_holds_every_file(files: Seq<FileDescriptorProto>, set: Seq<u8>)
    requires
        descriptor_set(files, files.len()) == Ok::<Seq<u8>, DecodeError>(set),
        set.len() <= u64::MAX,
    ensures
        set_entries(set) matches Some(entries) && entries.len() == files.len() && forall|i: int|
            0 <= i < files.len() ==> wire_fields((#[trigger] files[i]).encoded@) is Some
                && entries[i] == bytes_of(
                wire_fields(files[i].encoded@)->Some_0.filter(|f: WireField| f.number != 9),
            ).flatten(),
{
    lemma_set_reads_back(files, files.len(), set);
    assert forall|i: int| 0 <= i < files.len() implies wire_fields(
        (#[trigger] files[i]).encoded@,
    ) is Some && set_entries(set)->Some_0[i] == bytes_of(
        wire_fields(files[i].encoded@)->Some_0.filter(|f: WireField| f.number != 9),
    ).flatten() by {
        law_stripping_leaves_the_other_fields(files[i].encoded@, 9);
    }
}

/// There is a set where every file is an encoded message; otherwise the error is
/// that of the first file that is none.
pub proof fn law_set_refuses_what_is_no_message(files: Seq<FileDescriptorProto>)
    ensures
        descriptor_set(files, files.len()) is Ok <==> forall|i: int|
            0 <= i < files.len() ==> wire_fields((#[trigger] files[i]).encoded@) is Some,
        forall|i: int|
            0 <= i < files.len() && wire_fields((#[trigger] files[i]).encoded@) is None && (
            forall|j: int| 0 <= j < i ==> wire_fields((#[trigger] files[j]).encoded@) is Some)
                ==> descriptor_set(files, files.len()) == without_field(files[i].encoded@, 9),
{
    lemma_set_refuses(files, files.len());
}

proof fn lemma_set_refuses(files: Seq<FileDescriptorProto>, k: nat)
    requires
        k <= files.len(),
    ensures
        descriptor_set(files, k) is Ok <==> forall|i: int|
            0 <= i < k ==> wire_fields((#[trigger] files[i]).encoded@) is Some,
        forall|i: int|
            0 <= i < k && wire_fields((#[trigger] files[i]).encoded@) is None && (forall|j: int|
                0 <= j < i ==> wire_fields((#[trigger] files[j]).encoded@) is Some)
                ==> descriptor_set(files, k) == without_field(files[i].encoded@, 9),
    decreases k,
{
    if k > 0 {
        lemma_set_refuses(files, (k - 1) as nat);
        law_stripping_leaves_the_other_fields(files[k - 1].encoded@, 9);
        assert forall|i: int|
            0 <= i < k && wire_fields((#[trigger] files[i]).encoded@) is None && (forall|j: int|
                0 <= j < i ==> wire_fields((#[trigger] files[j]).encoded@) is Some)
        implies descriptor_set(files, k) == without_field(files[i].encoded@, 9) by {
            law_stripping_leaves_the_other_fields(files[i].encoded@, 9);
        }
    }
}

} // verus!
