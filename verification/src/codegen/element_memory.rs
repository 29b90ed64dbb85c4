//! The element-memory bound on decoding a descriptor set: where it comes from,
//! and what is said when it is exceeded.
use vstd::prelude::*;
use vstd::string::*;
use vstd::utf8;
use crate::codegen::text;
use crate::codegen::text::{parse_usize, same, split, split_once, to_decimal, trim};
use crate::encoding;
use crate::encoding::{decode_varint, skip_field, Tag, WireType, SKIP_DEPTH};
use crate::error::DecodeError;
use crate::message::Message;
use crate::options::DecodeOptions;

verus! {

/// The environment variable that overrides the bound: a byte count, or
/// `unlimited` or `max` for none.
pub const ELEMENT_MEMORY_LIMIT_ENV: &'static str = "BUFFA_ELEMENT_MEMORY_LIMIT";

/// The plugin option that overrides the bound for the request carrying it.
pub const ELEMENT_MEMORY_LIMIT_OPT: &'static str = "element_memory_limit";

/// The bound that build tooling applies to a descriptor set: 1 GiB.
///
/// A build's descriptors come from a compiler that the caller invoked, so the
/// bound is far above the default for untrusted input. It is still finite, so
/// that a corrupt descriptor set fails with an error.
pub const TOOLING_ELEMENT_MEMORY_LIMIT: usize = 1024 * 1024 * 1024;

/// What a value of the option or of the variable stands for.
pub open spec fn limit_value(raw: Seq<char>) -> Option<usize> {
    let value = text::trimmed(raw);
    if value == ""@ {
        Some(TOOLING_ELEMENT_MEMORY_LIMIT)
    } else if value == "unlimited"@ || value == "max"@ {
        Some(usize::MAX)
    } else {
        text::parsed_usize(value)
    }
}

/// What is said of a value that stands for nothing.
pub open spec fn bad_limit_text(raw: Seq<char>) -> Seq<char> {
    ELEMENT_MEMORY_LIMIT_ENV@ + ": expected a byte count or 'unlimited', got '"@ + raw + "'"@
}

/// Read a value of the option or of the variable. None, and one that is blank,
/// mean the default; anything but a byte count, `unlimited` and `max` is an
/// error.
pub fn parse_element_memory_limit(raw: Option<&str>) -> (result: Result<usize, String>)
    ensures
        match raw {
            None => result == Ok::<usize, String>(TOOLING_ELEMENT_MEMORY_LIMIT),
            Some(raw) => match limit_value(raw@) {
                Some(limit) => result == Ok::<usize, String>(limit),
                None => result is Err && result->Err_0@ == bad_limit_text(raw@),
            },
        },
{
    let raw: &str = match raw {
        Some(raw) => raw,
        None => return Ok(TOOLING_ELEMENT_MEMORY_LIMIT),
    };
    let value: &str = trim(raw);
    if same(value, "") {
        return Ok(TOOLING_ELEMENT_MEMORY_LIMIT);
    }
    if same(value, "unlimited") || same(value, "max") {
        return Ok(usize::MAX);
    }
    match parse_usize(value) {
        Some(limit) => Ok(limit),
        None => {
            let mut r: String = ELEMENT_MEMORY_LIMIT_ENV.to_owned();
            r.append(": expected a byte count or 'unlimited', got '");
            r.append(raw);
            r.append("'");
            Err(r)
        },
    }
}

/// The value that an entry of a parameter string gives the option, if it does.
pub open spec fn opt_entry(entry: Seq<char>) -> Option<Seq<char>> {
    match text::cut(text::trimmed(entry), "="@) {
        Some((key, value)) => if text::trimmed(key) == ELEMENT_MEMORY_LIMIT_OPT@ {
            Some(value)
        } else {
            None
        },
        None => None,
    }
}

/// What the entries of a parameter string set the option to. A later entry
/// overrides an earlier one, and the first bad value is an error.
pub open spec fn opt_value(entries: Seq<Seq<char>>) -> Result<Option<usize>, Seq<char>>
    decreases entries.len(),
{
    if entries.len() == 0 {
        Ok(None)
    } else {
        match opt_value(entries.drop_last()) {
            Err(e) => Err(e),
            Ok(found) => match opt_entry(entries.last()) {
                None => Ok(found),
                Some(value) => match limit_value(value) {
                    Some(limit) => Ok(Some(limit)),
                    None => Err(bad_limit_text(value)),
                },
            },
        }
    }
}

/// The first bad value decides: entries after it change nothing.
proof fn lemma_opt_value_error_stays(entries: Seq<Seq<char>>, n: nat)
    requires
        n <= entries.len(),
        opt_value(entries.take(n as int)) is Err,
    ensures
        opt_value(entries) == opt_value(entries.take(n as int)),
    decreases entries.len() - n,
{
    if n < entries.len() {
        assert(entries.take(n as int + 1).drop_last() =~= entries.take(n as int));
        lemma_opt_value_error_stays(entries, n + 1);
    } else {
        assert(entries.take(n as int) =~= entries);
    }
}

/// Find `element_memory_limit=<value>` in a plugin's parameter string, which is
/// a list of entries separated by commas.
pub fn element_memory_limit_opt(parameter: &str) -> (result: Result<Option<usize>, String>)
    ensures
        match opt_value(text::pieces(parameter@, ","@)) {
            Ok(found) => result == Ok::<Option<usize>, String>(found),
            Err(e) => result is Err && result->Err_0@ == e,
        },
{
    proof {
        reveal_strlit(",");
        reveal_strlit("=");
    }
    let entries: Vec<&str> = split(parameter, ",");
    let ghost all = text::pieces(parameter@, ","@);
    let mut found: Option<usize> = None;
    let mut i: usize = 0;
    assert(all.take(0) =~= Seq::<Seq<char>>::empty());
    while i < entries.len()
        invariant
            i <= entries@.len(),
            all == text::pieces(parameter@, ","@),
            all == text::views(entries@),
            "="@.len() == 1,
            opt_value(all.take(i as int)) == Ok::<Option<usize>, Seq<char>>(found),
        decreases entries@.len() - i,
    {
        proof {
            assert(all.take(i as int + 1).drop_last() =~= all.take(i as int));
            assert(all.take(i as int + 1).last() == entries@[i as int]@);
        }
        let entry: &str = trim(entries[i]);
        match split_once(entry, "=") {
            None => {},
            Some((key, value)) => {
                if same(trim(key), ELEMENT_MEMORY_LIMIT_OPT) {
                    match parse_element_memory_limit(Some(value)) {
                        Ok(limit) => {
                            found = Some(limit);
                        },
                        Err(e) => {
                            proof {
                                lemma_opt_value_error_stays(all, i as nat + 1);
                            }
                            return Err(e);
                        },
                    }
                }
            },
        }
        i = i + 1;
    }
    assert(all.take(all.len() as int) =~= all);
    Ok(found)
}

/// A byte budget in words: in MiB where it is a whole number of them, else in
/// bytes.
pub open spec fn budget_text(bytes: nat) -> Seq<char> {
    if bytes >= 1024 * 1024 && bytes % (1024 * 1024) == 0 {
        text::decimal(bytes / (1024 * 1024)) + " MiB"@
    } else {
        text::decimal(bytes) + "-byte"@
    }
}

/// Describe a byte budget.
pub fn describe_byte_budget(bytes: usize) -> (r: String)
    ensures
        r@ == budget_text(bytes as nat),
{
    let mib: usize = 1024 * 1024;
    if bytes >= mib && bytes % mib == 0 {
        let mut r: String = to_decimal(bytes / mib);
        r.append(" MiB");
        r
    } else {
        let mut r: String = to_decimal(bytes);
        r.append("-byte");
        r
    }
}

/// What is said of a descriptor set that does not decode: what failed, and, if
/// the element-memory bound is what rejected it, how to raise the bound.
pub open spec fn failure_text(subject: Seq<char>, err: DecodeError, limit: nat) -> Seq<char> {
    let base = "failed to decode "@ + subject + ": "@ + err.text();
    if err == DecodeError::ElementMemoryLimitExceeded {
        base + "\nThese descriptors exceed the "@ + budget_text(limit)
            + " element-memory budget in force. Raise it with the "@ + ELEMENT_MEMORY_LIMIT_OPT@
            + "=<bytes> plugin option or the "@ + ELEMENT_MEMORY_LIMIT_ENV@
            + " environment variable; either accepts 'unlimited'. See \"Very large schemas\" in the buffa guide."@
    } else {
        base
    }
}

/// Describe a failure to decode a descriptor set under the bound `limit`.
pub fn decode_failure(subject: &str, err: &DecodeError, limit: usize) -> (r: String)
    ensures
        r@ == failure_text(subject@, *err, limit as nat),
{
    let mut r: String = "failed to decode ".to_owned();
    r.append(subject);
    r.append(": ");
    r.append(err.message().as_str());
    if *err == DecodeError::ElementMemoryLimitExceeded {
        r.append("\nThese descriptors exceed the ");
        r.append(describe_byte_budget(limit).as_str());
        r.append(" element-memory budget in force. Raise it with the ");
        r.append(ELEMENT_MEMORY_LIMIT_OPT);
        r.append("=<bytes> plugin option or the ");
        r.append(ELEMENT_MEMORY_LIMIT_ENV);
        r.append(
            " environment variable; either accepts 'unlimited'. See \"Very large schemas\" in the buffa guide.",
        );
    }
    r
}

/// The number of a request's parameter field.
pub const PARAMETER_FIELD: u32 = 2;

/// The last parameter field of a request that is encoded as `s`, or `found`
/// where it has none.
pub open spec fn request_parameter(s: Seq<u8>, found: Option<Seq<char>>) -> Result<
    Option<Seq<char>>,
    DecodeError,
>
    decreases s.len(),
{
    if s.len() == 0 {
        Ok(found)
    } else {
        match encoding::parse_tag(s) {
            Err(e) => Err(e),
            Ok((tag, n)) => {
                let body = s.skip(n as int);
                if tag.number() == PARAMETER_FIELD && tag.layout() == WireType::LengthDelimited {
                    match encoding::parse_varint(body) {
                        Err(e) => Err(e),
                        Ok((len, m)) => {
                            let rest = body.skip(m as int);
                            if len > usize::MAX {
                                Err(DecodeError::MessageTooLarge)
                            } else if len > rest.len() {
                                Err(DecodeError::UnexpectedEof)
                            } else if !utf8::valid_utf8(rest.take(len as int)) {
                                Err(DecodeError::InvalidUtf8)
                            } else if n + m + len <= s.len() && n > 0 {
                                request_parameter(
                                    rest.skip(len as int),
                                    Some(utf8::decode_utf8(rest.take(len as int))),
                                )
                            } else {
                                Err(DecodeError::UnexpectedEof)
                            }
                        },
                    }
                } else {
                    match encoding::value_span(tag, body, SKIP_DEPTH as nat) {
                        Err(e) => Err(e),
                        Ok(k) => if n + k <= s.len() && n > 0 {
                            request_parameter(body.skip(k as int), found)
                        } else {
                            Err(DecodeError::UnexpectedEof)
                        },
                    }
                }
            },
        }
    }
}

/// A parameter field as it is encoded: its key, its length, and the text.
pub open spec fn parameter_field(parameter: Seq<char>) -> Seq<u8> {
    let text = utf8::encode_utf8(parameter);
    encoding::varint_bytes(PARAMETER_FIELD as nat * 8 + 2) + encoding::varint_bytes(text.len())
        + text
}

/// A parameter that is set last is the one that is read, whatever came before
/// it.
pub proof fn law_last_parameter_wins(s: Seq<u8>, found: Option<Seq<char>>, parameter: Seq<char>)
    requires
        request_parameter(s, found) is Ok,
        utf8::encode_utf8(parameter).len() <= usize::MAX,
    ensures
        request_parameter(s + parameter_field(parameter), found) == Ok::<
            Option<Seq<char>>,
            DecodeError,
        >(Some(parameter)),
    decreases s.len(),
{
    let field = parameter_field(parameter);
    let all = s + field;
    if s.len() == 0 {
        assert(all =~= field);
        lemma_parameter_field(found, parameter);
    } else {
        let (tag, n) = encoding::parse_tag(s)->Ok_0;
        encoding::lemma_parse_within(s);
        assert(all.take(n as int) =~= s.take(n as int));
        encoding::law_parse_looks_no_further(s, all);
        let body = s.skip(n as int);
        let longer = all.skip(n as int);
        assert(longer =~= body + field);
        if tag.number() == PARAMETER_FIELD && tag.layout() == WireType::LengthDelimited {
            let (len, m) = encoding::parse_varint(body)->Ok_0;
            encoding::lemma_parse_within(body);
            assert(longer.take(m as int) =~= body.take(m as int));
            encoding::law_parse_looks_no_further(body, longer);
            let rest = body.skip(m as int);
            assert(longer.skip(m as int) =~= rest + field);
            assert((rest + field).take(len as int) =~= rest.take(len as int));
            assert((rest + field).skip(len as int) =~= rest.skip(len as int) + field);
            law_last_parameter_wins(
                rest.skip(len as int),
                Some(utf8::decode_utf8(rest.take(len as int))),
                parameter,
            );
        } else {
            let k = encoding::value_span(tag, body, SKIP_DEPTH as nat)->Ok_0;
            encoding::lemma_value_span_within(tag, body, SKIP_DEPTH as nat);
            assert(longer.take(k as int) =~= body.take(k as int));
            encoding::law_skip_looks_no_further(tag, body, longer, SKIP_DEPTH as nat);
            assert(longer.skip(k as int) =~= body.skip(k as int) + field);
            law_last_parameter_wins(body.skip(k as int), found, parameter);
        }
    }
}

/// A request that is nothing but a parameter has that parameter.
proof fn lemma_parameter_field(found: Option<Seq<char>>, parameter: Seq<char>)
    requires
        utf8::encode_utf8(parameter).len() <= usize::MAX,
    ensures
        request_parameter(parameter_field(parameter), found) == Ok::<
            Option<Seq<char>>,
            DecodeError,
        >(Some(parameter)),
{
    let field = parameter_field(parameter);
    let bytes = utf8::encode_utf8(parameter);
    let tag = encoding::lemma_tag_of(PARAMETER_FIELD, WireType::LengthDelimited);
    let key = encoding::varint_bytes(PARAMETER_FIELD as nat * 8 + 2);
    let len = encoding::varint_bytes(bytes.len());
    assert(field =~= key + (len + bytes));
    encoding::law_tag_roundtrip(tag, len + bytes);
    encoding::lemma_parse_within(field);
    assert(field.skip(key.len() as int) =~= len + bytes);
    encoding::law_varint_roundtrip(bytes.len() as u64, bytes);
    assert((len + bytes).skip(len.len() as int) =~= bytes);
    assert(bytes.take(bytes.len() as int) =~= bytes);
    utf8::encode_utf8_valid_utf8(parameter);
    utf8::encode_utf8_decode_utf8(parameter);
    let rest = bytes.skip(bytes.len() as int);
    assert(rest.len() == 0);
    assert(request_parameter(rest, Some(parameter)) == Ok::<Option<Seq<char>>, DecodeError>(
        Some(parameter),
    ));
}

/// Read bytes as a string: `core::str::from_utf8`, which accepts UTF-8 and
/// nothing else, and keeps the bytes.
#[verifier::external_body]
fn from_utf8(bytes: &[u8]) -> (r: Option<&str>)
    ensures
        match r {
            Some(s) => utf8::valid_utf8(bytes@) && s.spec_bytes() == bytes@,
            None => !utf8::valid_utf8(bytes@),
        },
{
    core::str::from_utf8(bytes).ok()
}

/// Read a request's parameter off the wire, without decoding the request.
///
/// An option that governs how the request is decoded cannot be read from the
/// decoded request. The last of several parameters wins, as it does when a
/// message is merged.
pub fn peek_request_parameter(buf: &[u8]) -> (result: Result<Option<&str>, DecodeError>)
    ensures
        match request_parameter(buf@, None) {
            Ok(None) => result == Ok::<Option<&str>, DecodeError>(None),
            Ok(Some(s)) => result is Ok && result->Ok_0 is Some && result->Ok_0->Some_0@ == s,
            Err(e) => result == Err::<Option<&str>, DecodeError>(e),
        },
{
    let mut cursor: &[u8] = buf;
    let mut found: Option<&str> = None;
    while cursor.len() > 0
        invariant
            request_parameter(buf@, None) == request_parameter(
                cursor@,
                match found {
                    Some(s) => Some(s@),
                    None => None,
                },
            ),
        decreases cursor@.len(),
    {
        let ghost at = cursor@;
        proof {
            encoding::lemma_parse_within(at);
        }
        let tag: Tag = match Tag::decode(&mut cursor) {
            Ok(tag) => tag,
            Err(e) => return Err(e),
        };
        let ghost body = cursor@;
        proof {
            encoding::lemma_parse_within(body);
            encoding::lemma_value_span_within(tag, body, SKIP_DEPTH as nat);
        }
        if tag.field_number() == PARAMETER_FIELD && tag.wire_type() == WireType::LengthDelimited {
            let len_u64: u64 = match decode_varint(&mut cursor) {
                Ok(len) => len,
                Err(e) => return Err(e),
            };
            if len_u64 > usize::MAX as u64 {
                return Err(DecodeError::MessageTooLarge);
            }
            let len: usize = len_u64 as usize;
            if len > cursor.len() {
                return Err(DecodeError::UnexpectedEof);
            }
            let ghost rest = cursor@;
            let (value, after) = cursor.split_at(len);
            assert(value@ =~= rest.take(len as int));
            assert(after@ =~= rest.skip(len as int));
            match from_utf8(value) {
                None => return Err(DecodeError::InvalidUtf8),
                Some(s) => {
                    proof {
                        utf8::encode_utf8_decode_utf8(s@);
                    }
                    found = Some(s);
                },
            }
            cursor = after;
        } else {
            match skip_field(tag, &mut cursor) {
                Ok(()) => {},
                Err(e) => return Err(e),
            }
        }
    }
    Ok(found)
}

/// The decode options for a descriptor set that the caller's own build made,
/// given the value of [`ELEMENT_MEMORY_LIMIT_ENV`] where it is set.
pub fn tooling_decode_options(raw: Option<&str>) -> (result: Result<DecodeOptions, String>)
    ensures
        match env_limit(raw) {
            Ok(limit) => result == Ok::<DecodeOptions, String>(options_for(limit)),
            Err(e) => result is Err && result->Err_0@ == e,
        },
{
    match parse_element_memory_limit(raw) {
        Ok(limit) => {
            let options = DecodeOptions::new();
            Ok(options.with_element_memory_limit(limit))
        },
        Err(e) => Err(e),
    }
}

/// The bound that the environment variable sets, or what is wrong with it.
pub open spec fn env_limit(raw: Option<&str>) -> Result<usize, Seq<char>> {
    match raw {
        None => Ok(TOOLING_ELEMENT_MEMORY_LIMIT),
        Some(raw) => match limit_value(raw@) {
            Some(limit) => Ok(limit),
            None => Err(bad_limit_text(raw@)),
        },
    }
}

/// The default options with this bound on element memory.
pub open spec fn options_for(limit: usize) -> DecodeOptions {
    DecodeOptions::with(
        DecodeOptions::defaults().depth(),
        DecodeOptions::defaults().max_bytes(),
        DecodeOptions::defaults().reader_unbounded(),
        DecodeOptions::defaults().unknown_fields(),
        limit,
    )
}

/// The bound that a request is decoded under: what its own parameter sets, else
/// what the environment sets, else the default.
pub open spec fn request_limit(input: Seq<u8>, env: Option<&str>) -> Result<usize, Seq<char>> {
    match request_parameter(input, None) {
        Err(e) => Err("failed to read the plugin parameter: "@ + e.text()),
        Ok(parameter) => {
            let parameter = match parameter {
                Some(s) => s,
                None => ""@,
            };
            match opt_value(text::pieces(parameter, ","@)) {
                Err(e) => Err(e),
                Ok(Some(limit)) => Ok(limit),
                Ok(None) => env_limit(env),
            }
        },
    }
}

/// The options that a plugin's request is decoded under, given the value of
/// [`ELEMENT_MEMORY_LIMIT_ENV`] where it is set.
pub fn request_decode_options(input: &[u8], env: Option<&str>) -> (result: Result<
    DecodeOptions,
    String,
>)
    ensures
        match request_limit(input@, env) {
            Ok(limit) => result == Ok::<DecodeOptions, String>(options_for(limit)),
            Err(e) => result is Err && result->Err_0@ == e,
        },
{
    let parameter: &str = match peek_request_parameter(input) {
        Ok(Some(parameter)) => parameter,
        Ok(None) => "",
        Err(e) => {
            let mut r: String = "failed to read the plugin parameter: ".to_owned();
            r.append(e.message().as_str());
            return Err(r);
        },
    };
    match element_memory_limit_opt(parameter) {
        Err(e) => Err(e),
        Ok(Some(limit)) => {
            let options = DecodeOptions::new();
            Ok(options.with_element_memory_limit(limit))
        },
        Ok(None) => tooling_decode_options(env),
    }
}

/// Decode a plugin's request, given the value of [`ELEMENT_MEMORY_LIMIT_ENV`]
/// where it is set. A failure names the ways to raise the bound where that is
/// what rejected the request.
pub fn decode_request<M: Message>(input: &[u8], env: Option<&str>) -> (result: Result<M, String>)
    ensures
        match request_limit(input@, env) {
            Err(e) => result is Err && result->Err_0@ == e,
            Ok(limit) => match result {
                Ok(msg) => options_for(limit).decodes_slice::<M>(input@, Ok(msg)),
                Err(text) => exists|e: DecodeError|
                    {
                        &&& #[trigger] options_for(limit).decodes_slice::<M>(input@, Err(e))
                        &&& text@ == failure_text("CodeGeneratorRequest"@, e, limit as nat)
                    },
            },
        },
{
    let options: DecodeOptions = match request_decode_options(input, env) {
        Ok(options) => options,
        Err(e) => return Err(e),
    };
    proof {
        let limit = request_limit(input@, env)->Ok_0;
        DecodeOptions::lemma_with(
            DecodeOptions::defaults().depth(),
            DecodeOptions::defaults().max_bytes(),
            DecodeOptions::defaults().reader_unbounded(),
            DecodeOptions::defaults().unknown_fields(),
            limit,
        );
    }
    let decoded = options.decode_from_slice::<M>(input);
    match decoded {
        Ok(msg) => Ok(msg),
        Err(e) => {
            assert(options.decodes_slice::<M>(input@, Err(e)));
            Err(decode_failure("CodeGeneratorRequest", &e, options.element_memory_limit()))
        },
    }
}

} // verus!
