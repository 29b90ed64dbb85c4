use buffa::codegen::element_memory::{
    decode_failure, decode_request, describe_byte_budget, element_memory_limit_opt,
    parse_element_memory_limit, peek_request_parameter, request_decode_options,
    tooling_decode_options, ELEMENT_MEMORY_LIMIT_ENV, TOOLING_ELEMENT_MEMORY_LIMIT,
};
use buffa::encoding::{encode_varint, skip_field, Tag, WireType};
use buffa::{
    DecodeContext, DecodeError, EncodeSink, FieldMerge, Message, SizeCache, TwoPassEncode,
    DEFAULT_ELEMENT_MEMORY_LIMIT,
};

fn encode_string(s: &str, wire: &mut Vec<u8>) {
    encode_varint(s.len() as u64, wire);
    wire.extend_from_slice(s.as_bytes());
}

#[test]
fn unset_and_blank_use_the_plugin_default() {
    for raw in [None, Some(""), Some("   ")] {
        assert_eq!(
            parse_element_memory_limit(raw),
            Ok(TOOLING_ELEMENT_MEMORY_LIMIT),
            "{raw:?} should fall back to the plugin default"
        );
    }
}

#[test]
fn a_byte_count_is_taken_literally() {
    assert_eq!(parse_element_memory_limit(Some("1048576")), Ok(1024 * 1024));
    assert_eq!(parse_element_memory_limit(Some("  4096  ")), Ok(4096));
    assert_eq!(parse_element_memory_limit(Some("0")), Ok(0));
}

#[test]
fn unlimited_and_max_remove_the_bound() {
    assert_eq!(
        parse_element_memory_limit(Some("unlimited")),
        Ok(usize::MAX)
    );
    assert_eq!(parse_element_memory_limit(Some("max")), Ok(usize::MAX));
}

#[test]
fn a_bad_value_names_the_variable_and_echoes_the_input() {
    let err = parse_element_memory_limit(Some("banana")).unwrap_err();
    assert!(err.contains(ELEMENT_MEMORY_LIMIT_ENV), "{err}");
    assert!(err.contains("banana"), "{err}");

    assert!(parse_element_memory_limit(Some("-1")).is_err());
    assert!(parse_element_memory_limit(Some("1.5")).is_err());
    assert!(parse_element_memory_limit(Some("64MiB")).is_err());
}

#[test]
fn the_plugin_default_is_large_and_finite() {
    assert!(TOOLING_ELEMENT_MEMORY_LIMIT >= 1024 * 1024 * 1024);
    assert!(TOOLING_ELEMENT_MEMORY_LIMIT < usize::MAX);
    assert!(TOOLING_ELEMENT_MEMORY_LIMIT > DEFAULT_ELEMENT_MEMORY_LIMIT * 8);
}

#[test]
fn the_hint_names_the_override_and_the_effective_budget() {
    let msg = decode_failure(
        "CodeGeneratorRequest",
        &DecodeError::ElementMemoryLimitExceeded,
        2 * 1024 * 1024,
    );
    assert!(msg.contains("CodeGeneratorRequest"), "{msg}");
    assert!(msg.contains(ELEMENT_MEMORY_LIMIT_ENV), "{msg}");
    assert!(msg.contains("unlimited"), "{msg}");
    assert!(msg.contains("2 MiB"), "{msg}");
    assert!(
        !msg.contains(&format!("{TOOLING_ELEMENT_MEMORY_LIMIT}")),
        "must not quote the default when an override is in force: {msg}"
    );
}

#[test]
fn a_sub_mib_budget_is_reported_in_bytes_not_rounded_to_zero() {
    let msg = decode_failure(
        "CodeGeneratorRequest",
        &DecodeError::ElementMemoryLimitExceeded,
        512 * 1024,
    );
    assert!(msg.contains("524288-byte"), "{msg}");
    assert!(!msg.contains("0 MiB"), "{msg}");
}

#[test]
fn other_decode_errors_get_no_element_memory_hint() {
    let msg = decode_failure(
        "CodeGeneratorRequest",
        &DecodeError::RecursionLimitExceeded,
        TOOLING_ELEMENT_MEMORY_LIMIT,
    );
    assert!(
        msg.starts_with("failed to decode CodeGeneratorRequest:"),
        "{msg}"
    );
    assert!(
        !msg.contains(ELEMENT_MEMORY_LIMIT_ENV),
        "an unrelated error must not advertise the element-memory knob: {msg}"
    );
}

#[test]
fn tooling_decode_options_carries_the_default_when_unset() {
    let opts = tooling_decode_options(None).expect("no override set");
    assert_eq!(opts.element_memory_limit(), TOOLING_ELEMENT_MEMORY_LIMIT);
}

#[test]
fn tooling_decode_options_take_the_override() {
    let opts = tooling_decode_options(Some("4096")).expect("a byte count");
    assert_eq!(opts.element_memory_limit(), 4096);
    assert!(tooling_decode_options(Some("banana")).is_err());
}

/// Encode a minimal `CodeGeneratorRequest` carrying `parameter` (field 2),
/// preceded and followed by other fields so the scan has to skip both ways.
fn request_with_parameter(param: &str) -> Vec<u8> {
    let mut wire = Vec::new();
    Tag::new(1, WireType::LengthDelimited).encode(&mut wire);
    encode_string("a.proto", &mut wire);
    Tag::new(2, WireType::LengthDelimited).encode(&mut wire);
    encode_string(param, &mut wire);
    Tag::new(15, WireType::LengthDelimited).encode(&mut wire);
    let inner = {
        let mut b = Vec::new();
        Tag::new(1, WireType::LengthDelimited).encode(&mut b);
        encode_string("a.proto", &mut b);
        b
    };
    encode_varint(inner.len() as u64, &mut wire);
    wire.extend_from_slice(&inner);
    wire
}

#[test]
fn the_parameter_is_readable_without_decoding_the_request() {
    let wire = request_with_parameter("views=true,element_memory_limit=4096");
    assert_eq!(
        peek_request_parameter(&wire).unwrap(),
        Some("views=true,element_memory_limit=4096")
    );
}

#[test]
fn a_request_without_a_parameter_peeks_to_none() {
    let mut wire = Vec::new();
    Tag::new(1, WireType::LengthDelimited).encode(&mut wire);
    encode_string("a.proto", &mut wire);
    assert_eq!(peek_request_parameter(&wire).unwrap(), None);
    assert_eq!(peek_request_parameter(&[]).unwrap(), None);
}

#[test]
fn a_truncated_request_is_an_error_not_a_panic() {
    let wire = request_with_parameter("views=true");
    for cut in 1..wire.len() {
        let _ = peek_request_parameter(&wire[..cut]);
    }
    assert_eq!(
        peek_request_parameter(&wire[..wire.len() - 1]),
        Err(DecodeError::UnexpectedEof)
    );
}

#[test]
fn the_plugin_option_is_found_in_a_parameter_string() {
    assert_eq!(
        element_memory_limit_opt("views=true,element_memory_limit=4096,json=true").unwrap(),
        Some(4096)
    );
    assert_eq!(
        element_memory_limit_opt("element_memory_limit=unlimited").unwrap(),
        Some(usize::MAX)
    );
    assert_eq!(element_memory_limit_opt("views=true").unwrap(), None);
    assert_eq!(element_memory_limit_opt("").unwrap(), None);
    assert_eq!(
        element_memory_limit_opt("not_element_memory_limit=4096").unwrap(),
        None
    );
    assert!(element_memory_limit_opt("element_memory_limit=banana").is_err());
}

#[test]
fn the_last_parameter_wins() {
    let mut wire = request_with_parameter("a=1");
    Tag::new(2, WireType::LengthDelimited).encode(&mut wire);
    encode_string("ä=2", &mut wire);
    assert_eq!(peek_request_parameter(&wire).unwrap(), Some("ä=2"));
}

#[test]
fn a_parameter_that_is_no_text_is_refused() {
    let mut wire = Vec::new();
    Tag::new(2, WireType::LengthDelimited).encode(&mut wire);
    encode_varint(2, &mut wire);
    wire.extend_from_slice(&[0xC3, 0x28]);
    assert_eq!(peek_request_parameter(&wire), Err(DecodeError::InvalidUtf8));
}

#[test]
fn a_budget_is_described_in_its_unit() {
    assert_eq!(describe_byte_budget(3 * 1024 * 1024), "3 MiB");
    assert_eq!(describe_byte_budget(1000), "1000-byte");
}

#[test]
fn a_request_is_decoded_under_its_own_limit_first() {
    let wire = request_with_parameter("element_memory_limit=4096");
    let limit = |env| request_decode_options(&wire, env).unwrap().element_memory_limit();
    assert_eq!(limit(None), 4096);
    assert_eq!(limit(Some("17")), 4096);
    let plain = request_with_parameter("views=true");
    assert_eq!(
        request_decode_options(&plain, Some("17")).unwrap().element_memory_limit(),
        17
    );
    assert_eq!(
        request_decode_options(&plain, None).unwrap().element_memory_limit(),
        TOOLING_ELEMENT_MEMORY_LIMIT
    );
    assert_eq!(
        request_decode_options(&wire[..1], None).unwrap_err(),
        format!("failed to read the plugin parameter: {}", DecodeError::UnexpectedEof.message())
    );
}

// A request that charges each of its files against the element memory.
#[derive(Debug, Default)]
struct Request {
    files: usize,
}

impl TwoPassEncode for Request {
    fn compute_size(&self, _cache: &mut SizeCache) -> u32 {
        0
    }

    fn write_to<S: EncodeSink>(&self, _cache: &mut SizeCache, _buf: &mut S) {}
}

impl FieldMerge for Request {
    fn merge_field(
        &mut self,
        tag: Tag,
        buf: &mut &[u8],
        ctx: &mut DecodeContext,
    ) -> Result<(), DecodeError> {
        if tag.field_number() == 15 {
            ctx.register_element_memory(256)?;
            self.files += 1;
        }
        skip_field(tag, buf)
    }

    fn clear(&mut self) {
        *self = Self::default();
    }
}

impl Message for Request {}

#[test]
fn a_request_that_needs_more_than_its_limit_says_so() {
    let wire = request_with_parameter("element_memory_limit=255");
    let err = decode_request::<Request>(&wire, None).unwrap_err();
    assert_eq!(
        err,
        decode_failure("CodeGeneratorRequest", &DecodeError::ElementMemoryLimitExceeded, 255)
    );
    let wire = request_with_parameter("element_memory_limit=256");
    assert_eq!(decode_request::<Request>(&wire, None).unwrap().files, 1);
}
