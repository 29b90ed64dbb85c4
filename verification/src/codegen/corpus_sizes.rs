//! The sizes of a shared corpus context, as it shows itself.
use vstd::prelude::*;

verus! {

/// What a value is written out to.
#[verifier::external_type_specification]
#[verifier::external_body]
pub struct ExFormatter<'a>(core::fmt::Formatter<'a>);

/// A failure to write a value out.
#[verifier::external_type_specification]
#[verifier::external_body]
pub struct ExFormatError(core::fmt::Error);

/// How much a context holds. It goes by the name of the context, under which it is
/// written out in its place: the state of a large corpus is not worth printing.
#[derive(Debug, Clone, Copy, PartialEq, Eq, Structural)]
pub struct SharedCorpusContext {
    /// The files that the state was worked out from.
    pub files: usize,
    /// The oneof variants that are stored without a pointer.
    pub unboxed_oneof_variants: usize,
    /// The message fields that are stored inline.
    pub inlined_message_fields: usize,
    /// The message fields that could be stored inline under the default rules.
    pub acyclic_message_fields: usize,
    /// The comments.
    pub comments: usize,
}

/// Write the sizes out: `core::fmt::Debug::fmt`. Nothing is claimed of what is
/// written, nor of when writing fails.
#[verifier::external_body]
pub(crate) fn show(
    sizes: &SharedCorpusContext,
    f: &mut core::fmt::Formatter<'_>,
) -> core::fmt::Result {
    core::fmt::Debug::fmt(sizes, f)
}

} // verus!
