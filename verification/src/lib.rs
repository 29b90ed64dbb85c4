//! A protobuf runtime and code generator with machine-checked contracts.
//!
//! The runtime half covers the binary wire format: varints and tags
//! ([`encoding`]), the two-pass encoder and its size cache ([`two_pass`],
//! [`size_cache`], [`pool`]), the limits and loops of decoding ([`context`],
//! [`merge`], [`options`]), and the traits that tie them together
//! ([`message`]).
//!
//! The generator half ([`codegen`]) covers what is decided around the code of
//! single messages: options and their checks, the grouping of files into
//! packages, the files and modules that a package goes to, and warnings.
pub mod buf;
pub mod codegen;
pub mod context;
pub mod encoding;
pub mod error;
pub mod merge;
pub mod message;
pub mod options;
pub mod pool;
pub mod runs;
pub mod size_cache;
pub mod two_pass;
pub mod wire_laws;

pub use crate::buf::EncodeSink;
pub use crate::context::{
    DecodeContext, DEFAULT_ELEMENT_MEMORY_LIMIT, DEFAULT_UNKNOWN_FIELD_LIMIT, RECURSION_LIMIT,
};
pub use crate::error::{DecodeError, EncodeError};
pub use crate::merge::FieldMerge;
pub use crate::message::{LazyMessageView, Message, MessageName, MessageView, ViewEncode};
pub use crate::options::DecodeOptions;
pub use crate::pool::SizeCachePool;
pub use crate::size_cache::SizeCache;
pub use crate::two_pass::{
    checked_encode_size, debug_assert_two_pass, saturate_size, TwoPassEncode, MAX_MESSAGE_BYTES,
};
