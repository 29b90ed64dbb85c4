//! The code generator's decisions.
//!
//! [`generate::plan_generation`] decides what is generated and what to warn of;
//! [`generate::generate_with_diagnostics`] turns the code of single elements into
//! files. The other modules hold what these two rest on.
pub mod config;
pub mod content;
pub mod content_laws;
pub mod corpus;
pub mod corpus_sizes;
pub mod custom_elements;
pub mod descriptor;
pub mod descriptor_set;
pub mod element_laws;
pub mod element_memory;
pub mod errors;
pub mod excluded_refs;
pub mod exclusion;
pub mod extern_paths;
pub mod files;
pub mod gates;
pub mod generate;
pub mod generation_laws;
pub mod grouping;
pub mod idents;
pub mod memory_laws;
pub mod module_tree;
pub mod names;
pub mod package;
pub mod package_laws;
pub mod packages;
pub mod plan;
pub mod reference_laws;
pub mod repr;
pub mod root_names;
pub mod shared_root;
pub mod stitch;
pub mod stitch_laws;
pub mod syntax;
pub mod text;
pub mod text_laws;
pub mod tree_lines;
pub mod trees;
pub mod validate;
pub mod validation_laws;
pub mod walks;
pub mod warning;
pub mod words_laws;

pub use crate::codegen::config::{
    CodeGenConfig, EnumTypeOverride, FeatureGateNames, FeatureOverride, ReflectMode,
};
pub use crate::codegen::corpus::SharedCorpusContext;
pub use crate::codegen::descriptor_set::encode_descriptor_set;
pub use crate::codegen::element_memory::{
    decode_failure, decode_request, element_memory_limit_opt, peek_request_parameter,
    tooling_decode_options, ELEMENT_MEMORY_LIMIT_ENV, ELEMENT_MEMORY_LIMIT_OPT,
    TOOLING_ELEMENT_MEMORY_LIMIT,
};
pub use crate::codegen::errors::CodeGenError;
pub use crate::codegen::files::{apply_companions, GeneratedFile, GeneratedFileKind};
pub use crate::codegen::generate::{generate, generate_with_diagnostics};
pub use crate::codegen::module_tree::{generate_module_tree, IncludeMode, ALLOW_LINTS};
pub use crate::codegen::packages::{
    normalize_exclude_package, package_is_excluded, package_to_filename, package_to_mod_filename,
    proto_path_to_stem,
};
pub use crate::codegen::repr::{BytesRepr, MapRepr, PointerRepr, RepeatedRepr, StringRepr};
pub use crate::codegen::shared_root::{shared_descriptor_root_module, FdsEmbedding};
pub use crate::codegen::stitch::allow_lints_attr;
pub use crate::codegen::warning::{AliasConflict, CodeGenWarning};
