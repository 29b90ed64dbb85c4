//! The module at the root of the tree that embeds the descriptors once for all
//! packages.
use vstd::prelude::*;
use vstd::string::*;
use crate::codegen::config;
use crate::codegen::config::{alphanumeric, upper};
use crate::codegen::descriptor;
use crate::codegen::descriptor::{str_or, FileDescriptorProto};
use crate::codegen::errors::CodeGenError;
use crate::codegen::errors::ErrorText;
use crate::codegen::extern_paths;
use crate::codegen::extern_paths::is_listed;
use crate::codegen::gates;
use crate::codegen::gates::cfg_block;
use crate::codegen::module_tree::IncludeMode;
use crate::codegen::syntax;
use crate::codegen::syntax::{lay_out, string_literal};
use crate::codegen::text;
use crate::codegen::text::{cat, quoted, same, split, starts_with, strip_prefix, to_chars};
use crate::codegen::validate;
use crate::codegen::validate::contains_segment;

verus! {

/// The name of the module at the root of the tree.
pub const SHARED_ROOT_MOD: &'static str = "__buffa_fds";

/// A plain ASCII identifier: a letter or an underscore, and then letters, digits
/// and underscores.
pub open spec fn is_plain_ident(s: Seq<char>) -> bool {
    &&& s.len() > 0
    &&& config::is_upper(s[0]) || config::is_lower(s[0]) || s[0] == '_'
    &&& forall|i: int| 0 <= i < s.len() ==> config::is_alphanumeric(#[trigger] s[i]) || s[i] == '_'
}

/// A segment that cannot stand at place `i` of a path.
pub open spec fn is_misplaced_keyword(segment: Seq<char>, i: int) -> bool {
    segment == "_"@ || segment == "self"@ || segment == "Self"@ || segment == "super"@ || (i > 0
        && segment == "crate"@)
}

/// What is wrong with the segment at place `i` of a path, or with a later one.
pub open spec fn segments_fault(segments: Seq<Seq<char>>, i: int, path: Seq<char>) -> Option<
    Seq<char>,
>
    decreases segments.len() - i,
{
    if i < 0 || i >= segments.len() {
        None
    } else if !is_plain_ident(segments[i]) {
        Some(
            "shared_descriptor_pool_root segment "@ + text::debug_text(segments[i])
                + " is not a plain identifier (no generic or parenthesized arguments, ASCII only) — the value is spliced verbatim into generated code: "@
                + text::debug_text(path),
        )
    } else if is_misplaced_keyword(segments[i], i) {
        Some(
            "shared_descriptor_pool_root segment "@ + text::debug_text(segments[i])
                + " is a path keyword and cannot be spliced into generated code: "@
                + text::debug_text(path),
        )
    } else {
        segments_fault(segments, i + 1, path)
    }
}

/// The path behind its leading `::`.
pub open spec fn root_rest(path: Seq<char>) -> Seq<char> {
    if text::begins(path, "::"@) {
        path.skip(2)
    } else {
        path
    }
}

/// What is wrong with the path of a shared root: it has to be absolute or
/// relative to the crate, and made of plain identifiers.
pub open spec fn root_path_fault(path: Seq<char>) -> Option<Seq<char>> {
    let is_absolute = text::begins(path, "::"@);
    let is_crate_relative = path == "crate"@ || text::begins(path, "crate::"@);
    if !is_absolute && !is_crate_relative {
        Some(
            "shared_descriptor_pool_root must be an absolute (`::`-prefixed) or crate-relative (`crate`-prefixed) path — the same value is spliced verbatim at every package depth, so a plain relative path would only be correct from one depth: "@
                + text::debug_text(path),
        )
    } else if root_rest(path).len() == 0 {
        Some(
            "shared_descriptor_pool_root has no path after the `::` prefix: "@ + text::debug_text(
                path,
            ),
        )
    } else {
        segments_fault(text::pieces(root_rest(path), "::"@), 0, path)
    }
}

/// Whether a string is a plain ASCII identifier.
fn plain_ident(s: &str) -> (r: bool)
    ensures
        r == is_plain_ident(s@),
{
    let chars: Vec<char> = to_chars(s);
    if chars.len() == 0 {
        return false;
    }
    let first: char = chars[0];
    let mut ok: bool = upper(first) || ('a' <= first && first <= 'z') || first == '_';
    let mut i: usize = 0;
    while i < chars.len()
        invariant
            i <= chars@.len(),
            chars@ == s@,
            chars@.len() > 0,
            ok == ((config::is_upper(s@[0]) || config::is_lower(s@[0]) || s@[0] == '_') && forall|
                j: int,
            |
                0 <= j < i ==> config::is_alphanumeric(#[trigger] s@[j]) || s@[j] == '_'),
        decreases chars@.len() - i,
    {
        if !(alphanumeric(chars[i]) || chars[i] == '_') {
            ok = false;
        }
        i = i + 1;
    }
    ok
}

/// Check the path of a shared root.
pub fn validate_shared_root_path(path: &str) -> (result: Result<(), CodeGenError>)
    ensures
        validate::reports(
            result,
            match root_path_fault(path@) {
                Some(e) => Some(ErrorText::Other(e)),
                None => None,
            },
        ),
{
    proof {
        reveal_strlit("::");
    }
    let is_absolute: bool = starts_with(path, "::");
    let is_crate_relative: bool = same(path, "crate") || starts_with(path, "crate::");
    if !is_absolute && !is_crate_relative {
        return Err(
            CodeGenError::Other(
                cat(
                    "shared_descriptor_pool_root must be an absolute (`::`-prefixed) or crate-relative (`crate`-prefixed) path — the same value is spliced verbatim at every package depth, so a plain relative path would only be correct from one depth: ",
                    quoted(path).as_str(),
                ),
            ),
        );
    }
    let rest: &str = match strip_prefix(path, "::") {
        Some(rest) => rest,
        None => path,
    };
    if rest.is_empty() {
        return Err(
            CodeGenError::Other(
                cat(
                    "shared_descriptor_pool_root has no path after the `::` prefix: ",
                    quoted(path).as_str(),
                ),
            ),
        );
    }
    let segments: Vec<&str> = split(rest, "::");
    let ghost all = text::pieces(rest@, "::"@);
    let mut i: usize = 0;
    while i < segments.len()
        invariant
            i <= segments@.len(),
            all == text::views(segments@),
            root_path_fault(path@) == segments_fault(all, i as int, path@),
        decreases segments@.len() - i,
    {
        let segment: &str = segments[i];
        assert(all[i as int] == segment@);
        if !plain_ident(segment) {
            let mut r: String = "shared_descriptor_pool_root segment ".to_owned();
            r.append(quoted(segment).as_str());
            r.append(
                " is not a plain identifier (no generic or parenthesized arguments, ASCII only) — the value is spliced verbatim into generated code: ",
            );
            r.append(quoted(path).as_str());
            return Err(CodeGenError::Other(r));
        }
        if same(segment, "_") || same(segment, "self") || same(segment, "Self") || same(
            segment,
            "super",
        ) || (i > 0 && same(segment, "crate")) {
            let mut r: String = "shared_descriptor_pool_root segment ".to_owned();
            r.append(quoted(segment).as_str());
            r.append(" is a path keyword and cannot be spliced into generated code: ");
            r.append(quoted(path).as_str());
            return Err(CodeGenError::Other(r));
        }
        i = i + 1;
    }
    Ok(())
}

/// The error of an element that would take the shared root's name.
pub open spec fn taken(location: Seq<char>) -> ErrorText {
    validate::reserved(SHARED_ROOT_MOD@, location)
}

/// What is wrong with the root package's messages, from the one at `i` on.
pub open spec fn root_messages_fault(file: FileDescriptorProto, i: int) -> Option<ErrorText>
    decreases file.message_type@.len() - i,
{
    if i < 0 || i >= file.message_type@.len() {
        None
    } else if file.message_type@[i].module_name@ == SHARED_ROOT_MOD@ {
        Some(
            taken(
                "message '"@ + descriptor::text_or(file.message_type@[i].name, ""@)
                    + "' (its module `"@ + SHARED_ROOT_MOD@
                    + "` is reserved by shared_descriptor_pool)"@,
            ),
        )
    } else {
        root_messages_fault(file, i + 1)
    }
}

/// What is wrong with the root package's enums, from the one at `i` on.
pub open spec fn root_enums_fault(file: FileDescriptorProto, i: int) -> Option<ErrorText>
    decreases file.enum_type@.len() - i,
{
    if i < 0 || i >= file.enum_type@.len() {
        None
    } else if descriptor::text_or(file.enum_type@[i].name, ""@) == SHARED_ROOT_MOD@ {
        Some(taken("enum '"@ + SHARED_ROOT_MOD@ + "' (reserved by shared_descriptor_pool)"@))
    } else {
        root_enums_fault(file, i + 1)
    }
}

/// What in a file would take the shared root's name.
pub open spec fn root_name_fault(file: FileDescriptorProto) -> Option<ErrorText> {
    let package = file.package_text();
    if validate::has_segment(package, SHARED_ROOT_MOD@) {
        Some(taken("package '"@ + package + "' (reserved by shared_descriptor_pool)"@))
    } else if package.len() == 0 {
        match root_messages_fault(file, 0) {
            Some(e) => Some(e),
            None => root_enums_fault(file, 0),
        }
    } else {
        None
    }
}

/// What in the files to generate, from the one at `i` on, would take the shared
/// root's name.
pub open spec fn root_names_fault(
    files: Seq<FileDescriptorProto>,
    files_to_generate: Seq<String>,
    i: int,
) -> Option<ErrorText>
    decreases files.len() - i,
{
    if i < 0 || i >= files.len() {
        None
    } else {
        let here = if extern_paths::listed(
            files_to_generate,
            descriptor::text_or(files[i].name, ""@),
        ) {
            root_name_fault(files[i])
        } else {
            None
        };
        match here {
            Some(e) => Some(e),
            None => root_names_fault(files, files_to_generate, i + 1),
        }
    }
}

/// The error of an element that would take the shared root's name.
fn taken_error(location: String) -> (e: CodeGenError)
    ensures
        e@ == taken(location@),
{
    CodeGenError::ReservedModuleName { name: SHARED_ROOT_MOD.to_owned(), location }
}

/// Check that nothing in a file takes the shared root's name.
fn check_root_name(file: &FileDescriptorProto) -> (result: Result<(), CodeGenError>)
    ensures
        validate::reports(result, root_name_fault(*file)),
{
    let package: &str = file.package_name();
    if contains_segment(package, SHARED_ROOT_MOD) {
        let mut location: String = "package '".to_owned();
        location.append(package);
        location.append("' (reserved by shared_descriptor_pool)");
        return Err(taken_error(location));
    }
    if !package.is_empty() {
        return Ok(());
    }
    let mut i: usize = 0;
    while i < file.message_type.len()
        invariant
            i <= file.message_type@.len(),
            root_name_fault(*file) == match root_messages_fault(*file, i as int) {
                Some(e) => Some(e),
                None => root_enums_fault(*file, 0),
            },
        decreases file.message_type@.len() - i,
    {
        if same(file.message_type[i].module_name.as_str(), SHARED_ROOT_MOD) {
            let mut location: String = "message '".to_owned();
            location.append(str_or(&file.message_type[i].name, ""));
            location.append("' (its module `");
            location.append(SHARED_ROOT_MOD);
            location.append("` is reserved by shared_descriptor_pool)");
            return Err(taken_error(location));
        }
        i = i + 1;
    }
    let mut j: usize = 0;
    while j < file.enum_type.len()
        invariant
            j <= file.enum_type@.len(),
            root_name_fault(*file) == root_enums_fault(*file, j as int),
        decreases file.enum_type@.len() - j,
    {
        if same(str_or(&file.enum_type[j].name, ""), SHARED_ROOT_MOD) {
            let mut location: String = "enum '".to_owned();
            location.append(SHARED_ROOT_MOD);
            location.append("' (reserved by shared_descriptor_pool)");
            return Err(taken_error(location));
        }
        j = j + 1;
    }
    Ok(())
}

/// Check that nothing in the files to generate takes the shared root's name. A
/// file that is only imported makes no module, and is left out.
pub fn validate_shared_root_name(
    files: &Vec<FileDescriptorProto>,
    files_to_generate: &Vec<String>,
) -> (result: Result<(), CodeGenError>)
    ensures
        validate::reports(result, root_names_fault(files@, files_to_generate@, 0)),
{
    let mut i: usize = 0;
    while i < files.len()
        invariant
            i <= files@.len(),
            root_names_fault(files@, files_to_generate@, 0) == root_names_fault(
                files@,
                files_to_generate@,
                i as int,
            ),
        decreases files@.len() - i,
    {
        if is_listed(files_to_generate, str_or(&files[i].name, "")) {
            match check_root_name(&files[i]) {
                Ok(()) => {},
                Err(e) => return Err(e),
            }
        }
        i = i + 1;
    }
    Ok(())
}

/// How the descriptors are embedded.
#[derive(Debug, Clone, Copy)]
#[non_exhaustive]
pub enum FdsEmbedding<'a> {
    /// As a literal.
    Inline,
    /// From a file beside the generated code.
    Sidecar {
        /// The file's name.
        file_name: &'a str,
        /// How the file is reached.
        mode: IncludeMode<'a>,
    },
}

/// The expression for the path that embedded descriptors are read from, or
/// `None` where they are a literal.
pub open spec fn sidecar_text(embedding: FdsEmbedding<'_>) -> Option<Seq<char>> {
    match embedding {
        FdsEmbedding::Inline => None,
        FdsEmbedding::Sidecar { file_name, mode: IncludeMode::Relative(prefix) } => Some(
            syntax::literal(prefix@ + file_name@),
        ),
        FdsEmbedding::Sidecar { file_name, mode: IncludeMode::OutDir } => Some(
            "concat!(env!(\"OUT_DIR\"), "@ + syntax::literal("/"@ + file_name@) + ")"@,
        ),
    }
}

/// The expression for the path that embedded descriptors are read from.
pub fn sidecar_path(embedding: FdsEmbedding<'_>) -> (r: Option<String>)
    ensures
        match r {
            Some(s) => sidecar_text(embedding) == Some(s@),
            None => sidecar_text(embedding) is None,
        },
{
    match embedding {
        FdsEmbedding::Inline => None,
        FdsEmbedding::Sidecar { file_name, mode: IncludeMode::Relative(prefix) } => Some(
            string_literal(cat(prefix, file_name).as_str()),
        ),
        FdsEmbedding::Sidecar { file_name, mode: IncludeMode::OutDir } => {
            let mut r: String = "concat!(env!(\"OUT_DIR\"), ".to_owned();
            r.append(string_literal(cat("/", file_name).as_str()).as_str());
            r.append(")");
            Some(r)
        },
    }
}

/// Lay out the shared root module, behind the crate feature for reflection where
/// there is one. The result is an error only if the module does not parse.
pub fn shared_descriptor_root_module(module: &str, gate: Option<&str>) -> (result: Result<
    String,
    CodeGenError,
>)
    ensures
        match syntax::laid_out(gates::gated(module@, config::opt_text(gate))) {
            Ok(file) => result is Ok && result->Ok_0@ == file,
            Err(e) => result is Err && result->Err_0@ == ErrorText::InvalidSyntax(e),
        },
{
    match lay_out(cfg_block(module, gate).as_str()) {
        Ok(file) => Ok(file),
        Err(e) => Err(CodeGenError::InvalidSyntax(e)),
    }
}

} // verus!
