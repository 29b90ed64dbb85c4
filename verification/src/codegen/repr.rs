//! The Rust types that proto types map to.
//!
//! Types are handled as source text. A custom type is given by a path, or by a
//! template with a `*` where the type that it wraps goes.
use vstd::prelude::*;
use vstd::string::*;
use crate::codegen::errors::CodeGenError;
use crate::codegen::errors::ErrorText;
use crate::codegen::syntax;
use crate::codegen::syntax::{parse_type, PathArgs, TypeSyntax};
use crate::codegen::text;
use crate::codegen::text::{has_char, replace_char};

verus! {

/// A custom type's source, or the error of a path that is no type.
pub open spec fn custom_type(
    syntax: Option<(Seq<char>, Option<Seq<PathArgs>>)>,
    path: Seq<char>,
) -> Result<Seq<char>, ErrorText> {
    match syntax {
        Some((tokens, _)) => Ok(tokens),
        None => Err(ErrorText::InvalidTypePath(path)),
    }
}

/// A result of type text and error, as text.
pub open spec fn outcome(result: Result<String, CodeGenError>) -> Result<Seq<char>, ErrorText> {
    match result {
        Ok(s) => Ok(s@),
        Err(e) => Err(e@),
    }
}

/// Take a custom type from what its path was read as.
pub fn custom_type_from(syntax: Option<TypeSyntax>, path: &str) -> (result: Result<
    String,
    CodeGenError,
>)
    ensures
        outcome(result) == custom_type(
            match syntax {
                Some(s) => Some(s@),
                None => None,
            },
            path@,
        ),
{
    match syntax {
        Some(s) => Ok(s.tokens),
        None => Err(CodeGenError::InvalidTypePath(path.to_owned())),
    }
}

/// Read a custom type's path.
pub fn parse_custom_type_path(path: &str) -> (result: Result<String, CodeGenError>)
    ensures
        outcome(result) == custom_type(syntax::type_syntax(path@), path@),
{
    custom_type_from(parse_type(path), path)
}

/// A custom map's source: a plain path, to which the key and value types are
/// added.
pub open spec fn custom_map(
    syntax: Option<(Seq<char>, Option<Seq<PathArgs>>)>,
    path: Seq<char>,
) -> Result<Seq<char>, ErrorText> {
    match syntax {
        None => Err(
            ErrorText::InvalidTypePath(
                path + " (map custom path takes no `<K, V>` parameters and no `*` placeholder)"@,
            ),
        ),
        Some((_, None)) => Err(
            ErrorText::InvalidTypePath(path + " (map custom path must be a plain type path)"@),
        ),
        Some((tokens, Some(segments))) => if exists|i: int|
            0 <= i < segments.len() && #[trigger] segments[i] != PathArgs::Bare {
            Err(
                ErrorText::InvalidTypePath(
                    path
                        + " (map custom path must not include `<K, V>`; the key and value are appended automatically)"@,
                ),
            )
        } else {
            Ok(tokens)
        },
    }
}

/// Whether a path has arguments anywhere.
fn any_args(segments: &Vec<PathArgs>) -> (r: bool)
    ensures
        r == exists|i: int|
            0 <= i < segments@.len() && #[trigger] segments@[i] != PathArgs::Bare,
{
    let mut i: usize = 0;
    while i < segments.len()
        invariant
            i <= segments@.len(),
            forall|j: int| 0 <= j < i ==> #[trigger] segments@[j] == PathArgs::Bare,
        decreases segments@.len() - i,
    {
        if segments[i] != PathArgs::Bare {
            assert(segments@[i as int] != PathArgs::Bare);
            return true;
        }
        i = i + 1;
    }
    false
}

/// Take a custom map from what its path was read as.
pub fn custom_map_from(syntax: Option<TypeSyntax>, path: &str) -> (result: Result<
    String,
    CodeGenError,
>)
    ensures
        outcome(result) == custom_map(
            match syntax {
                Some(s) => Some(s@),
                None => None,
            },
            path@,
        ),
{
    let syntax: TypeSyntax = match syntax {
        Some(s) => s,
        None => {
            return Err(
                CodeGenError::InvalidTypePath(
                    text::cat(
                        path,
                        " (map custom path takes no `<K, V>` parameters and no `*` placeholder)",
                    ),
                ),
            )
        },
    };
    let segments: &Vec<PathArgs> = match &syntax.segments {
        Some(segments) => segments,
        None => {
            return Err(
                CodeGenError::InvalidTypePath(
                    text::cat(path, " (map custom path must be a plain type path)"),
                ),
            )
        },
    };
    if any_args(segments) {
        return Err(
            CodeGenError::InvalidTypePath(
                text::cat(
                    path,
                    " (map custom path must not include `<K, V>`; the key and value are appended automatically)",
                ),
            ),
        );
    }
    Ok(syntax.tokens)
}

/// Read a custom map's path.
pub fn parse_custom_map_path(path: &str) -> (result: Result<String, CodeGenError>)
    ensures
        outcome(result) == custom_map(syntax::type_syntax(path@), path@),
{
    custom_map_from(parse_type(path), path)
}

/// What a pointer template stands for: every `*` is the type that it wraps.
pub open spec fn wildcard_type(
    syntax: Option<(Seq<char>, Option<Seq<PathArgs>>)>,
    template: Seq<char>,
    inner: Seq<char>,
) -> Result<Seq<char>, ErrorText> {
    if !template.contains('*') {
        Err(ErrorText::MissingWildcard(template))
    } else {
        match syntax {
            Some((tokens, _)) => Ok(tokens),
            None => Err(
                ErrorText::InvalidTypePath(
                    template + " (as "@ + text::replaced(template, '*', inner) + ")"@,
                ),
            ),
        }
    }
}

/// Take a pointer type from what its template, with the wrapped type put in, was
/// read as.
pub fn wildcard_type_from(
    syntax: Option<TypeSyntax>,
    template: &str,
    inner: &str,
) -> (result: Result<String, CodeGenError>)
    ensures
        outcome(result) == wildcard_type(
            match syntax {
                Some(s) => Some(s@),
                None => None,
            },
            template@,
            inner@,
        ),
{
    if !has_char(template, '*') {
        return Err(CodeGenError::MissingWildcard(template.to_owned()));
    }
    match syntax {
        Some(s) => Ok(s.tokens),
        None => {
            let mut r: String = template.to_owned();
            r.append(" (as ");
            r.append(replace_char(template, '*', inner).as_str());
            r.append(")");
            Err(CodeGenError::InvalidTypePath(r))
        },
    }
}

/// Put a type into a pointer template.
pub fn parse_wildcard_type_path(template: &str, inner: &str) -> (result: Result<
    String,
    CodeGenError,
>)
    ensures
        outcome(result) == wildcard_type(
            syntax::type_syntax(text::replaced(template@, '*', inner@)),
            template@,
            inner@,
        ),
{
    let substituted: String = replace_char(template, '*', inner);
    wildcard_type_from(parse_type(substituted.as_str()), template, inner)
}

/// What a collection template stands for: every `*` is the element type.
pub open spec fn list_type(
    syntax: Option<(Seq<char>, Option<Seq<PathArgs>>)>,
    template: Seq<char>,
) -> Result<Seq<char>, ErrorText> {
    if !template.contains('*') {
        Err(ErrorText::MissingListPlaceholder(template))
    } else {
        custom_type(syntax, template)
    }
}

/// Take a collection type from what its template, with the element type put in,
/// was read as.
pub fn list_type_from(syntax: Option<TypeSyntax>, template: &str) -> (result: Result<
    String,
    CodeGenError,
>)
    ensures
        outcome(result) == list_type(
            match syntax {
                Some(s) => Some(s@),
                None => None,
            },
            template@,
        ),
{
    if !has_char(template, '*') {
        return Err(CodeGenError::MissingListPlaceholder(template.to_owned()));
    }
    custom_type_from(syntax, template)
}

/// Put an element type into a collection template.
pub fn parse_custom_list_path(template: &str, elem: &str) -> (result: Result<String, CodeGenError>)
    ensures
        outcome(result) == list_type(
            syntax::type_syntax(text::replaced(template@, '*', elem@)),
            template@,
        ),
{
    let substituted: String = replace_char(template, '*', elem);
    list_type_from(parse_type(substituted.as_str()), template)
}

/// The Rust type of a proto `string`.
#[derive(Debug, Clone, PartialEq, Eq, Default)]
#[non_exhaustive]
pub enum StringRepr {
    /// `String`.
    #[default]
    String,
    /// The type with this path.
    Custom(String),
}

/// The Rust type of a proto `bytes`.
#[derive(Debug, Clone, PartialEq, Eq, Default)]
#[non_exhaustive]
pub enum BytesRepr {
    /// `Vec<u8>`.
    #[default]
    Vec,
    /// `bytes::Bytes`, which decodes without copying.
    Bytes,
    /// The type with this path.
    Custom(String),
}

/// The Rust collection of a proto `map`.
#[derive(Debug, Clone, PartialEq, Eq, Default)]
#[non_exhaustive]
pub enum MapRepr {
    /// `HashMap`.
    #[default]
    HashMap,
    /// `BTreeMap`, which iterates in order.
    BTreeMap,
    /// The collection with this path, without parameters of its own.
    Custom(String),
}

/// The Rust pointer of a singular message field.
#[derive(Debug, Clone, PartialEq, Eq, Default)]
#[non_exhaustive]
pub enum PointerRepr {
    /// `Box`.
    Box,
    /// No pointer: the message is stored in its parent.
    #[default]
    Inline,
    /// The pointer with this template.
    Custom(String),
}

/// The Rust collection of a proto `repeated` field.
#[derive(Debug, Clone, PartialEq, Eq, Default)]
#[non_exhaustive]
pub enum RepeatedRepr {
    /// `Vec`.
    #[default]
    Vec,
    /// The collection with this template.
    Custom(String),
}

/// Map a type's text, or hand its error on.
pub open spec fn wrapped(
    ty: Result<Seq<char>, ErrorText>,
    before: Seq<char>,
    after: Seq<char>,
) -> Result<Seq<char>, ErrorText> {
    match ty {
        Ok(ty) => Ok(before + ty + after),
        Err(e) => Err(e),
    }
}

/// Put text around a type, or hand its error on.
fn wrap(ty: Result<String, CodeGenError>, before: &str, after: &str) -> (result: Result<
    String,
    CodeGenError,
>)
    ensures
        outcome(result) == wrapped(outcome(ty), before@, after@),
{
    match ty {
        Ok(ty) => {
            let mut r: String = before.to_owned();
            r.append(ty.as_str());
            r.append(after);
            Ok(r)
        },
        Err(e) => Err(e),
    }
}

impl StringRepr {
    /// The type of a `string` field, given the path that `String` goes by where
    /// the field is.
    pub open spec fn type_text(&self, string_path: Seq<char>) -> Result<Seq<char>, ErrorText> {
        match self {
            StringRepr::String => Ok(string_path),
            StringRepr::Custom(path) => custom_type(syntax::type_syntax(path@), path@),
        }
    }

    /// The type of a `string` field, given the path that `String` goes by where
    /// the field is.
    pub fn type_path(&self, string_path: &str) -> (result: Result<String, CodeGenError>)
        ensures
            outcome(result) == self.type_text(string_path@),
    {
        match self {
            StringRepr::String => Ok(string_path.to_owned()),
            StringRepr::Custom(path) => parse_custom_type_path(path.as_str()),
        }
    }

    /// Whether this is the default.
    pub fn is_default(&self) -> (r: bool)
        ensures
            r == (self is String),
    {
        match self {
            StringRepr::String => true,
            _ => false,
        }
    }
}

impl BytesRepr {
    /// The type of a `bytes` field, given the path that `Vec` goes by where the
    /// field is.
    pub open spec fn type_text(&self, vec_path: Seq<char>) -> Result<Seq<char>, ErrorText> {
        match self {
            BytesRepr::Vec => Ok(vec_path + "<u8>"@),
            BytesRepr::Bytes => Ok("::buffa::bytes::Bytes"@),
            BytesRepr::Custom(path) => custom_type(syntax::type_syntax(path@), path@),
        }
    }

    /// The type of a `bytes` field, given the path that `Vec` goes by where the
    /// field is.
    pub fn type_path(&self, vec_path: &str) -> (result: Result<String, CodeGenError>)
        ensures
            outcome(result) == self.type_text(vec_path@),
    {
        match self {
            BytesRepr::Vec => Ok(text::cat(vec_path, "<u8>")),
            BytesRepr::Bytes => Ok("::buffa::bytes::Bytes".to_owned()),
            BytesRepr::Custom(path) => parse_custom_type_path(path.as_str()),
        }
    }

    /// Whether this is the default.
    pub fn is_default(&self) -> (r: bool)
        ensures
            r == (self is Vec),
    {
        match self {
            BytesRepr::Vec => true,
            _ => false,
        }
    }
}

/// The parameters of a map type.
pub open spec fn map_params(key: Seq<char>, value: Seq<char>) -> Seq<char> {
    "<"@ + key + ", "@ + value + ">"@
}

impl MapRepr {
    /// The type of a `map` field, given its key and value types and the path
    /// that `HashMap` goes by where the field is.
    pub open spec fn type_text(
        &self,
        key: Seq<char>,
        value: Seq<char>,
        hashmap_path: Seq<char>,
    ) -> Result<Seq<char>, ErrorText> {
        match self {
            MapRepr::HashMap => Ok(hashmap_path + map_params(key, value)),
            MapRepr::BTreeMap => Ok(
                "::buffa::alloc::collections::BTreeMap"@ + map_params(key, value),
            ),
            MapRepr::Custom(path) => wrapped(
                custom_map(syntax::type_syntax(path@), path@),
                ""@,
                map_params(key, value),
            ),
        }
    }

    /// The type of a `map` field, given its key and value types and the path
    /// that `HashMap` goes by where the field is.
    pub fn type_path(&self, key: &str, value: &str, hashmap_path: &str) -> (result: Result<
        String,
        CodeGenError,
    >)
        ensures
            outcome(result) == self.type_text(key@, value@, hashmap_path@),
    {
        let mut params: String = "<".to_owned();
        params.append(key);
        params.append(", ");
        params.append(value);
        params.append(">");
        match self {
            MapRepr::HashMap => Ok(text::cat(hashmap_path, params.as_str())),
            MapRepr::BTreeMap => Ok(
                text::cat("::buffa::alloc::collections::BTreeMap", params.as_str()),
            ),
            MapRepr::Custom(path) => wrap(
                parse_custom_map_path(path.as_str()),
                "",
                params.as_str(),
            ),
        }
    }

    /// Whether this is the default.
    pub fn is_default(&self) -> (r: bool)
        ensures
            r == (self is HashMap),
    {
        match self {
            MapRepr::HashMap => true,
            _ => false,
        }
    }
}

impl PointerRepr {
    /// The custom pointer to `inner`.
    pub open spec fn custom_pointer(template: Seq<char>, inner: Seq<char>) -> Result<
        Seq<char>,
        ErrorText,
    > {
        wildcard_type(
            syntax::type_syntax(text::replaced(template, '*', inner)),
            template,
            inner,
        )
    }

    /// The type of a singular message field, given the message type and the path
    /// that `MessageField` goes by where the field is.
    pub open spec fn type_text(&self, message_field: Seq<char>, inner: Seq<char>) -> Result<
        Seq<char>,
        ErrorText,
    > {
        match self {
            PointerRepr::Box => Ok(message_field + "<"@ + inner + ">"@),
            PointerRepr::Inline => Ok(
                message_field + "<"@ + inner + ", ::buffa::Inline<"@ + inner + ">>"@,
            ),
            PointerRepr::Custom(template) => wrapped(
                Self::custom_pointer(template@, inner),
                message_field + "<"@ + inner + ", "@,
                ">"@,
            ),
        }
    }

    /// The type of a singular message field, given the message type and the path
    /// that `MessageField` goes by where the field is.
    pub fn type_path(&self, message_field: &str, inner: &str) -> (result: Result<
        String,
        CodeGenError,
    >)
        ensures
            outcome(result) == self.type_text(message_field@, inner@),
    {
        let mut r: String = message_field.to_owned();
        r.append("<");
        r.append(inner);
        match self {
            PointerRepr::Box => {
                r.append(">");
                Ok(r)
            },
            PointerRepr::Inline => {
                r.append(", ::buffa::Inline<");
                r.append(inner);
                r.append(">>");
                Ok(r)
            },
            PointerRepr::Custom(template) => {
                r.append(", ");
                wrap(parse_wildcard_type_path(template.as_str(), inner), r.as_str(), ">")
            },
        }
    }

    /// The path that a singular message field is made by.
    pub fn some_path(&self, inner: &str) -> (result: Result<String, CodeGenError>)
        ensures
            outcome(result) == self.type_text("::buffa::MessageField::"@, inner@),
    {
        self.type_path("::buffa::MessageField::", inner)
    }

    /// The pointer to a message in a boxed oneof variant.
    pub open spec fn pointer_text(&self, inner: Seq<char>) -> Result<Seq<char>, ErrorText> {
        match self {
            PointerRepr::Box => Ok("::buffa::alloc::boxed::Box<"@ + inner + ">"@),
            PointerRepr::Inline => Ok("::buffa::Inline<"@ + inner + ">"@),
            PointerRepr::Custom(template) => Self::custom_pointer(template@, inner),
        }
    }

    /// The pointer to a message in a boxed oneof variant.
    pub fn pointer_type(&self, inner: &str) -> (result: Result<String, CodeGenError>)
        ensures
            outcome(result) == self.pointer_text(inner@),
    {
        match self {
            PointerRepr::Box => {
                let mut r: String = "::buffa::alloc::boxed::Box<".to_owned();
                r.append(inner);
                r.append(">");
                Ok(r)
            },
            PointerRepr::Inline => {
                let mut r: String = "::buffa::Inline<".to_owned();
                r.append(inner);
                r.append(">");
                Ok(r)
            },
            PointerRepr::Custom(template) => parse_wildcard_type_path(template.as_str(), inner),
        }
    }

    /// The expression that makes such a pointer of a value. A custom pointer is
    /// made through the trait, so that a method of its own cannot shadow it.
    pub open spec fn new_text(&self, inner: Seq<char>, value: Seq<char>) -> Result<
        Seq<char>,
        ErrorText,
    > {
        match self {
            PointerRepr::Box => Ok("::buffa::alloc::boxed::Box::new("@ + value + ")"@),
            PointerRepr::Inline => Ok("::buffa::Inline("@ + value + ")"@),
            PointerRepr::Custom(template) => wrapped(
                Self::custom_pointer(template@, inner),
                "<"@,
                " as ::buffa::ProtoBox<"@ + inner + ">>::new("@ + value + ")"@,
            ),
        }
    }

    /// The expression that makes such a pointer of a value.
    pub fn pointer_new(&self, inner: &str, value: &str) -> (result: Result<String, CodeGenError>)
        ensures
            outcome(result) == self.new_text(inner@, value@),
    {
        match self {
            PointerRepr::Box => {
                let mut r: String = "::buffa::alloc::boxed::Box::new(".to_owned();
                r.append(value);
                r.append(")");
                Ok(r)
            },
            PointerRepr::Inline => {
                let mut r: String = "::buffa::Inline(".to_owned();
                r.append(value);
                r.append(")");
                Ok(r)
            },
            PointerRepr::Custom(template) => {
                let mut after: String = " as ::buffa::ProtoBox<".to_owned();
                after.append(inner);
                after.append(">>::new(");
                after.append(value);
                after.append(")");
                wrap(parse_wildcard_type_path(template.as_str(), inner), "<", after.as_str())
            },
        }
    }
}

impl RepeatedRepr {
    /// The type of a `repeated` field, given its element type and the path that
    /// `Vec` goes by where the field is.
    pub open spec fn type_text(&self, elem: Seq<char>, vec_path: Seq<char>) -> Result<
        Seq<char>,
        ErrorText,
    > {
        match self {
            RepeatedRepr::Vec => Ok(vec_path + "<"@ + elem + ">"@),
            RepeatedRepr::Custom(template) => list_type(
                syntax::type_syntax(text::replaced(template@, '*', elem)),
                template@,
            ),
        }
    }

    /// The type of a `repeated` field, given its element type and the path that
    /// `Vec` goes by where the field is.
    pub fn type_path(&self, elem: &str, vec_path: &str) -> (result: Result<String, CodeGenError>)
        ensures
            outcome(result) == self.type_text(elem@, vec_path@),
    {
        match self {
            RepeatedRepr::Vec => {
                let mut r: String = vec_path.to_owned();
                r.append("<");
                r.append(elem);
                r.append(">");
                Ok(r)
            },
            RepeatedRepr::Custom(template) => parse_custom_list_path(template.as_str(), elem),
        }
    }

    /// Whether this is the default.
    pub fn is_default(&self) -> (r: bool)
        ensures
            r == (self is Vec),
    {
        match self {
            RepeatedRepr::Vec => true,
            _ => false,
        }
    }
}

} // verus!
