//! Rust syntax, as the `syn` and `prettyplease` crates read and write it.
use vstd::prelude::*;
use vstd::string::*;
use crate::codegen::errors::CodeGenError;
use crate::codegen::errors;
use crate::codegen::text;
use crate::codegen::text::to_chars;
use crate::codegen::trees;
use crate::codegen::trees::{has_rules_behind, lay_bare};

verus! {

/// The arguments of one segment of a path.
#[derive(Debug, Clone, Copy, PartialEq, Eq, Structural)]
pub enum PathArgs {
    /// No arguments.
    Bare,
    /// Arguments in angle brackets.
    AngleBracketed,
    /// Arguments in round brackets.
    Parenthesized,
}

/// A Rust type, as far as the generator looks into it.
#[derive(Debug)]
pub struct TypeSyntax {
    /// The type's source.
    pub tokens: String,
    /// The arguments of each segment, where the type is a path.
    pub segments: Option<Vec<PathArgs>>,
}

impl View for TypeSyntax {
    type V = (Seq<char>, Option<Seq<PathArgs>>);

    open spec fn view(&self) -> (Seq<char>, Option<Seq<PathArgs>>) {
        (
            self.tokens@,
            match self.segments {
                Some(segments) => Some(segments@),
                None => None,
            },
        )
    }
}

/// What a string is as a Rust type: its source as `quote` writes it, and the
/// arguments of its segments where it is a path; nothing where it is no type.
pub uninterp spec fn type_syntax(source: Seq<char>) -> Option<
    (Seq<char>, Option<Seq<PathArgs>>),
>;

/// Read a Rust type: `syn::parse_str::<syn::Type>`, with the type written back
/// by `quote::ToTokens::to_token_stream`. Both are functions of the string, in a
/// process that is no procedural macro: in one, the compiler's own tokens stand
/// in for `proc_macro2`'s, and may be spaced otherwise.
#[verifier::external_body]
pub(crate) fn parse_type(source: &str) -> (r: Option<TypeSyntax>)
    ensures
        match r {
            Some(syntax) => type_syntax(source@) == Some(syntax@),
            None => type_syntax(source@) is None,
        },
{
    let ty: syn::Type = syn::parse_str(source).ok()?;
    let segments = match &ty {
        syn::Type::Path(path) => Some(path.path.segments.iter().map(|s| match s.arguments {
            syn::PathArguments::None => PathArgs::Bare,
            syn::PathArguments::AngleBracketed(_) => PathArgs::AngleBracketed,
            syn::PathArguments::Parenthesized(_) => PathArgs::Parenthesized,
        }).collect()),
        _ => None,
    };
    Some(TypeSyntax { tokens: quote::ToTokens::to_token_stream(&ty).to_string(), segments })
}

/// Printable ASCII that needs no escape in a string literal.
pub open spec fn is_plain(s: Seq<char>) -> bool {
    forall|i: int|
        0 <= i < s.len() ==> ' ' <= (#[trigger] s[i]) <= '~' && s[i] != '"' && s[i] != '\\'
}

/// A string as a Rust literal, escapes and all.
pub uninterp spec fn escaped_literal(s: Seq<char>) -> Seq<char>;

/// Write a string as a Rust literal: `proc_macro2::Literal::string`, by which
/// `quote` writes a string. It is a function of the string, in a process that is
/// no procedural macro. Plain text only gets quotes round it.
#[verifier::external_body]
fn write_literal(s: &str) -> (r: String)
    ensures
        r@ == escaped_literal(s@),
        is_plain(s@) ==> r@ == seq!['"'] + s@ + seq!['"'],
{
    proc_macro2::Literal::string(s).to_string()
}

/// A string as a Rust literal.
pub open spec fn literal(s: Seq<char>) -> Seq<char> {
    if is_plain(s) {
        seq!['"'] + s + seq!['"']
    } else {
        escaped_literal(s)
    }
}

/// Write a string as a Rust literal.
pub fn string_literal(s: &str) -> (r: String)
    ensures
        r@ == literal(s@),
{
    write_literal(s)
}

/// The syntax tree of a Rust file, as `syn` prints it for debugging; or what the
/// parser says of source that is no Rust file.
pub uninterp spec fn file_tree(source: Seq<char>) -> Result<Seq<char>, Seq<char>>;

/// Read a Rust file: `syn::parse_str::<syn::File>`, with the tree written by its
/// `Debug` implementation. Both are functions of the string; where it does not
/// parse, the result is the parser's own words.
///
/// That is so in a process that is no procedural macro, where the compiler's own
/// tokens would stand in for `proc_macro2`'s, and without the `span-locations`
/// feature of that crate, which would write a place beside every token.
#[verifier::external_body]
pub(crate) fn read_file(source: &str) -> (r: Result<String, String>)
    ensures
        match r {
            Ok(tree) => file_tree(source@) == Ok::<Seq<char>, Seq<char>>(tree@),
            Err(e) => file_tree(source@) == Err::<Seq<char>, Seq<char>>(e@),
        },
{
    match syn::parse_str::<syn::File>(source) {
        Ok(file) => Ok(format!("{:?}", file)),
        Err(e) => Err(e.to_string()),
    }
}

/// How a tree goes on from a node of raw tokens.
pub const RAW_ITEM: &'static str = "Item::Verbatim(TokenStream [";

/// How a tree goes on from a type of raw tokens.
pub const RAW_TYPE: &'static str = "Type::Verbatim(TokenStream [";

/// How a tree goes on from a pattern of raw tokens.
pub const RAW_PATTERN: &'static str = "Pat::Verbatim(TokenStream [";

/// How a tree goes on from a bound of raw tokens.
pub const RAW_BOUND: &'static str = "TypeParamBound::Verbatim(TokenStream [";

/// How a tree goes on from an expression of raw tokens.
pub const RAW_EXPRESSION: &'static str = "Expr::Verbatim(TokenStream [";

/// An expression without tokens.
pub const NO_EXPRESSION: &'static str = "Expr::Verbatim(TokenStream [])";

/// How a tree goes on behind the name of a macro that is defined.
pub const MACRO_DEFINITION: &'static str =
    ")), mac: Macro { path: Path { leading_colon: None, segments: [PathSegment { ident: Ident(macro_rules), arguments: PathArguments::None }] }";

/// How a tree goes on from the dot that ends a literal, where a field, a method
/// or an `await` of the literal follows.
pub const DOTTED_RECEIVER: &'static str = ". } }, dot_token: ";

/// Every macro that is defined in a tree is defined by rules.
pub open spec fn macros_have_rules(bare: Seq<char>) -> bool {
    forall|i: int| #[trigger]
        text::occurs_at(bare, MACRO_DEFINITION@, i) ==> trees::rules_behind(
            bare,
            i + MACRO_DEFINITION@.len(),
        )
}

/// A tree is made of syntax that can be laid out.
///
/// Syntax that `syn` does not model is kept as raw tokens, which cannot be laid
/// out; an expression without tokens, which a lone semicolon is, can. Nor can a
/// macro that is defined otherwise than by rules; nor a field, a method or an
/// `await` of a literal that ends in a dot: the space that has to part the two
/// dots takes a column that the layout does not count on.
pub open spec fn printable(tree: Seq<char>) -> bool {
    let bare = trees::bare(tree);
    &&& macros_have_rules(bare)
    &&& !text::holds(bare, DOTTED_RECEIVER@)
    &&& !text::holds(bare, RAW_ITEM@)
    &&& !text::holds(bare, RAW_TYPE@)
    &&& !text::holds(bare, RAW_PATTERN@)
    &&& !text::holds(bare, RAW_BOUND@)
    &&& forall|i: int| #[trigger]
        text::occurs_at(bare, RAW_EXPRESSION@, i) ==> text::occurs_at(bare, NO_EXPRESSION@, i)
}

/// Whether every macro that is defined in a tree is defined by rules.
fn are_macros_sound(bare: &Vec<char>) -> (r: bool)
    ensures
        r == macros_have_rules(bare@),
{
    proof {
        reveal_strlit(")), mac: Macro { path: Path { leading_colon: None, segments: [PathSegment { ident: Ident(macro_rules), arguments: PathArguments::None }] }");
    }
    let start: Vec<char> = to_chars(MACRO_DEFINITION);
    let mut i: usize = 0;
    while i < bare.len() && start.len() <= bare.len() - i
        invariant
            start@ == MACRO_DEFINITION@,
            start@.len() > 0,
            i <= bare@.len(),
            forall|k: int|
                0 <= k < i && #[trigger] text::occurs_at(bare@, start@, k) ==> trees::rules_behind(
                    bare@,
                    k + start@.len(),
                ),
        decreases bare@.len() - i,
    {
        if text::occurs(bare, &start, i) && !has_rules_behind(bare, i + start.len()) {
            return false;
        }
        i = i + 1;
    }
    true
}

/// Whether a tree is made of syntax that can be laid out.
pub fn is_printable(tree: &str) -> (r: bool)
    ensures
        r == printable(tree@),
{
    proof {
        reveal_strlit(". } }, dot_token: ");
        reveal_strlit("Item::Verbatim(TokenStream [");
        reveal_strlit("Type::Verbatim(TokenStream [");
        reveal_strlit("Pat::Verbatim(TokenStream [");
        reveal_strlit("TypeParamBound::Verbatim(TokenStream [");
        reveal_strlit("Expr::Verbatim(TokenStream [");
    }
    let bare: Vec<char> = lay_bare(tree);
    are_macros_sound(&bare) && !text::contains(&bare, DOTTED_RECEIVER) && !text::contains(
        &bare,
        RAW_ITEM,
    ) && !text::contains(&bare, RAW_TYPE) && !text::contains(&bare, RAW_PATTERN)
        && !text::contains(&bare, RAW_BOUND) && text::always_continues(
        &bare,
        RAW_EXPRESSION,
        NO_EXPRESSION,
    )
}

/// A Rust file laid out in the standard way.
pub uninterp spec fn formatted_file(source: Seq<char>) -> Seq<char>;

/// Lay a Rust file out: `syn::parse_str::<syn::File>` reads it and
/// `prettyplease::unparse` writes it. Both are functions of the string.
///
/// Source that does not parse is left out, and so is what `unparse` panics on:
/// raw tokens, macros that are defined otherwise than by rules, and a dot behind a
/// literal that ends in one, where a line can come out wider than the layout was
/// chosen for.
#[verifier::external_body]
pub(crate) fn format_file(source: &str) -> (r: String)
    requires
        file_tree(source@) is Ok,
        printable(file_tree(source@)->Ok_0),
    ensures
        r@ == formatted_file(source@),
{
    prettyplease::unparse(&syn::parse_str::<syn::File>(source).unwrap())
}

/// What is said of source that cannot be laid out.
pub const NOT_PRINTABLE: &'static str = "the generated code holds syntax that cannot be laid out";

/// A file as it is laid out, given its tree and its layout; or what is wrong with
/// it.
pub open spec fn layout(tree: Result<Seq<char>, Seq<char>>, formatted: Seq<char>) -> Result<
    Seq<char>,
    Seq<char>,
> {
    match tree {
        Err(e) => Err(e),
        Ok(tree) => if printable(tree) {
            Ok(formatted)
        } else {
            Err(NOT_PRINTABLE@)
        },
    }
}

/// A file as it is laid out; or what is wrong with it.
pub open spec fn laid_out(source: Seq<char>) -> Result<Seq<char>, Seq<char>> {
    layout(file_tree(source), formatted_file(source))
}

/// Lay a file out, or say what is wrong with it.
pub fn lay_out(source: &str) -> (r: Result<String, String>)
    ensures
        match r {
            Ok(file) => laid_out(source@) == Ok::<Seq<char>, Seq<char>>(file@),
            Err(e) => laid_out(source@) == Err::<Seq<char>, Seq<char>>(e@),
        },
{
    let tree: String = match read_file(source) {
        Ok(tree) => tree,
        Err(e) => return Err(e),
    };
    if !is_printable(tree.as_str()) {
        return Err(NOT_PRINTABLE.to_owned());
    }
    Ok(format_file(source))
}

/// The header of a generated file.
pub open spec fn header_text(source: Seq<char>) -> Seq<char> {
    "// @generated by buffa-codegen. DO NOT EDIT.\n"@ + if source.len() == 0 {
        Seq::empty()
    } else {
        "// source: "@ + source + "\n"@
    } + "\n"@
}

/// A generated file: the header, and the laid-out source; or the error of
/// source that does not parse.
pub open spec fn file_text(body: Result<Seq<char>, Seq<char>>, source: Seq<char>) -> Result<
    Seq<char>,
    errors::ErrorText,
> {
    match body {
        Ok(body) => Ok(header_text(source) + body),
        Err(e) => Err(errors::ErrorText::InvalidSyntax(e)),
    }
}

/// Put the header on a laid-out file, or report that it did not parse.
pub fn finish_file(laid_out: Result<String, String>, source: &str) -> (result: Result<
    String,
    CodeGenError,
>)
    ensures
        match laid_out {
            Ok(body) => result is Ok && result->Ok_0@ == header_text(source@) + body@,
            Err(e) => result is Err && result->Err_0@ == errors::ErrorText::InvalidSyntax(e@),
        },
{
    match laid_out {
        Ok(body) => {
            let mut r: String = "// @generated by buffa-codegen. DO NOT EDIT.\n".to_owned();
            let ghost first = r@;
            if !source.is_empty() {
                r.append("// source: ");
                r.append(source);
                r.append("\n");
                assert(r@ =~= first + ("// source: "@ + source@ + "\n"@));
            } else {
                assert(r@ =~= first + Seq::<char>::empty());
            }
            r.append("\n");
            r.append(body.as_str());
            Ok(r)
        },
        Err(e) => Err(CodeGenError::InvalidSyntax(e)),
    }
}

/// Lay generated code out as a file, under the standard header. `source` is the
/// `.proto` file that it comes from, or empty.
///
/// Code that does not parse, or that holds syntax that cannot be laid out, is
/// refused.
pub fn format_tokens(tokens: &str, source: &str) -> (result: Result<String, CodeGenError>)
    ensures
        match file_text(laid_out(tokens@), source@) {
            Ok(file) => result is Ok && result->Ok_0@ == file,
            Err(e) => result is Err && result->Err_0@ == e,
        },
{
    finish_file(lay_out(tokens), source)
}

} // verus!
