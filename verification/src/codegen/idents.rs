//! Identifiers.
use vstd::prelude::*;
use vstd::string::*;
use crate::codegen::text::{cat, same};

verus! {

/// A keyword that can be an identifier in its raw form.
pub open spec fn is_raw_keyword(s: Seq<char>) -> bool {
    ||| s == "abstract"@
    ||| s == "as"@
    ||| s == "async"@
    ||| s == "await"@
    ||| s == "become"@
    ||| s == "box"@
    ||| s == "break"@
    ||| s == "const"@
    ||| s == "continue"@
    ||| s == "do"@
    ||| s == "dyn"@
    ||| s == "else"@
    ||| s == "enum"@
    ||| s == "extern"@
    ||| s == "false"@
    ||| s == "final"@
    ||| s == "fn"@
    ||| s == "for"@
    ||| s == "gen"@
    ||| s == "if"@
    ||| s == "impl"@
    ||| s == "in"@
    ||| s == "let"@
    ||| s == "loop"@
    ||| s == "macro"@
    ||| s == "match"@
    ||| s == "mod"@
    ||| s == "move"@
    ||| s == "mut"@
    ||| s == "override"@
    ||| s == "priv"@
    ||| s == "pub"@
    ||| s == "ref"@
    ||| s == "return"@
    ||| s == "static"@
    ||| s == "struct"@
    ||| s == "trait"@
    ||| s == "true"@
    ||| s == "try"@
    ||| s == "type"@
    ||| s == "typeof"@
    ||| s == "unsafe"@
    ||| s == "unsized"@
    ||| s == "use"@
    ||| s == "virtual"@
    ||| s == "where"@
    ||| s == "while"@
    ||| s == "yield"@
}

/// A keyword that cannot be an identifier in any form.
pub open spec fn is_path_keyword(s: Seq<char>) -> bool {
    ||| s == "self"@
    ||| s == "Self"@
    ||| s == "super"@
    ||| s == "crate"@
}

/// The module identifier for a name: a keyword is written in its raw form, or
/// with an underscore behind it where it has none.
pub open spec fn mod_ident(name: Seq<char>) -> Seq<char> {
    if is_path_keyword(name) {
        name + "_"@
    } else if is_raw_keyword(name) {
        "r#"@ + name
    } else {
        name
    }
}

fn raw_keyword(s: &str) -> (r: bool)
    ensures
        r == is_raw_keyword(s@),
{
    same(s, "abstract")
        || same(s, "as")
        || same(s, "async")
        || same(s, "await")
        || same(s, "become")
        || same(s, "box")
        || same(s, "break")
        || same(s, "const")
        || same(s, "continue")
        || same(s, "do")
        || same(s, "dyn")
        || same(s, "else")
        || same(s, "enum")
        || same(s, "extern")
        || same(s, "false")
        || same(s, "final")
        || same(s, "fn")
        || same(s, "for")
        || same(s, "gen")
        || same(s, "if")
        || same(s, "impl")
        || same(s, "in")
        || same(s, "let")
        || same(s, "loop")
        || same(s, "macro")
        || same(s, "match")
        || same(s, "mod")
        || same(s, "move")
        || same(s, "mut")
        || same(s, "override")
        || same(s, "priv")
        || same(s, "pub")
        || same(s, "ref")
        || same(s, "return")
        || same(s, "static")
        || same(s, "struct")
        || same(s, "trait")
        || same(s, "true")
        || same(s, "try")
        || same(s, "type")
        || same(s, "typeof")
        || same(s, "unsafe")
        || same(s, "unsized")
        || same(s, "use")
        || same(s, "virtual")
        || same(s, "where")
        || same(s, "while")
        || same(s, "yield")
}

/// Make a name a module identifier.
pub fn escape_mod_ident(name: &str) -> (r: String)
    ensures
        r@ == mod_ident(name@),
{
    if same(name, "self") || same(name, "Self") || same(name, "super") || same(name, "crate") {
        cat(name, "_")
    } else if raw_keyword(name) {
        cat("r#", name)
    } else {
        name.to_owned()
    }
}

} // verus!
