//! Putting code behind crate features.
use vstd::prelude::*;
use vstd::string::*;
use crate::codegen::config;
use crate::codegen::syntax;
use crate::codegen::syntax::string_literal;

verus! {

/// Code behind a crate feature, or as it is where there is none.
pub open spec fn gated(code: Seq<char>, gate: Option<Seq<char>>) -> Seq<char> {
    match gate {
        None => code,
        Some(name) => "#[cfg(feature = "@ + syntax::literal(name) + ")] "@ + code,
    }
}

/// Put an item behind a crate feature.
pub fn cfg_block(code: &str, gate: Option<&str>) -> (r: String)
    ensures
        r@ == gated(code@, config::opt_text(gate)),
{
    match gate {
        None => code.to_owned(),
        Some(name) => {
            let mut r: String = "#[cfg(feature = ".to_owned();
            r.append(string_literal(name).as_str());
            r.append(")] ");
            r.append(code);
            r
        },
    }
}

/// Code that is there where either of two crate features is.
pub open spec fn gated_any(
    code: Seq<char>,
    first: Option<Seq<char>>,
    second: Option<Seq<char>>,
) -> Seq<char> {
    match (first, second) {
        (Some(a), Some(b)) => "#[cfg(any(feature = "@ + syntax::literal(a) + ", feature = "@
            + syntax::literal(b) + "))] "@ + code,
        (Some(a), None) => gated(code, Some(a)),
        (None, second) => gated(code, second),
    }
}

/// Put an item behind either of two crate features.
pub fn cfg_block_any(code: &str, first: Option<&str>, second: Option<&str>) -> (r: String)
    ensures
        r@ == gated_any(code@, config::opt_text(first), config::opt_text(second)),
{
    match (first, second) {
        (Some(a), Some(b)) => {
            let mut r: String = "#[cfg(any(feature = ".to_owned();
            r.append(string_literal(a).as_str());
            r.append(", feature = ");
            r.append(string_literal(b).as_str());
            r.append("))] ");
            r.append(code);
            r
        },
        (Some(a), None) => cfg_block(code, Some(a)),
        (None, second) => cfg_block(code, second),
    }
}

} // verus!
