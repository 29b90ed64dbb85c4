//! The syntax tree of a Rust file as text, and what can be read off it.
//!
//! A tree is written with its literals as they stand in the source, and they may
//! hold anything. What is looked for in a tree is looked for in its bare form,
//! without what stands between quotes.
use vstd::prelude::*;
use vstd::string::*;
use crate::codegen::text;
use crate::codegen::text::{find, occurs, to_chars};

verus! {

/// Where in a tree a character stands.
#[derive(Debug, Clone, Copy, PartialEq, Eq, Structural)]
pub enum Place {
    /// Outside all literals.
    Code,
    /// In a string.
    Text,
    /// Behind a backslash in a string.
    Escape,
    /// In a raw string, whose closing quote has this many hash signs behind it.
    Raw(usize),
    /// At the start of a character literal.
    Char,
    /// Behind a backslash in a character literal.
    CharEscape,
    /// Before the closing quote of a character literal.
    CharEnd,
}

/// How many hash signs stand directly before place `i`.
pub open spec fn hashes_before(tree: Seq<char>, i: int) -> nat
    decreases i,
{
    if 0 < i <= tree.len() && tree[i - 1] == '#' {
        1 + hashes_before(tree, i - 1)
    } else {
        0
    }
}

/// The quote at `i` opens a raw string.
pub open spec fn opens_raw(tree: Seq<char>, i: int) -> bool {
    let at = i - hashes_before(tree, i) - 1;
    0 <= at < tree.len() && tree[at] == 'r'
}

/// `n` hash signs stand from place `i` on.
pub open spec fn hashes_from(tree: Seq<char>, i: int, n: nat) -> bool {
    i + n <= tree.len() && forall|k: int| i <= k < i + n ==> #[trigger] tree[k] == '#'
}

/// The place behind the character at `i`, which stands at `place`.
pub open spec fn place_after(tree: Seq<char>, i: int, place: Place) -> Place {
    let c = tree[i];
    match place {
        Place::Code => if c == '"' {
            if opens_raw(tree, i) {
                Place::Raw(hashes_before(tree, i) as usize)
            } else {
                Place::Text
            }
        } else if c == '\'' {
            Place::Char
        } else {
            Place::Code
        },
        Place::Text => if c == '"' {
            Place::Code
        } else if c == '\\' {
            Place::Escape
        } else {
            Place::Text
        },
        Place::Escape => Place::Text,
        Place::Raw(n) => if c == '"' && hashes_from(tree, i + 1, n as nat) {
            Place::Code
        } else {
            place
        },
        Place::Char => if c == '\\' {
            Place::CharEscape
        } else {
            Place::CharEnd
        },
        Place::CharEscape => Place::CharEnd,
        Place::CharEnd => if c == '\'' {
            Place::Code
        } else {
            Place::CharEnd
        },
    }
}

/// A character between places `place` and `after` is left in the bare form. A
/// character literal is, unless it could be taken for a bracket of the tree.
pub open spec fn stays(c: char, place: Place, after: Place) -> bool {
    match place {
        Place::Code => true,
        Place::Text | Place::Escape | Place::Raw(_) => after == Place::Code,
        _ => c != '[' && c != ']',
    }
}

/// The bare form of the first `k` characters of a tree, and the place behind them.
pub open spec fn bare_to(tree: Seq<char>, k: nat) -> (Seq<char>, Place)
    decreases k,
{
    if k == 0 || k > tree.len() {
        (Seq::empty(), Place::Code)
    } else {
        let (before, place) = bare_to(tree, (k - 1) as nat);
        let after = place_after(tree, k - 1, place);
        (
            if stays(tree[k - 1], place, after) {
                before.push(tree[k - 1])
            } else {
                before
            },
            after,
        )
    }
}

/// A tree without what stands between quotes.
pub open spec fn bare(tree: Seq<char>) -> Seq<char> {
    bare_to(tree, tree.len()).0
}

/// Count the hash signs directly before a place.
fn count_hashes(tree: &Vec<char>, i: usize) -> (n: usize)
    requires
        i < tree@.len(),
    ensures
        n == hashes_before(tree@, i as int),
        n <= i,
{
    let mut n: usize = 0;
    while n < i && tree[i - n - 1] == '#'
        invariant
            n <= i < tree@.len(),
            hashes_before(tree@, i as int) == n + hashes_before(tree@, i - n),
        decreases i - n,
    {
        n = n + 1;
    }
    n
}

/// Whether `n` hash signs stand from a place on.
fn are_hashes(tree: &Vec<char>, i: usize, n: usize) -> (r: bool)
    requires
        i <= tree@.len(),
    ensures
        r == hashes_from(tree@, i as int, n as nat),
{
    let len: usize = tree.len();
    if n > len - i {
        return false;
    }
    let mut k: usize = 0;
    while k < n
        invariant
            k <= n,
            i + n <= len,
            len == tree@.len(),
            forall|j: int| i <= j < i + k ==> #[trigger] tree@[j] == '#',
        decreases n - k,
    {
        if tree[i + k] != '#' {
            return false;
        }
        k = k + 1;
    }
    true
}

/// Find the place behind a character.
fn next_place(tree: &Vec<char>, i: usize, place: Place) -> (r: Place)
    requires
        i < tree@.len(),
    ensures
        r == place_after(tree@, i as int, place),
{
    let len: usize = tree.len();
    let c: char = tree[i];
    match place {
        Place::Code => {
            if c == '"' {
                let n: usize = count_hashes(tree, i);
                if n < i && tree[i - n - 1] == 'r' {
                    Place::Raw(n)
                } else {
                    Place::Text
                }
            } else if c == '\'' {
                Place::Char
            } else {
                Place::Code
            }
        },
        Place::Text => {
            if c == '"' {
                Place::Code
            } else if c == '\\' {
                Place::Escape
            } else {
                Place::Text
            }
        },
        Place::Escape => Place::Text,
        Place::Raw(n) => {
            if c == '"' && are_hashes(tree, i + 1, n) {
                Place::Code
            } else {
                place
            }
        },
        Place::Char => {
            if c == '\\' {
                Place::CharEscape
            } else {
                Place::CharEnd
            }
        },
        Place::CharEscape => Place::CharEnd,
        Place::CharEnd => {
            if c == '\'' {
                Place::Code
            } else {
                Place::CharEnd
            }
        },
    }
}

/// Take out of a tree what stands between quotes.
pub fn lay_bare(tree: &str) -> (r: Vec<char>)
    ensures
        r@ == bare(tree@),
{
    let all: Vec<char> = to_chars(tree);
    let mut r: Vec<char> = Vec::new();
    let mut place: Place = Place::Code;
    let mut i: usize = 0;
    while i < all.len()
        invariant
            all@ == tree@,
            i <= all@.len(),
            bare_to(tree@, i as nat) == (r@, place),
        decreases all@.len() - i,
    {
        let after: Place = next_place(&all, i, place);
        let c: char = all[i];
        let keep: bool = match place {
            Place::Code => true,
            Place::Text | Place::Escape | Place::Raw(_) => after == Place::Code,
            _ => c != '[' && c != ']',
        };
        if keep {
            r.push(c);
        }
        place = after;
        i = i + 1;
    }
    r
}

/// The place of the bracket that closes `depth` brackets which are open at `i`.
pub open spec fn closing(bare: Seq<char>, i: int, depth: nat) -> Option<int>
    decreases bare.len() - i,
{
    if i < 0 || i >= bare.len() {
        None
    } else if bare[i] == '[' {
        closing(bare, i + 1, depth + 1)
    } else if bare[i] != ']' {
        closing(bare, i + 1, depth)
    } else if depth <= 1 {
        Some(i)
    } else {
        closing(bare, i + 1, (depth - 1) as nat)
    }
}

/// The end of a given text at `i`.
pub open spec fn end_of(bare: Seq<char>, part: Seq<char>, i: int) -> Option<int> {
    if text::occurs_at(bare, part, i) {
        Some(i + part.len())
    } else {
        None
    }
}

/// The end of a token in brackets at `i`.
pub open spec fn group_end(bare: Seq<char>, i: int) -> Option<int> {
    if !text::occurs_at(bare, "Group { "@, i) {
        None
    } else {
        match text::find_from(bare, "["@, i) {
            None => None,
            Some(open) => match closing(bare, open + 1, 1) {
                None => None,
                Some(close) => end_of(bare, " }"@, close + 1),
            },
        }
    }
}

/// The end of the token at `i`, if it may be the token numbered `k` of a macro's
/// rules. A rule is a pattern in brackets, an arrow and an expansion in brackets;
/// semicolons stand between rules.
pub open spec fn rule_token_end(bare: Seq<char>, i: int, k: nat) -> Option<int> {
    if k % 5 == 1 {
        end_of(bare, "Punct { char: '=', spacing: Joint }"@, i)
    } else if k % 5 == 2 {
        end_of(bare, "Punct { char: '>', spacing: Alone }"@, i)
    } else if k % 5 == 4 {
        end_of(bare, "Punct { char: ';', spacing: Alone }"@, i)
    } else {
        group_end(bare, i)
    }
}

/// A list of tokens goes on at `i` with the token numbered `k`, and all from there
/// on are tokens of a macro's rules.
pub open spec fn rules_from(bare: Seq<char>, i: int, k: nat) -> bool
    decreases bare.len() - i,
{
    0 <= i < bare.len() && (bare[i] == ']' || match rule_token_end(bare, i, k) {
        None => false,
        Some(end) => if end <= i {
            false
        } else if end + 2 <= bare.len() && text::occurs_at(bare, ", "@, end) {
            rules_from(bare, end + 2, k + 1)
        } else {
            text::occurs_at(bare, "]"@, end)
        },
    })
}

/// The next list of tokens behind `i` is the rules of a macro, or their beginning.
pub open spec fn rules_behind(bare: Seq<char>, i: int) -> bool {
    match text::find_from(bare, "["@, i) {
        None => false,
        Some(open) => rules_from(bare, open + 1, 0),
    }
}

/// Find the bracket that closes one which is open.
fn find_closing(bare: &Vec<char>, from: usize) -> (r: Option<usize>)
    requires
        1 <= from <= bare@.len(),
    ensures
        match r {
            Some(i) => closing(bare@, from as int, 1) == Some(i as int) && from <= i < bare@.len(),
            None => closing(bare@, from as int, 1) is None,
        },
{
    let len: usize = bare.len();
    let mut depth: usize = 1;
    let mut i: usize = from;
    while i < len
        invariant
            1 <= from <= i <= len,
            len == bare@.len(),
            1 <= depth <= i - from + 1,
            closing(bare@, from as int, 1) == closing(bare@, i as int, depth as nat),
        decreases bare@.len() - i,
    {
        let c: char = bare[i];
        if c == '[' {
            depth = depth + 1;
        } else if c == ']' {
            if depth == 1 {
                return Some(i);
            }
            depth = depth - 1;
        }
        i = i + 1;
    }
    None
}

/// Find the end of a given text.
fn find_end(bare: &Vec<char>, part: &str, i: usize) -> (r: Option<usize>)
    requires
        i <= bare@.len(),
    ensures
        match r {
            Some(end) => end_of(bare@, part@, i as int) == Some(end as int) && end <= bare@.len(),
            None => end_of(bare@, part@, i as int) is None,
        },
{
    let chars: Vec<char> = to_chars(part);
    if chars.len() <= bare.len() - i && occurs(bare, &chars, i) {
        Some(i + chars.len())
    } else {
        None
    }
}

/// Find the end of a token in brackets.
fn find_group_end(bare: &Vec<char>, i: usize) -> (r: Option<usize>)
    requires
        i <= bare@.len(),
    ensures
        match r {
            Some(end) => group_end(bare@, i as int) == Some(end as int) && end <= bare@.len(),
            None => group_end(bare@, i as int) is None,
        },
{
    proof {
        reveal_strlit("[");
    }
    let len: usize = bare.len();
    match find_end(bare, "Group { ", i) {
        None => return None,
        Some(_) => {},
    }
    match find(bare, &to_chars("["), i) {
        None => None,
        Some(open) => match find_closing(bare, open + 1) {
            None => None,
            Some(close) => find_end(bare, " }", close + 1),
        },
    }
}

/// Find the end of a token of a macro's rules.
fn find_rule_token_end(bare: &Vec<char>, i: usize, place: usize, Ghost(k): Ghost<nat>) -> (r: Option<
    usize,
>)
    requires
        i <= bare@.len(),
        place == k % 5,
    ensures
        match r {
            Some(end) => rule_token_end(bare@, i as int, k) == Some(end as int) && end
                <= bare@.len(),
            None => rule_token_end(bare@, i as int, k) is None,
        },
{
    if place == 1 {
        find_end(bare, "Punct { char: '=', spacing: Joint }", i)
    } else if place == 2 {
        find_end(bare, "Punct { char: '>', spacing: Alone }", i)
    } else if place == 4 {
        find_end(bare, "Punct { char: ';', spacing: Alone }", i)
    } else {
        find_group_end(bare, i)
    }
}

/// Whether a list of tokens is the rules of a macro.
fn are_rules(bare: &Vec<char>, from: usize) -> (r: bool)
    requires
        from <= bare@.len(),
    ensures
        r == rules_from(bare@, from as int, 0),
{
    proof {
        reveal_strlit(", ");
        reveal_strlit("]");
    }
    let ghost mut k: nat = 0;
    let mut place: usize = 0;
    let mut i: usize = from;
    while i < bare.len() && bare[i] != ']'
        invariant
            i <= bare@.len(),
            ", "@.len() == 2,
            place == k % 5,
            rules_from(bare@, from as int, 0) == rules_from(bare@, i as int, k),
        decreases bare@.len() - i,
    {
        let end: usize = match find_rule_token_end(bare, i, place, Ghost(k)) {
            None => return false,
            Some(end) => end,
        };
        if end <= i {
            return false;
        }
        match find_end(bare, ", ", end) {
            None => return find_end(bare, "]", end).is_some(),
            Some(next) => {
                i = next;
                place = if place == 4 {
                    0
                } else {
                    place + 1
                };
                proof {
                    k = k + 1;
                }
            },
        }
    }
    i < bare.len()
}

/// Whether the next list of tokens is the rules of a macro.
pub fn has_rules_behind(bare: &Vec<char>, i: usize) -> (r: bool)
    requires
        i <= bare@.len(),
    ensures
        r == rules_behind(bare@, i as int),
{
    proof {
        reveal_strlit("[");
    }
    let len: usize = bare.len();
    match find(bare, &to_chars("["), i) {
        None => false,
        Some(open) => are_rules(bare, open + 1),
    }
}

} // verus!
