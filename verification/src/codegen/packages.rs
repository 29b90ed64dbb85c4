//! Package names: which packages are excluded, and what files they go to.
use vstd::prelude::*;
use vstd::string::*;
use crate::codegen::text;
use crate::codegen::text::{cat, replace_char, split, starts_with, strip_prefix, strip_suffix, trim};

verus! {

/// The module that a package's ancillary types live in. It is the one name that
/// the generator reserves.
pub const SENTINEL_MOD: &'static str = "__buffa";

/// An exclusion entry covers a package: the package itself, or one below it,
/// with the boundary at a dot.
pub open spec fn covers(entry: Seq<char>, package: Seq<char>) -> bool {
    package == entry || text::begins(package, entry + "."@)
}

/// A package is covered by one of the entries.
pub open spec fn excluded(package: Seq<char>, excludes: Seq<Seq<char>>) -> bool {
    exists|i: int| 0 <= i < excludes.len() && covers(#[trigger] excludes[i], package)
}

/// Whether an exclusion entry covers a package.
pub fn entry_covers(entry: &str, package: &str) -> (r: bool)
    ensures
        r == covers(entry@, package@),
{
    text::same(package, entry) || starts_with(package, cat(entry, ".").as_str())
}

/// Whether a package is covered by any entry of `excludes`: exactly, or as a
/// dotted prefix. `buf.validate` covers `buf.validate` and `buf.validate.foo`,
/// and not `buf.validatex`.
pub fn package_is_excluded(package: &str, excludes: &Vec<String>) -> (r: bool)
    ensures
        r == excluded(package@, text::texts(excludes@)),
{
    let mut i: usize = 0;
    while i < excludes.len()
        invariant
            i <= excludes@.len(),
            forall|j: int|
                0 <= j < i ==> !covers(#[trigger] text::texts(excludes@)[j], package@),
        decreases excludes@.len() - i,
    {
        assert(text::texts(excludes@)[i as int] == excludes@[i as int]@);
        if entry_covers(excludes[i].as_str(), package) {
            return true;
        }
        i = i + 1;
    }
    false
}

/// Exclusion goes down the tree: what covers a package covers every package
/// below it.
pub proof fn law_exclusion_goes_down(entry: Seq<char>, package: Seq<char>, below: Seq<char>)
    requires
        covers(entry, package),
        covers(package, below),
    ensures
        covers(entry, below),
{
    reveal_strlit(".");
    if package != entry && below != package {
        let (p, q) = (entry + "."@, package + "."@);
        assert(package.subrange(0, p.len() as int) == p);
        assert(below.subrange(0, q.len() as int) == q);
        assert(below.subrange(0, p.len() as int) =~= p) by {
            assert forall|k: int| 0 <= k < p.len() implies below[k] == p[k] by {
                assert(below.subrange(0, q.len() as int)[k] == below[k]);
                assert(package.subrange(0, p.len() as int)[k] == package[k]);
            }
        }
    }
}

/// The entry that a user wrote, without white space around it and without a
/// leading dot.
pub open spec fn stripped_entry(value: Seq<char>) -> Seq<char> {
    let entry = text::trimmed(value);
    if text::begins(entry, "."@) {
        entry.skip(1)
    } else {
        entry
    }
}

/// No component of a dotted name is empty.
pub open spec fn has_no_empty_component(name: Seq<char>) -> bool {
    forall|i: int|
        0 <= i < text::pieces(name, "."@).len() ==> (#[trigger] text::pieces(
            name,
            "."@,
        )[i]).len() > 0
}

/// What is said of an entry that could match no package.
pub open spec fn bad_entry_text() -> Seq<char> {
    "'exclude_package' requires a non-empty proto package with no empty components, e.g. exclude_package=.buf.validate"@
}

/// Normalize an exclusion entry: strip white space and the optional leading
/// dot. An entry with an empty component could match no package, and is refused.
pub fn normalize_exclude_package(value: &str) -> (result: Result<String, String>)
    ensures
        match result {
            Ok(entry) => entry@ == stripped_entry(value@) && has_no_empty_component(entry@),
            Err(e) => !has_no_empty_component(stripped_entry(value@)) && e@ == bad_entry_text(),
        },
{
    proof {
        reveal_strlit(".");
    }
    let trimmed: &str = trim(value);
    let entry: &str = match strip_prefix(trimmed, ".") {
        Some(rest) => rest,
        None => trimmed,
    };
    let parts: Vec<&str> = split(entry, ".");
    let mut i: usize = 0;
    while i < parts.len()
        invariant
            i <= parts@.len(),
            entry@ == stripped_entry(value@),
            text::views(parts@) == text::pieces(entry@, "."@),
            forall|j: int|
                0 <= j < i ==> (#[trigger] text::pieces(entry@, "."@)[j]).len() > 0,
        decreases parts@.len() - i,
    {
        assert(text::pieces(entry@, "."@)[i as int] == parts@[i as int]@);
        if parts[i].is_empty() {
            return Err(
                "'exclude_package' requires a non-empty proto package with no empty components, e.g. exclude_package=.buf.validate".to_owned(),
            );
        }
        i = i + 1;
    }
    Ok(entry.to_owned())
}

/// The file that a package's modules are stitched together in.
pub open spec fn mod_filename(package: Seq<char>) -> Seq<char> {
    if package.len() == 0 {
        SENTINEL_MOD@ + ".mod.rs"@
    } else {
        package + ".mod.rs"@
    }
}

/// The file that a package goes to when it is generated as one file.
pub open spec fn filename(package: Seq<char>) -> Seq<char> {
    if package.len() == 0 {
        SENTINEL_MOD@ + ".rs"@
    } else {
        package + ".rs"@
    }
}

/// The name of a package's stitcher file. The unnamed package goes by the
/// reserved name, which no other package can have.
pub fn package_to_mod_filename(package: &str) -> (r: String)
    ensures
        r@ == mod_filename(package@),
{
    if package.is_empty() {
        cat(SENTINEL_MOD, ".mod.rs")
    } else {
        cat(package, ".mod.rs")
    }
}

/// The name of a package's file when it is generated as one.
pub fn package_to_filename(package: &str) -> (r: String)
    ensures
        r@ == filename(package@),
{
    if package.is_empty() {
        cat(SENTINEL_MOD, ".rs")
    } else {
        cat(package, ".rs")
    }
}

proof fn lemma_same_suffix(a: Seq<char>, b: Seq<char>, suffix: Seq<char>)
    requires
        a + suffix == b + suffix,
    ensures
        a == b,
{
    assert((a + suffix).len() == (b + suffix).len());
    assert(a =~= (a + suffix).take(a.len() as int));
    assert(b =~= (b + suffix).take(b.len() as int));
}

/// Two packages never share a file, given that neither has the reserved name.
pub proof fn law_packages_have_their_own_files(a: Seq<char>, b: Seq<char>)
    requires
        a != b,
        a != SENTINEL_MOD@,
        b != SENTINEL_MOD@,
    ensures
        mod_filename(a) != mod_filename(b),
        filename(a) != filename(b),
{
    let stem = |p: Seq<char>| if p.len() == 0 {
        SENTINEL_MOD@
    } else {
        p
    };
    if a.len() == 0 && b.len() == 0 {
        assert(a =~= b);
    }
    if mod_filename(a) == mod_filename(b) {
        lemma_same_suffix(stem(a), stem(b), ".mod.rs"@);
    }
    if filename(a) == filename(b) {
        lemma_same_suffix(stem(a), stem(b), ".rs"@);
    }
}

/// The stem of the files that a `.proto` file's content goes to.
pub open spec fn stem(proto_path: Seq<char>) -> Seq<char> {
    let without_ext = if text::ends(proto_path, ".proto"@) {
        proto_path.take(proto_path.len() - ".proto"@.len())
    } else {
        proto_path
    };
    text::replaced(without_ext, '/', "."@)
}

/// The stem of the files that a `.proto` file's content goes to:
/// `google/protobuf/timestamp.proto` goes to `google.protobuf.timestamp`.
pub fn proto_path_to_stem(proto_path: &str) -> (r: String)
    ensures
        r@ == stem(proto_path@),
{
    let without_ext: &str = match strip_suffix(proto_path, ".proto") {
        Some(rest) => rest,
        None => proto_path,
    };
    replace_char(without_ext, '/', ".")
}

/// Normalizing a normalized entry changes nothing, unless it begins with white
/// space, which a leading dot can hide.
pub proof fn law_normalizing_twice_is_normalizing_once(value: Seq<char>)
    requires
        has_no_empty_component(stripped_entry(value)),
        !text::is_space(stripped_entry(value)[0]),
    ensures
        stripped_entry(stripped_entry(value)) == stripped_entry(value),
{
    reveal_strlit(".");
    let entry = stripped_entry(value);
    text::lemma_find_from(entry, "."@, 0);
    assert(text::pieces(entry, "."@)[0].len() > 0);
    assert(entry.len() > 0);
    assert(!text::begins(entry, "."@)) by {
        if text::begins(entry, "."@) {
            assert(text::occurs_at(entry, "."@, 0));
            assert(text::find_from(entry, "."@, 0) == Some(0int));
            assert(text::pieces(entry, "."@)[0].len() == 0);
        }
    }
    let once = text::trimmed(value);
    text::lemma_trim_back_ends(text::trim_front(value));
    assert(entry.last() == once.last());
    assert(text::trim_front(entry) == entry);
    assert(text::trim_back(entry) == entry);
}

} // verus!
