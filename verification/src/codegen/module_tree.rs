//! The module tree that a build pulls its packages together in.
//!
//! A package is a path of modules. The tree has a `pub mod` block for every
//! module on such a path, in the order of their names, with the package's files
//! pulled in where the path ends.
use vstd::prelude::*;
use vstd::string::*;
use crate::codegen::idents;
use crate::codegen::idents::escape_mod_ident;
use crate::codegen::names;
use crate::codegen::names::NameMap;
use crate::codegen::text;
use crate::codegen::text::{repeat, same, split};

verus! {

/// The lints that generated code is exempt from, as an attribute lists them.
pub const ALLOW_LINTS: [&'static str; 9] = [
    "non_camel_case_types",
    "dead_code",
    "unused_imports",
    "unused_qualifications",
    "clippy::derivable_impls",
    "clippy::match_single_binding",
    "clippy::uninlined_format_args",
    "clippy::doc_lazy_continuation",
    "clippy::module_inception",
];

/// How a file is pulled in.
#[derive(Debug, Clone, Copy)]
pub enum IncludeMode<'a> {
    /// By a path relative to the file that pulls it in, behind this prefix.
    Relative(&'a str),
    /// From a build script's output directory.
    OutDir,
}

/// The lints, in a row.
pub open spec fn lints_text() -> Seq<char> {
    text::joined(text::views(ALLOW_LINTS@), ", "@)
}

/// The lints, in a row.
pub fn lints() -> (r: String)
    ensures
        r@ == lints_text(),
{
    let mut names: Vec<String> = Vec::new();
    let mut i: usize = 0;
    while i < 9
        invariant
            i <= 9,
            text::texts(names@) == text::views(ALLOW_LINTS@).take(i as int),
        decreases 9 - i,
    {
        let ghost before = names@;
        names.push(ALLOW_LINTS[i].to_owned());
        assert(text::texts(names@) =~= text::texts(before).push(ALLOW_LINTS@[i as int]@));
        assert(text::texts(names@) =~= text::views(ALLOW_LINTS@).take(i as int + 1));
        i = i + 1;
    }
    assert(text::views(ALLOW_LINTS@).take(9) =~= text::views(ALLOW_LINTS@));
    text::join(&names, ", ")
}

/// The modules on a package's path.
pub open spec fn segments(package: Seq<char>) -> Seq<Seq<char>> {
    if package.len() == 0 {
        Seq::empty()
    } else {
        text::pieces(package, "."@)
    }
}

/// A file, and what is left of its package's path from some module down.
pub struct Leaf {
    /// The file.
    pub file: Seq<char>,
    /// The modules on the path.
    pub path: Seq<Seq<char>>,
}

/// The files whose path ends here, in order.
pub open spec fn files_here(leaves: Seq<Leaf>) -> Seq<Seq<char>>
    decreases leaves.len(),
{
    if leaves.len() == 0 {
        Seq::empty()
    } else if leaves.last().path.len() == 0 {
        files_here(leaves.drop_last()).push(leaves.last().file)
    } else {
        files_here(leaves.drop_last())
    }
}

/// Some path goes on through module `name`.
pub open spec fn is_child(leaves: Seq<Leaf>, name: Seq<char>) -> bool {
    exists|i: int|
        0 <= i < leaves.len() && (#[trigger] leaves[i]).path.len() > 0 && leaves[i].path[0] == name
}

/// `names` is every module that some path goes on through, in order.
pub open spec fn are_children(names: Seq<Seq<char>>, leaves: Seq<Leaf>) -> bool {
    &&& names::ascending(names)
    &&& forall|name: Seq<char>| #[trigger] names.contains(name) <==> is_child(leaves, name)
}

/// Every module that some path goes on through, in order.
pub open spec fn children(leaves: Seq<Leaf>) -> Seq<Seq<char>> {
    choose|names: Seq<Seq<char>>| are_children(names, leaves)
}

/// The leaves whose path goes on through module `name`, from that module down.
pub open spec fn under(leaves: Seq<Leaf>, name: Seq<char>) -> Seq<Leaf>
    decreases leaves.len(),
{
    if leaves.len() == 0 {
        Seq::empty()
    } else {
        let last = leaves.last();
        let rest = under(leaves.drop_last(), name);
        if last.path.len() > 0 && last.path[0] == name {
            rest.push(Leaf { file: last.file, path: last.path.skip(1) })
        } else {
            rest
        }
    }
}

/// How many modules are left on all paths together.
pub open spec fn weight(leaves: Seq<Leaf>) -> nat
    decreases leaves.len(),
{
    if leaves.len() == 0 {
        0
    } else {
        weight(leaves.drop_last()) + leaves.last().path.len()
    }
}

/// The line that pulls a file in.
pub open spec fn include_line(indent: Seq<char>, mode: IncludeMode<'_>, file: Seq<char>) -> Seq<
    char,
> {
    match mode {
        IncludeMode::Relative(prefix) => indent + "include!(\""@ + prefix@ + file + "\");\n"@,
        IncludeMode::OutDir => indent + "include!(concat!(env!(\"OUT_DIR\"), \"/"@ + file
            + "\"));\n"@,
    }
}

/// The lines that pull some files in.
pub open spec fn include_lines(
    indent: Seq<char>,
    mode: IncludeMode<'_>,
    files: Seq<Seq<char>>,
) -> Seq<char>
    decreases files.len(),
{
    if files.len() == 0 {
        Seq::empty()
    } else {
        include_lines(indent, mode, files.drop_last()) + include_line(indent, mode, files.last())
    }
}

/// The opening lines of a module.
pub open spec fn open_lines(indent: Seq<char>, lints: Seq<char>, name: Seq<char>) -> Seq<char> {
    indent + "#[allow("@ + lints + ")]\n"@ + indent + "pub mod "@ + idents::mod_ident(name)
        + " {\n"@ + indent + "    use super::*;\n"@
}

/// The tree below some module, at a depth: the files whose path ends there, and
/// then a block for each module below it.
pub open spec fn tree_text(
    leaves: Seq<Leaf>,
    depth: nat,
    mode: IncludeMode<'_>,
    lints: Seq<char>,
) -> Seq<char>
    decreases weight(leaves), children(leaves).len() + 1,
{
    include_lines(text::repeated("    "@, depth), mode, files_here(leaves)) + blocks_text(
        leaves,
        children(leaves).len(),
        depth,
        mode,
        lints,
    )
}

/// The blocks of the first `n` modules below some module.
pub open spec fn blocks_text(
    leaves: Seq<Leaf>,
    n: nat,
    depth: nat,
    mode: IncludeMode<'_>,
    lints: Seq<char>,
) -> Seq<char>
    decreases weight(leaves), n,
{
    if n == 0 {
        Seq::empty()
    } else {
        let indent = text::repeated("    "@, depth);
        let name = children(leaves)[n - 1];
        let inner = under(leaves, name);
        blocks_text(leaves, (n - 1) as nat, depth, mode, lints) + open_lines(indent, lints, name)
            + if weight(inner) < weight(leaves) {
            tree_text(inner, depth + 1, mode, lints)
        } else {
            Seq::empty()
        } + indent + "}\n"@
    }
}

/// The module tree of some packages' files.
pub open spec fn module_tree_text(
    leaves: Seq<Leaf>,
    mode: IncludeMode<'_>,
    emit_inner_allow: bool,
) -> Seq<char> {
    "// @generated by buffa-codegen. DO NOT EDIT.\n"@ + if emit_inner_allow {
        "#![allow("@ + lints_text() + ")]\n"@
    } else {
        Seq::empty()
    } + "\n"@ + tree_text(leaves, 0, mode, lints_text())
}

/// The leaves that `(file, package)` entries stand for.
pub open spec fn leaves_of(entries: Seq<(String, String)>) -> Seq<Leaf> {
    entries.map_values(
        |e: (String, String)| Leaf { file: e.0@, path: segments(e.1@) },
    )
}

/// The modules below are what the leaves say, however they were found.
proof fn lemma_children(names: Seq<Seq<char>>, leaves: Seq<Leaf>)
    requires
        are_children(names, leaves),
    ensures
        children(leaves) == names,
{
    names::lemma_ascending_unique(children(leaves), names);
}

/// Going down through a module that is there leaves fewer modules.
pub(crate) proof fn lemma_under_weight(leaves: Seq<Leaf>, name: Seq<char>)
    ensures
        weight(under(leaves, name)) <= weight(leaves),
        is_child(leaves, name) ==> weight(under(leaves, name)) < weight(leaves),
    decreases leaves.len(),
{
    if leaves.len() > 0 {
        let init = leaves.drop_last();
        let last = leaves.last();
        lemma_under_weight(init, name);
        let inner = under(init, name);
        if last.path.len() > 0 && last.path[0] == name {
            let leaf = Leaf { file: last.file, path: last.path.skip(1) };
            assert(inner.push(leaf).drop_last() =~= inner);
        }
        if is_child(leaves, name) {
            let i = choose|i: int|
                0 <= i < leaves.len() && (#[trigger] leaves[i]).path.len() > 0 && leaves[i].path[0]
                    == name;
            if i < leaves.len() - 1 {
                assert(init[i] == leaves[i]);
            }
        }
    }
}

/// A file, and the modules on its package's path.
struct Entry<'a> {
    file: &'a str,
    path: Vec<&'a str>,
}

/// What is left of some entries from a depth down.
spec fn leaves_at(entries: Seq<&Entry<'_>>, depth: nat) -> Seq<Leaf> {
    entries.map_values(
        |e: &Entry<'_>| Leaf { file: e.file@, path: text::views(e.path@).skip(depth as int) },
    )
}

/// Every path is at least as long as the depth.
spec fn reach(entries: Seq<&Entry<'_>>, depth: nat) -> bool {
    forall|i: int| 0 <= i < entries.len() ==> (#[trigger] entries[i]).path@.len() >= depth
}

/// The modules that paths go on through at a depth.
fn child_names(entries: &Vec<&Entry<'_>>, depth: usize) -> (names: NameMap<()>)
    requires
        reach(entries@, depth as nat),
    ensures
        names.wf(),
        names.keys() == children(leaves_at(entries@, depth as nat)),
        are_children(names.keys(), leaves_at(entries@, depth as nat)),
{
    let ghost leaves = leaves_at(entries@, depth as nat);
    let mut names: NameMap<()> = NameMap::new();
    let mut i: usize = 0;
    while i < entries.len()
        invariant
            i <= entries@.len(),
            reach(entries@, depth as nat),
            leaves == leaves_at(entries@, depth as nat),
            names.wf(),
            forall|name: Seq<char>| #[trigger]
                names.has(name) <==> is_child(leaves.take(i as int), name),
        decreases entries@.len() - i,
    {
        let ghost before = names.keys();
        let entry: &Entry<'_> = entries[i];
        proof {
            assert(leaves[i as int].path =~= text::views(entry.path@).skip(depth as int));
            assert forall|name: Seq<char>| is_child(leaves.take(i as int + 1), name) <==> is_child(
                leaves.take(i as int),
                name,
            ) || (leaves[i as int].path.len() > 0 && leaves[i as int].path[0] == name) by {
                if is_child(leaves.take(i as int), name) {
                    let k = choose|k: int|
                        0 <= k < i && (#[trigger] leaves.take(i as int)[k]).path.len() > 0
                            && leaves.take(i as int)[k].path[0] == name;
                    assert(leaves.take(i as int + 1)[k] == leaves.take(i as int)[k]);
                }
                if leaves[i as int].path.len() > 0 && leaves[i as int].path[0] == name {
                    assert(leaves.take(i as int + 1)[i as int] == leaves[i as int]);
                }
                if is_child(leaves.take(i as int + 1), name) {
                    let k = choose|k: int|
                        0 <= k < i + 1 && (#[trigger] leaves.take(i as int + 1)[k]).path.len() > 0
                            && leaves.take(i as int + 1)[k].path[0] == name;
                    if k < i {
                        assert(leaves.take(i as int)[k] == leaves.take(i as int + 1)[k]);
                    }
                }
            }
        }
        if entry.path.len() > depth {
            assert(leaves[i as int].path[0] == entry.path@[depth as int]@);
            names.insert_if_absent(entry.path[depth], ());
        }
        i = i + 1;
    }
    proof {
        assert(leaves.take(leaves.len() as int) =~= leaves);
        assert forall|name: Seq<char>| #[trigger] names.keys().contains(name) <==> is_child(
            leaves,
            name,
        ) by {
            assert(names.has(name) <==> is_child(leaves, name));
        }
        lemma_children(names.keys(), leaves);
    }
    names
}

/// The entries whose path goes on through a module at a depth.
fn entries_under<'a, 'b>(entries: &Vec<&'b Entry<'a>>, depth: usize, name: &str) -> (r: Vec<
    &'b Entry<'a>,
>)
    requires
        reach(entries@, depth as nat),
        depth < usize::MAX,
    ensures
        reach(r@, depth as nat + 1),
        leaves_at(r@, depth as nat + 1) == under(leaves_at(entries@, depth as nat), name@),
{
    let ghost leaves = leaves_at(entries@, depth as nat);
    let mut r: Vec<&'b Entry<'a>> = Vec::new();
    let mut i: usize = 0;
    assert(leaves.take(0) =~= Seq::<Leaf>::empty());
    assert(leaves_at(r@, depth as nat + 1) =~= Seq::<Leaf>::empty());
    while i < entries.len()
        invariant
            i <= entries@.len(),
            depth < usize::MAX,
            reach(entries@, depth as nat),
            reach(r@, depth as nat + 1),
            leaves == leaves_at(entries@, depth as nat),
            leaves_at(r@, depth as nat + 1) == under(leaves.take(i as int), name@),
        decreases entries@.len() - i,
    {
        let entry: &'b Entry<'a> = entries[i];
        proof {
            assert(leaves.take(i as int + 1).drop_last() =~= leaves.take(i as int));
            assert(leaves.take(i as int + 1).last() == leaves[i as int]);
        }
        let ghost before = r@;
        if entry.path.len() > depth && same(entry.path[depth], name) {
            r.push(entry);
            proof {
                let path = text::views(entry.path@);
                assert(path.skip(depth as int).skip(1) =~= path.skip(depth as int + 1));
                assert(path.skip(depth as int)[0] == entry.path@[depth as int]@);
                assert(leaves_at(r@, depth as nat + 1) =~= leaves_at(before, depth as nat + 1).push(
                    Leaf { file: entry.file@, path: path.skip(depth as int + 1) },
                ));
            }
        } else {
            assert(leaves[i as int].path.len() > 0 ==> leaves[i as int].path[0]
                == entry.path@[depth as int]@);
        }
        i = i + 1;
    }
    assert(leaves.take(leaves.len() as int) =~= leaves);
    r
}

/// Write the lines that pull in the files whose path ends at a depth.
fn write_includes(
    out: &mut String,
    entries: &Vec<&Entry<'_>>,
    depth: usize,
    indent: &str,
    mode: IncludeMode<'_>,
)
    requires
        reach(entries@, depth as nat),
    ensures
        final(out)@ == old(out)@ + include_lines(
            indent@,
            mode,
            files_here(leaves_at(entries@, depth as nat)),
        ),
{
    let ghost leaves = leaves_at(entries@, depth as nat);
    let ghost start = out@;
    let mut i: usize = 0;
    assert(leaves.take(0) =~= Seq::<Leaf>::empty());
    assert(start + include_lines(indent@, mode, files_here(leaves.take(0))) =~= start);
    while i < entries.len()
        invariant
            i <= entries@.len(),
            reach(entries@, depth as nat),
            leaves == leaves_at(entries@, depth as nat),
            out@ == start + include_lines(indent@, mode, files_here(leaves.take(i as int))),
        decreases entries@.len() - i,
    {
        let entry: &Entry<'_> = entries[i];
        proof {
            assert(leaves.take(i as int + 1).drop_last() =~= leaves.take(i as int));
            assert(leaves.take(i as int + 1).last() == leaves[i as int]);
            assert(leaves[i as int].path.len() == entry.path@.len() - depth);
        }
        let ghost before = out@;
        let ghost so_far = files_here(leaves.take(i as int));
        if entry.path.len() == depth {
            out.append(indent);
            match mode {
                IncludeMode::Relative(prefix) => {
                    out.append("include!(\"");
                    out.append(prefix);
                    out.append(entry.file);
                    out.append("\");\n");
                },
                IncludeMode::OutDir => {
                    out.append("include!(concat!(env!(\"OUT_DIR\"), \"/");
                    out.append(entry.file);
                    out.append("\"));\n");
                },
            }
            proof {
                assert(out@ =~= before + include_line(indent@, mode, entry.file@));
                assert(so_far.push(entry.file@).drop_last() =~= so_far);
                assert(out@ =~= start + include_lines(indent@, mode, so_far.push(entry.file@)));
            }
        }
        i = i + 1;
    }
    assert(leaves.take(leaves.len() as int) =~= leaves);
}

/// Write the opening lines of a module.
fn write_open(out: &mut String, indent: &str, lints: &str, name: &str)
    ensures
        final(out)@ == old(out)@ + open_lines(indent@, lints@, name@),
{
    let ghost before = out@;
    out.append(indent);
    out.append("#[allow(");
    out.append(lints);
    out.append(")]\n");
    out.append(indent);
    out.append("pub mod ");
    out.append(escape_mod_ident(name).as_str());
    out.append(" {\n");
    out.append(indent);
    out.append("    use super::*;\n");
    assert(out@ =~= before + open_lines(indent@, lints@, name@));
}

/// The entries whose path goes on through a module that some path goes on
/// through.
fn entries_in_child<'a>(entries: &Vec<&'a Entry<'a>>, depth: usize, name: &str) -> (r: Vec<
    &'a Entry<'a>,
>)
    requires
        reach(entries@, depth as nat),
        is_child(leaves_at(entries@, depth as nat), name@),
    ensures
        depth < usize::MAX,
        reach(r@, depth as nat + 1),
        leaves_at(r@, depth as nat + 1) == under(leaves_at(entries@, depth as nat), name@),
{
    let ghost leaves = leaves_at(entries@, depth as nat);
    let ghost w = choose|w: int|
        0 <= w < leaves.len() && (#[trigger] leaves[w]).path.len() > 0 && leaves[w].path[0] == name@;
    assert(depth < entries@[w].path@.len() <= usize::MAX) by {
        assert(entries@[w].path@.len() == entries@[w].path.len());
    }
    entries_under(entries, depth, name)
}

/// Write the tree below some module.
fn write_tree(
    out: &mut String,
    entries: &Vec<&Entry<'_>>,
    depth: usize,
    mode: IncludeMode<'_>,
    lints: &str,
)
    requires
        reach(entries@, depth as nat),
    ensures
        final(out)@ == old(out)@ + tree_text(
            leaves_at(entries@, depth as nat),
            depth as nat,
            mode,
            lints@,
        ),
    decreases weight(leaves_at(entries@, depth as nat)),
{
    let ghost leaves = leaves_at(entries@, depth as nat);
    let ghost start = out@;
    let indent: String = repeat("    ", depth);
    write_includes(out, entries, depth, indent.as_str(), mode);
    let ghost includes = out@;
    let names: NameMap<()> = child_names(entries, depth);
    let mut i: usize = 0;
    assert(out@ =~= includes + blocks_text(leaves, 0, depth as nat, mode, lints@));
    while i < names.len()
        invariant
            i <= names.keys().len(),
            names.wf(),
            reach(entries@, depth as nat),
            leaves == leaves_at(entries@, depth as nat),
            names.keys() == children(leaves),
            are_children(names.keys(), leaves),
            indent@ == text::repeated("    "@, depth as nat),
            out@ == includes + blocks_text(leaves, i as nat, depth as nat, mode, lints@),
        decreases names.keys().len() - i,
    {
        let ghost before = out@;
        let name: &str = names.key(i);
        proof {
            assert(names.keys().contains(name@));
            lemma_under_weight(leaves, name@);
        }
        let inner: Vec<&Entry<'_>> = entries_in_child(entries, depth, name);
        write_open(out, indent.as_str(), lints, name);
        write_tree(out, &inner, depth + 1, mode, lints);
        out.append(indent.as_str());
        out.append("}\n");
        proof {
            let opened = open_lines(indent@, lints@, name@);
            let tree = tree_text(under(leaves, name@), depth as nat + 1, mode, lints@);
            let blocks = blocks_text(leaves, i as nat, depth as nat, mode, lints@);
            assert(out@ == includes + blocks + opened + tree + indent@ + "}\n"@);
            assert(includes + blocks + opened + tree + indent@ + "}\n"@ =~= includes + (blocks
                + opened + tree + indent@ + "}\n"@));
        }
        i = i + 1;
    }
    assert(out@ =~= start + tree_text(leaves, depth as nat, mode, lints@));
}

/// Render the module tree of some `(file, package)` entries.
///
/// With `emit_inner_allow` the lints are allowed for the whole file, which is
/// valid where the output is a module file of its own, and not where it is
/// pulled into another.
pub fn generate_module_tree(
    entries: &Vec<(String, String)>,
    include_mode: IncludeMode<'_>,
    emit_inner_allow: bool,
) -> (r: String)
    ensures
        r@ == module_tree_text(leaves_of(entries@), include_mode, emit_inner_allow),
{
    proof {
        reveal_strlit(".");
    }
    let mut owned: Vec<Entry<'_>> = Vec::new();
    let mut i: usize = 0;
    while i < entries.len()
        invariant
            i <= entries@.len(),
            "."@.len() == 1,
            owned@.len() == i,
            forall|j: int|
                0 <= j < i ==> (#[trigger] owned@[j]).file@ == entries@[j].0@ && text::views(
                    owned@[j].path@,
                ) == segments(entries@[j].1@),
        decreases entries@.len() - i,
    {
        let package: &str = entries[i].1.as_str();
        let path: Vec<&str> = if package.is_empty() {
            Vec::new()
        } else {
            split(package, ".")
        };
        assert(package@.len() == 0 ==> text::views(path@) =~= Seq::<Seq<char>>::empty());
        owned.push(Entry { file: entries[i].0.as_str(), path });
        i = i + 1;
    }
    let mut all: Vec<&Entry<'_>> = Vec::new();
    let mut k: usize = 0;
    while k < owned.len()
        invariant
            k <= owned@.len(),
            all@.len() == k,
            forall|j: int| 0 <= j < k ==> *(#[trigger] all@[j]) == owned@[j],
        decreases owned@.len() - k,
    {
        all.push(&owned[k]);
        k = k + 1;
    }
    proof {
        assert forall|j: int| 0 <= j < all@.len() implies #[trigger] leaves_at(all@, 0)[j]
            == leaves_of(entries@)[j] by {
            assert(*all@[j] == owned@[j]);
            assert(text::views(owned@[j].path@).skip(0) =~= text::views(owned@[j].path@));
        }
        assert(leaves_at(all@, 0) =~= leaves_of(entries@));
    }
    let lints: String = lints();
    let mut out: String = "// @generated by buffa-codegen. DO NOT EDIT.\n".to_owned();
    let ghost header = out@;
    if emit_inner_allow {
        out.append("#![allow(");
        out.append(lints.as_str());
        out.append(")]\n");
        assert(out@ =~= header + ("#![allow("@ + lints@ + ")]\n"@));
    } else {
        assert(out@ =~= header + Seq::<char>::empty());
    }
    out.append("\n");
    write_tree(&mut out, &all, 0, include_mode, lints.as_str());
    out
}

/// The modules whose blocks stand side by side ascend by name, and are those that
/// some path goes on through.
pub proof fn law_modules_ascend(leaves: Seq<Leaf>)
    ensures
        are_children(children(leaves), leaves),
    decreases leaves.len(),
{
    if leaves.len() == 0 {
        assert(are_children(Seq::empty(), leaves));
    } else {
        let init = leaves.drop_last();
        let last = leaves.last();
        law_modules_ascend(init);
        let before = children(init);
        let names = if last.path.len() == 0 {
            before
        } else {
            names::lemma_ascending_with(before, last.path[0])
        };
        assert forall|name: Seq<char>| #[trigger] names.contains(name) <==> is_child(
            leaves,
            name,
        ) by {
            assert(before.contains(name) <==> is_child(init, name));
            if is_child(init, name) {
                let i = choose|i: int|
                    0 <= i < init.len() && (#[trigger] init[i]).path.len() > 0 && init[i].path[0]
                        == name;
                assert(leaves[i] == init[i]);
            }
            if is_child(leaves, name) {
                let i = choose|i: int|
                    0 <= i < leaves.len() && (#[trigger] leaves[i]).path.len() > 0
                        && leaves[i].path[0] == name;
                if i < init.len() {
                    assert(init[i] == leaves[i]);
                }
            }
            if last.path.len() > 0 && last.path[0] == name {
                assert(leaves[leaves.len() - 1] == last);
            }
        }
        assert(are_children(names, leaves));
    }
}

/// The files of one package, in order.
pub open spec fn files_with(leaves: Seq<Leaf>, path: Seq<Seq<char>>) -> Seq<Seq<char>>
    decreases leaves.len(),
{
    if leaves.len() == 0 {
        Seq::empty()
    } else if leaves.last().path == path {
        files_with(leaves.drop_last(), path).push(leaves.last().file)
    } else {
        files_with(leaves.drop_last(), path)
    }
}

/// The files here are those of the package that ends here.
proof fn lemma_files_here(leaves: Seq<Leaf>)
    ensures
        files_here(leaves) == files_with(leaves, Seq::empty()),
    decreases leaves.len(),
{
    if leaves.len() > 0 {
        lemma_files_here(leaves.drop_last());
        if leaves.last().path.len() == 0 {
            assert(leaves.last().path =~= Seq::<Seq<char>>::empty());
        }
    }
}

/// The packages below a module are those whose path begins with it.
proof fn lemma_files_under(leaves: Seq<Leaf>, name: Seq<char>, path: Seq<Seq<char>>)
    ensures
        files_with(under(leaves, name), path) == files_with(leaves, seq![name] + path),
    decreases leaves.len(),
{
    if leaves.len() > 0 {
        let init = leaves.drop_last();
        let last = leaves.last();
        lemma_files_under(init, name, path);
        if last.path.len() > 0 && last.path[0] == name {
            let inner = Leaf { file: last.file, path: last.path.skip(1) };
            assert(under(init, name).push(inner).drop_last() =~= under(init, name));
            assert(last.path =~= seq![name] + last.path.skip(1));
            if last.path == seq![name] + path {
                assert((seq![name] + path).skip(1) =~= path);
            }
        } else {
            assert(last.path != seq![name] + path) by {
                assert((seq![name] + path)[0] == name);
            }
        }
    }
}

/// A package is there where it has files.
proof fn lemma_files_with_some(leaves: Seq<Leaf>, path: Seq<Seq<char>>)
    ensures
        files_with(leaves, path).len() > 0 <==> exists|i: int|
            0 <= i < leaves.len() && (#[trigger] leaves[i]).path == path,
    decreases leaves.len(),
{
    if leaves.len() > 0 {
        let init = leaves.drop_last();
        lemma_files_with_some(init, path);
        if leaves.last().path == path {
            assert(leaves[leaves.len() - 1].path == path);
        }
        if exists|i: int| 0 <= i < init.len() && (#[trigger] init[i]).path == path {
            let i = choose|i: int| 0 <= i < init.len() && (#[trigger] init[i]).path == path;
            assert(leaves[i].path == path);
        }
        if exists|i: int| 0 <= i < leaves.len() && (#[trigger] leaves[i]).path == path {
            let i = choose|i: int| 0 <= i < leaves.len() && (#[trigger] leaves[i]).path == path;
            if i < init.len() {
                assert(init[i].path == path);
            }
        }
    }
}

/// Every package has the same files in the same order.
pub open spec fn same_packages(a: Seq<Leaf>, b: Seq<Leaf>) -> bool {
    forall|path: Seq<Seq<char>>| #[trigger] files_with(a, path) == files_with(b, path)
}

/// Leaves with the same packages go on through the same modules.
proof fn lemma_same_child(a: Seq<Leaf>, b: Seq<Leaf>, name: Seq<char>)
    requires
        same_packages(a, b),
        is_child(a, name),
    ensures
        is_child(b, name),
{
    let i = choose|i: int|
        0 <= i < a.len() && (#[trigger] a[i]).path.len() > 0 && a[i].path[0] == name;
    let path = a[i].path;
    lemma_files_with_some(a, path);
    lemma_files_with_some(b, path);
    assert(files_with(a, path) == files_with(b, path));
    let j = choose|j: int| 0 <= j < b.len() && (#[trigger] b[j]).path == path;
    assert(b[j].path[0] == name);
}

/// The tree is decided by which files each package has, in order. How the
/// packages themselves are ordered does not matter.
pub proof fn law_order_of_packages_does_not_matter(
    a: Seq<Leaf>,
    b: Seq<Leaf>,
    depth: nat,
    mode: IncludeMode<'_>,
    lints: Seq<char>,
)
    requires
        same_packages(a, b),
    ensures
        tree_text(a, depth, mode, lints) == tree_text(b, depth, mode, lints),
    decreases weight(a), children(a).len() + 1,
{
    lemma_files_here(a);
    lemma_files_here(b);
    assert(files_with(a, Seq::empty()) == files_with(b, Seq::empty()));
    law_modules_ascend(a);
    law_modules_ascend(b);
    assert forall|name: Seq<char>| #[trigger] children(a).contains(name) <==> children(b).contains(
        name,
    ) by {
        assert(children(a).contains(name) <==> is_child(a, name));
        assert(children(b).contains(name) <==> is_child(b, name));
        if is_child(a, name) {
            lemma_same_child(a, b, name);
        }
        if is_child(b, name) {
            lemma_same_child(b, a, name);
        }
    }
    names::lemma_ascending_unique(children(a), children(b));
    lemma_same_blocks(a, b, children(a).len(), depth, mode, lints);
}

/// The same, of the blocks below a module.
proof fn lemma_same_blocks(
    a: Seq<Leaf>,
    b: Seq<Leaf>,
    n: nat,
    depth: nat,
    mode: IncludeMode<'_>,
    lints: Seq<char>,
)
    requires
        same_packages(a, b),
        children(a) == children(b),
        are_children(children(a), a),
        are_children(children(b), b),
        n <= children(a).len(),
    ensures
        blocks_text(a, n, depth, mode, lints) == blocks_text(b, n, depth, mode, lints),
    decreases weight(a), n,
{
    if n > 0 {
        let name = children(a)[n - 1];
        lemma_same_blocks(a, b, (n - 1) as nat, depth, mode, lints);
        assert(children(a).contains(name));
        assert(children(b).contains(name));
        lemma_under_weight(a, name);
        lemma_under_weight(b, name);
        let (x, y) = (under(a, name), under(b, name));
        assert forall|path: Seq<Seq<char>>| #[trigger] files_with(x, path) == files_with(
            y,
            path,
        ) by {
            lemma_files_under(a, name, path);
            lemma_files_under(b, name, path);
            assert(files_with(a, seq![name] + path) == files_with(b, seq![name] + path));
        }
        law_order_of_packages_does_not_matter(x, y, depth + 1, mode, lints);
    }
}

} // verus!
