//! The lines of a module tree.
//!
//! The text of a tree is that of its lines. What pulls a file in, and what opens
//! and closes a module, can be counted there.
use vstd::prelude::*;
use crate::codegen::module_tree;
use crate::codegen::module_tree::{
    are_children, children, files_here, is_child, tree_text, blocks_text, under, weight,
    IncludeMode, Leaf,
};
use crate::codegen::names;
use crate::codegen::text;

verus! {

/// A line of a module tree, or the few that open a module.
pub enum TreeLine {
    /// A file is pulled in, within the modules on a path.
    Pull {
        /// The modules around the line, from the outermost in.
        path: Seq<Seq<char>>,
        /// The file.
        file: Seq<char>,
    },
    /// The last module on a path is opened, within the others.
    Open {
        /// The modules, from the outermost in.
        path: Seq<Seq<char>>,
    },
    /// The last module on a path is closed.
    Close {
        /// The modules, from the outermost in.
        path: Seq<Seq<char>>,
    },
}

/// The path of a line.
pub open spec fn line_path(line: TreeLine) -> Seq<Seq<char>> {
    match line {
        TreeLine::Pull { path, file } => path,
        TreeLine::Open { path } => path,
        TreeLine::Close { path } => path,
    }
}

/// The lines that pull files in.
pub open spec fn pulls(files: Seq<Seq<char>>, path: Seq<Seq<char>>) -> Seq<TreeLine> {
    files.map_values(|file: Seq<char>| TreeLine::Pull { path, file })
}

/// The lines of the tree below the last module on a path.
pub open spec fn tree_lines(leaves: Seq<Leaf>, path: Seq<Seq<char>>) -> Seq<TreeLine>
    decreases weight(leaves), children(leaves).len() + 1,
{
    pulls(files_here(leaves), path) + blocks_lines(leaves, children(leaves).len(), path)
}

/// The lines of the first `n` modules below the last module on a path.
pub open spec fn blocks_lines(leaves: Seq<Leaf>, n: nat, path: Seq<Seq<char>>) -> Seq<TreeLine>
    decreases weight(leaves), n,
{
    if n == 0 {
        Seq::empty()
    } else {
        let name = children(leaves)[n - 1];
        let inner = under(leaves, name);
        blocks_lines(leaves, (n - 1) as nat, path) + seq![TreeLine::Open { path: path.push(name) }]
            + if weight(inner) < weight(leaves) {
            tree_lines(inner, path.push(name))
        } else {
            Seq::empty()
        } + seq![TreeLine::Close { path: path.push(name) }]
    }
}

/// The text of a line.
pub open spec fn line_text(line: TreeLine, mode: IncludeMode<'_>, lints: Seq<char>) -> Seq<char> {
    match line {
        TreeLine::Pull { path, file } => module_tree::include_line(
            text::repeated("    "@, path.len()),
            mode,
            file,
        ),
        TreeLine::Open { path } => module_tree::open_lines(
            text::repeated("    "@, (path.len() - 1) as nat),
            lints,
            path.last(),
        ),
        TreeLine::Close { path } => text::repeated("    "@, (path.len() - 1) as nat) + "}\n"@,
    }
}

/// The text of some lines.
pub open spec fn lines_text(
    lines: Seq<TreeLine>,
    mode: IncludeMode<'_>,
    lints: Seq<char>,
) -> Seq<char>
    decreases lines.len(),
{
    if lines.len() == 0 {
        Seq::empty()
    } else {
        lines_text(lines.drop_last(), mode, lints) + line_text(lines.last(), mode, lints)
    }
}

/// How many times something stands in a list.
pub open spec fn times<T>(list: Seq<T>, x: T) -> nat
    decreases list.len(),
{
    if list.len() == 0 {
        0
    } else {
        times(list.drop_last(), x) + if list.last() == x {
            1nat
        } else {
            0nat
        }
    }
}

/// The modules that are open after some lines, if each line stands within the
/// modules that it says.
pub open spec fn open_after(lines: Seq<TreeLine>, open: Seq<Seq<char>>) -> Option<Seq<Seq<char>>>
    decreases lines.len(),
{
    if lines.len() == 0 {
        Some(open)
    } else {
        match open_after(lines.drop_last(), open) {
            None => None,
            Some(now) => match lines.last() {
                TreeLine::Pull { path, file } => if path == now {
                    Some(now)
                } else {
                    None
                },
                TreeLine::Open { path } => if path.len() > 0 && path.drop_last() == now {
                    Some(path)
                } else {
                    None
                },
                TreeLine::Close { path } => if path.len() > 0 && path == now {
                    Some(path.drop_last())
                } else {
                    None
                },
            },
        }
    }
}

/// Some package's path begins with the modules on a path.
pub open spec fn goes_through(leaves: Seq<Leaf>, path: Seq<Seq<char>>) -> bool {
    exists|i: int|
        0 <= i < leaves.len() && path.len() <= (#[trigger] leaves[i]).path.len()
            && leaves[i].path.take(path.len() as int) == path
}

proof fn lemma_times_add<T>(a: Seq<T>, b: Seq<T>, x: T)
    ensures
        times(a + b, x) == times(a, x) + times(b, x),
    decreases b.len(),
{
    if b.len() == 0 {
        assert(a + b =~= a);
    } else {
        assert((a + b).drop_last() =~= a + b.drop_last());
        assert((a + b).last() == b.last());
        lemma_times_add(a, b.drop_last(), x);
    }
}

proof fn lemma_times_one<T>(y: T, x: T)
    ensures
        times(seq![y], x) == if y == x {
            1nat
        } else {
            0nat
        },
{
    reveal_with_fuel(times, 2);
    assert(seq![y].last() == y);
}

/// What stands in a list stands there at least once.
proof fn lemma_times_some<T>(list: Seq<T>, x: T)
    ensures
        times(list, x) > 0 <==> list.contains(x),
    decreases list.len(),
{
    if list.len() > 0 {
        let init = list.drop_last();
        lemma_times_some(init, x);
        if init.contains(x) {
            let i = init.index_of(x);
            assert(list[i] == x);
        }
        if list.contains(x) {
            let i = list.index_of(x);
            if i < init.len() {
                assert(init[i] == x);
            }
        }
        if list.last() == x {
            assert(list[list.len() - 1] == x);
        }
    }
}

proof fn lemma_lines_text_add(
    a: Seq<TreeLine>,
    b: Seq<TreeLine>,
    mode: IncludeMode<'_>,
    lints: Seq<char>,
)
    ensures
        lines_text(a + b, mode, lints) == lines_text(a, mode, lints) + lines_text(b, mode, lints),
    decreases b.len(),
{
    if b.len() == 0 {
        assert(a + b =~= a);
        assert(lines_text(a, mode, lints) + Seq::<char>::empty() =~= lines_text(a, mode, lints));
    } else {
        let init = b.drop_last();
        assert((a + b).drop_last() =~= a + init);
        assert((a + b).last() == b.last());
        lemma_lines_text_add(a, init, mode, lints);
        let (x, y, z) = (
            lines_text(a, mode, lints),
            lines_text(init, mode, lints),
            line_text(b.last(), mode, lints),
        );
        assert(x + y + z =~= x + (y + z));
    }
}

proof fn lemma_lines_text_one(line: TreeLine, mode: IncludeMode<'_>, lints: Seq<char>)
    ensures
        lines_text(seq![line], mode, lints) == line_text(line, mode, lints),
{
    reveal_with_fuel(lines_text, 2);
    assert(Seq::<char>::empty() + line_text(line, mode, lints) =~= line_text(line, mode, lints));
}

proof fn lemma_pulls_text(
    files: Seq<Seq<char>>,
    path: Seq<Seq<char>>,
    mode: IncludeMode<'_>,
    lints: Seq<char>,
)
    ensures
        lines_text(pulls(files, path), mode, lints) == module_tree::include_lines(
            text::repeated("    "@, path.len()),
            mode,
            files,
        ),
    decreases files.len(),
{
    if files.len() > 0 {
        lemma_pulls_text(files.drop_last(), path, mode, lints);
        assert(pulls(files, path).drop_last() =~= pulls(files.drop_last(), path));
    }
}

/// The text of a tree is that of its lines.
pub proof fn law_tree_is_its_lines(
    leaves: Seq<Leaf>,
    path: Seq<Seq<char>>,
    mode: IncludeMode<'_>,
    lints: Seq<char>,
)
    ensures
        tree_text(leaves, path.len(), mode, lints) == lines_text(
            tree_lines(leaves, path),
            mode,
            lints,
        ),
    decreases weight(leaves), children(leaves).len() + 1,
{
    let n = children(leaves).len();
    lemma_pulls_text(files_here(leaves), path, mode, lints);
    lemma_lines_text_add(
        pulls(files_here(leaves), path),
        blocks_lines(leaves, n, path),
        mode,
        lints,
    );
    lemma_blocks_are_lines(leaves, n, path, mode, lints);
}

proof fn lemma_blocks_are_lines(
    leaves: Seq<Leaf>,
    n: nat,
    path: Seq<Seq<char>>,
    mode: IncludeMode<'_>,
    lints: Seq<char>,
)
    ensures
        blocks_text(leaves, n, path.len(), mode, lints) == lines_text(
            blocks_lines(leaves, n, path),
            mode,
            lints,
        ),
    decreases weight(leaves), n,
{
    if n > 0 {
        let name = children(leaves)[n - 1];
        let inner = under(leaves, name);
        let inside = path.push(name);
        let before = blocks_lines(leaves, (n - 1) as nat, path);
        let open = TreeLine::Open { path: inside };
        let close = TreeLine::Close { path: inside };
        let tree = if weight(inner) < weight(leaves) {
            tree_lines(inner, inside)
        } else {
            Seq::empty()
        };
        lemma_blocks_are_lines(leaves, (n - 1) as nat, path, mode, lints);
        if weight(inner) < weight(leaves) {
            law_tree_is_its_lines(inner, inside, mode, lints);
        }
        lemma_lines_text_add(before, seq![open], mode, lints);
        lemma_lines_text_add(before + seq![open], tree, mode, lints);
        lemma_lines_text_add(before + seq![open] + tree, seq![close], mode, lints);
        lemma_lines_text_one(open, mode, lints);
        lemma_lines_text_one(close, mode, lints);
        assert(inside.last() == name);
        let indent = text::repeated("    "@, path.len());
        let front = lines_text(before + seq![open] + tree, mode, lints);
        assert(front + (indent + "}\n"@) =~= front + indent + "}\n"@);
    }
}

proof fn lemma_open_add(a: Seq<TreeLine>, b: Seq<TreeLine>, open: Seq<Seq<char>>)
    ensures
        open_after(a + b, open) == match open_after(a, open) {
            None => None,
            Some(now) => open_after(b, now),
        },
    decreases b.len(),
{
    if b.len() == 0 {
        assert(a + b =~= a);
    } else {
        assert((a + b).drop_last() =~= a + b.drop_last());
        assert((a + b).last() == b.last());
        lemma_open_add(a, b.drop_last(), open);
    }
}

proof fn lemma_pulls_nest(files: Seq<Seq<char>>, path: Seq<Seq<char>>)
    ensures
        open_after(pulls(files, path), path) == Some(path),
    decreases files.len(),
{
    if files.len() > 0 {
        lemma_pulls_nest(files.drop_last(), path);
        assert(pulls(files, path).drop_last() =~= pulls(files.drop_last(), path));
    }
}

/// Every line of a tree stands within the modules that it says, and every module
/// that is opened is closed again.
pub proof fn law_lines_nest(leaves: Seq<Leaf>, path: Seq<Seq<char>>)
    ensures
        open_after(tree_lines(leaves, path), path) == Some(path),
    decreases weight(leaves), children(leaves).len() + 1,
{
    let n = children(leaves).len();
    lemma_pulls_nest(files_here(leaves), path);
    lemma_open_add(pulls(files_here(leaves), path), blocks_lines(leaves, n, path), path);
    lemma_blocks_nest(leaves, n, path);
}

proof fn lemma_blocks_nest(leaves: Seq<Leaf>, n: nat, path: Seq<Seq<char>>)
    ensures
        open_after(blocks_lines(leaves, n, path), path) == Some(path),
    decreases weight(leaves), n,
{
    if n > 0 {
        let name = children(leaves)[n - 1];
        let inner = under(leaves, name);
        let inside = path.push(name);
        let before = blocks_lines(leaves, (n - 1) as nat, path);
        let open = TreeLine::Open { path: inside };
        let close = TreeLine::Close { path: inside };
        let tree = if weight(inner) < weight(leaves) {
            tree_lines(inner, inside)
        } else {
            Seq::empty()
        };
        lemma_blocks_nest(leaves, (n - 1) as nat, path);
        if weight(inner) < weight(leaves) {
            law_lines_nest(inner, inside);
        }
        assert(inside.drop_last() =~= path);
        lemma_open_add(before, seq![open], path);
        lemma_open_add(before + seq![open], tree, path);
        lemma_open_add(before + seq![open] + tree, seq![close], path);
        reveal_with_fuel(open_after, 2);
        assert(open_after(seq![open], path) == Some(inside));
        assert(open_after(seq![close], inside) == Some(path));
    }
}

/// A path begins with another.
spec fn begins(path: Seq<Seq<char>>, with: Seq<Seq<char>>) -> bool {
    with.len() <= path.len() && path.take(with.len() as int) == with
}

/// What begins with a longer path begins with the shorter one.
proof fn lemma_begins_push(path: Seq<Seq<char>>, with: Seq<Seq<char>>, name: Seq<char>)
    requires
        begins(path, with.push(name)),
    ensures
        begins(path, with),
        path[with.len() as int] == name,
        path.len() > with.len(),
{
    let longer = path.take(with.len() as int + 1);
    assert(path.take(with.len() as int) =~= longer.take(with.len() as int));
    assert(with.push(name).take(with.len() as int) =~= with);
    assert(longer[with.len() as int] == name);
}

/// The lines of a tree stand within the modules around it.
proof fn lemma_tree_paths(leaves: Seq<Leaf>, path: Seq<Seq<char>>, line: TreeLine)
    requires
        tree_lines(leaves, path).contains(line),
    ensures
        begins(line_path(line), path),
        line is Open ==> line_path(line).len() > path.len(),
    decreases weight(leaves), children(leaves).len() + 1,
{
    let n = children(leaves).len();
    let here = pulls(files_here(leaves), path);
    let lines = tree_lines(leaves, path);
    let i = lines.index_of(line);
    if i < here.len() {
        assert(here[i] == line);
        assert(path.take(path.len() as int) =~= path);
    } else {
        assert(blocks_lines(leaves, n, path)[i - here.len()] == line);
        lemma_blocks_paths(leaves, n, path, line);
    }
}

proof fn lemma_blocks_paths(leaves: Seq<Leaf>, n: nat, path: Seq<Seq<char>>, line: TreeLine)
    requires
        n <= children(leaves).len(),
        blocks_lines(leaves, n, path).contains(line),
    ensures
        begins(line_path(line), path),
        line_path(line).len() > path.len(),
        exists|k: int|
            0 <= k < n && line_path(line)[path.len() as int] == #[trigger] children(leaves)[k],
    decreases weight(leaves), n,
{
    if n > 0 {
        let name = children(leaves)[n - 1];
        let inner = under(leaves, name);
        let inside = path.push(name);
        let before = blocks_lines(leaves, (n - 1) as nat, path);
        let open = TreeLine::Open { path: inside };
        let close = TreeLine::Close { path: inside };
        let tree = if weight(inner) < weight(leaves) {
            tree_lines(inner, inside)
        } else {
            Seq::empty()
        };
        let lines = blocks_lines(leaves, n, path);
        let i = lines.index_of(line);
        assert(lines =~= before + seq![open] + tree + seq![close]);
        if i < before.len() {
            assert(before[i] == line);
            lemma_blocks_paths(leaves, (n - 1) as nat, path, line);
        } else {
            if i == before.len() || i == lines.len() - 1 {
                assert(line == open || line == close);
                assert(inside.take(inside.len() as int) =~= inside);
            } else {
                assert(tree[i - before.len() - 1] == line);
                lemma_tree_paths(inner, inside, line);
            }
            lemma_begins_push(line_path(line), path, name);
            assert(line_path(line)[path.len() as int] == children(leaves)[n - 1]);
        }
    }
}

/// The files here, counted.
proof fn lemma_times_here(leaves: Seq<Leaf>, file: Seq<char>)
    ensures
        times(files_here(leaves), file) == times(leaves, Leaf { file, path: Seq::empty() }),
    decreases leaves.len(),
{
    if leaves.len() > 0 {
        let init = leaves.drop_last();
        let last = leaves.last();
        lemma_times_here(init, file);
        if last.path.len() == 0 {
            assert(last.path =~= Seq::<Seq<char>>::empty());
            assert(files_here(init).push(last.file).drop_last() =~= files_here(init));
        }
    }
}

/// The leaves below a module, counted.
proof fn lemma_times_under(leaves: Seq<Leaf>, path: Seq<Seq<char>>, file: Seq<char>)
    requires
        path.len() > 0,
    ensures
        times(under(leaves, path[0]), Leaf { file, path: path.skip(1) }) == times(
            leaves,
            Leaf { file, path },
        ),
    decreases leaves.len(),
{
    if leaves.len() > 0 {
        let init = leaves.drop_last();
        let last = leaves.last();
        let name = path[0];
        lemma_times_under(init, path, file);
        if last.path.len() > 0 && last.path[0] == name {
            let inner = Leaf { file: last.file, path: last.path.skip(1) };
            assert(under(init, name).push(inner).drop_last() =~= under(init, name));
            assert(last.path =~= seq![name] + last.path.skip(1));
            assert(path =~= seq![name] + path.skip(1));
        }
    }
}

/// The lines that pull files in, counted.
proof fn lemma_times_pulls(
    files: Seq<Seq<char>>,
    path: Seq<Seq<char>>,
    at: Seq<Seq<char>>,
    file: Seq<char>,
)
    ensures
        times(pulls(files, path), TreeLine::Pull { path: at, file }) == if at == path {
            times(files, file)
        } else {
            0
        },
    decreases files.len(),
{
    if files.len() > 0 {
        lemma_times_pulls(files.drop_last(), path, at, file);
        assert(pulls(files, path).drop_last() =~= pulls(files.drop_last(), path));
    }
}

/// One module more.
proof fn lemma_take_more(leaves: Seq<Leaf>, n: nat, x: Seq<char>)
    requires
        are_children(children(leaves), leaves),
        0 < n <= children(leaves).len(),
    ensures
        children(leaves).take(n as int).contains(x) <==> children(leaves).take(n - 1).contains(x)
            || x == children(leaves)[n - 1],
        !children(leaves).take(n - 1).contains(children(leaves)[n - 1]),
{
    let all = children(leaves);
    let front = all.take(n - 1);
    if front.contains(x) {
        let i = front.index_of(x);
        assert(all.take(n as int)[i] == x);
    }
    if all.take(n as int).contains(x) {
        let i = all.take(n as int).index_of(x);
        if i < n - 1 {
            assert(front[i] == x);
        }
    }
    if x == all[n - 1] {
        assert(all.take(n as int)[n - 1] == x);
    }
    if front.contains(all[n - 1]) {
        let i = front.index_of(all[n - 1]);
        assert(all.contains(all[n - 1]));
        names::lemma_index_unique(all, i, all[n - 1]);
        names::lemma_index_unique(all, n - 1, all[n - 1]);
    }
}

/// Below a module that is not on a path, no line is on that path.
proof fn lemma_elsewhere(leaves: Seq<Leaf>, path: Seq<Seq<char>>, name: Seq<char>, line: TreeLine)
    requires
        line_path(line).len() <= path.len() || line_path(line)[path.len() as int] != name,
    ensures
        times(tree_lines(leaves, path.push(name)), line) == 0,
{
    let lines = tree_lines(leaves, path.push(name));
    lemma_times_some(lines, line);
    if lines.contains(line) {
        lemma_tree_paths(leaves, path.push(name), line);
        lemma_begins_push(line_path(line), path, name);
    }
}

/// Within the modules around it, a tree pulls every file in as often as it is
/// among the leaves.
proof fn lemma_pull_count(
    leaves: Seq<Leaf>,
    path: Seq<Seq<char>>,
    rest: Seq<Seq<char>>,
    file: Seq<char>,
)
    ensures
        times(tree_lines(leaves, path), TreeLine::Pull { path: path + rest, file }) == times(
            leaves,
            Leaf { file, path: rest },
        ),
    decreases weight(leaves), children(leaves).len() + 1,
{
    let n = children(leaves).len();
    let line = TreeLine::Pull { path: path + rest, file };
    module_tree::law_modules_ascend(leaves);
    lemma_times_add(pulls(files_here(leaves), path), blocks_lines(leaves, n, path), line);
    lemma_times_pulls(files_here(leaves), path, path + rest, file);
    lemma_blocks_pull_count(leaves, n, path, rest, file);
    assert(children(leaves).take(n as int) =~= children(leaves));
    if rest.len() == 0 {
        assert(rest =~= Seq::<Seq<char>>::empty());
        assert(path + rest =~= path);
        lemma_times_here(leaves, file);
    } else {
        assert((path + rest).len() > path.len());
        if !children(leaves).contains(rest[0]) {
            let leaf = Leaf { file, path: rest };
            lemma_times_some(leaves, leaf);
            if leaves.contains(leaf) {
                let i = leaves.index_of(leaf);
                assert(leaves[i].path.len() > 0 && leaves[i].path[0] == rest[0]);
                assert(is_child(leaves, rest[0]));
            }
        }
    }
}

proof fn lemma_blocks_pull_count(
    leaves: Seq<Leaf>,
    n: nat,
    path: Seq<Seq<char>>,
    rest: Seq<Seq<char>>,
    file: Seq<char>,
)
    requires
        are_children(children(leaves), leaves),
        n <= children(leaves).len(),
    ensures
        times(blocks_lines(leaves, n, path), TreeLine::Pull { path: path + rest, file }) == if
        rest.len() > 0 && children(leaves).take(n as int).contains(rest[0]) {
            times(leaves, Leaf { file, path: rest })
        } else {
            0
        },
    decreases weight(leaves), n,
{
    if n > 0 {
        let line = TreeLine::Pull { path: path + rest, file };
        let name = children(leaves)[n - 1];
        let inner = under(leaves, name);
        let inside = path.push(name);
        let before = blocks_lines(leaves, (n - 1) as nat, path);
        let open = TreeLine::Open { path: inside };
        let close = TreeLine::Close { path: inside };
        let tree = tree_lines(inner, inside);
        assert(children(leaves).contains(name));
        module_tree::lemma_under_weight(leaves, name);
        lemma_blocks_pull_count(leaves, (n - 1) as nat, path, rest, file);
        lemma_times_add(before, seq![open], line);
        lemma_times_add(before + seq![open], tree, line);
        lemma_times_add(before + seq![open] + tree, seq![close], line);
        lemma_times_one(open, line);
        lemma_times_one(close, line);
        if rest.len() > 0 {
            lemma_take_more(leaves, n, rest[0]);
        }
        if rest.len() > 0 && rest[0] == name {
            assert(path + rest =~= inside + rest.skip(1));
            lemma_pull_count(inner, inside, rest.skip(1), file);
            lemma_times_under(leaves, rest, file);
        } else {
            lemma_elsewhere(inner, path, name, line);
        }
    }
}

/// A tree pulls in every entry exactly once: the line that pulls a file in,
/// within the modules of its package, stands there as often as the file and the
/// package are among the entries.
pub proof fn law_every_entry_is_pulled_in_once(leaves: Seq<Leaf>, leaf: Leaf)
    ensures
        times(
            tree_lines(leaves, Seq::empty()),
            TreeLine::Pull { path: leaf.path, file: leaf.file },
        ) == times(leaves, leaf),
{
    lemma_pull_count(leaves, Seq::empty(), leaf.path, leaf.file);
    assert(Seq::<Seq<char>>::empty() + leaf.path =~= leaf.path);
}

/// A path that goes on below a module goes through it.
proof fn lemma_through_under(leaves: Seq<Leaf>, path: Seq<Seq<char>>)
    requires
        path.len() > 0,
    ensures
        goes_through(leaves, path) <==> goes_through(under(leaves, path[0]), path.skip(1)),
        goes_through(under(leaves, path[0]), path.skip(1)) ==> is_child(leaves, path[0]),
        path.len() == 1 ==> (goes_through(leaves, path) <==> is_child(leaves, path[0])),
{
    let name = path[0];
    let inner = under(leaves, name);
    let rest = path.skip(1);
    let n = path.len() as int;
    if goes_through(leaves, path) {
        let i = choose|i: int|
            0 <= i < leaves.len() && path.len() <= (#[trigger] leaves[i]).path.len()
                && leaves[i].path.take(n) == path;
        let whole = leaves[i].path;
        assert(whole[0] == whole.take(n)[0]);
        let leaf = Leaf { file: leaves[i].file, path: whole.skip(1) };
        lemma_times_some(leaves, leaves[i]);
        lemma_times_under(leaves, whole, leaves[i].file);
        lemma_times_some(inner, leaf);
        let j = inner.index_of(leaf);
        assert(inner[j].path.take(n - 1) =~= whole.take(n).skip(1));
    }
    if goes_through(inner, rest) {
        let j = choose|j: int|
            0 <= j < inner.len() && rest.len() <= (#[trigger] inner[j]).path.len()
                && inner[j].path.take(rest.len() as int) == rest;
        let whole = seq![name] + inner[j].path;
        assert(whole.skip(1) =~= inner[j].path);
        lemma_times_some(inner, inner[j]);
        lemma_times_under(leaves, whole, inner[j].file);
        let leaf = Leaf { file: inner[j].file, path: whole };
        lemma_times_some(leaves, leaf);
        let i = leaves.index_of(leaf);
        assert(leaves[i].path.take(n) =~= seq![name] + inner[j].path.take(n - 1));
        assert(path =~= seq![name] + rest);
        assert(leaves[i].path[0] == name);
    }
    if path.len() == 1 && is_child(leaves, name) {
        let i = choose|i: int|
            0 <= i < leaves.len() && (#[trigger] leaves[i]).path.len() > 0 && leaves[i].path[0]
                == name;
        assert(leaves[i].path.take(1) =~= path);
    }
}

proof fn lemma_no_opens(files: Seq<Seq<char>>, path: Seq<Seq<char>>, at: Seq<Seq<char>>)
    ensures
        times(pulls(files, path), TreeLine::Open { path: at }) == 0,
    decreases files.len(),
{
    if files.len() > 0 {
        lemma_no_opens(files.drop_last(), path, at);
        assert(pulls(files, path).drop_last() =~= pulls(files.drop_last(), path));
    }
}

/// Within the modules around it, a tree opens every module on some path once, and
/// no other.
proof fn lemma_open_count(leaves: Seq<Leaf>, path: Seq<Seq<char>>, rest: Seq<Seq<char>>)
    ensures
        times(tree_lines(leaves, path), TreeLine::Open { path: path + rest }) == if rest.len() > 0
            && goes_through(leaves, rest) {
            1nat
        } else {
            0nat
        },
    decreases weight(leaves), children(leaves).len() + 1,
{
    let n = children(leaves).len();
    let line = TreeLine::Open { path: path + rest };
    module_tree::law_modules_ascend(leaves);
    lemma_times_add(pulls(files_here(leaves), path), blocks_lines(leaves, n, path), line);
    lemma_no_opens(files_here(leaves), path, path + rest);
    lemma_blocks_open_count(leaves, n, path, rest);
    assert(children(leaves).take(n as int) =~= children(leaves));
    if rest.len() > 0 {
        lemma_through_under(leaves, rest);
        assert(children(leaves).contains(rest[0]) <==> is_child(leaves, rest[0]));
    }
}

proof fn lemma_blocks_open_count(
    leaves: Seq<Leaf>,
    n: nat,
    path: Seq<Seq<char>>,
    rest: Seq<Seq<char>>,
)
    requires
        are_children(children(leaves), leaves),
        n <= children(leaves).len(),
    ensures
        times(blocks_lines(leaves, n, path), TreeLine::Open { path: path + rest }) == if rest.len()
            > 0 && children(leaves).take(n as int).contains(rest[0]) && goes_through(leaves, rest) {
            1nat
        } else {
            0nat
        },
    decreases weight(leaves), n,
{
    if n > 0 {
        let line = TreeLine::Open { path: path + rest };
        let name = children(leaves)[n - 1];
        let inner = under(leaves, name);
        let inside = path.push(name);
        let before = blocks_lines(leaves, (n - 1) as nat, path);
        let open = TreeLine::Open { path: inside };
        let close = TreeLine::Close { path: inside };
        let tree = tree_lines(inner, inside);
        assert(children(leaves).contains(name));
        module_tree::lemma_under_weight(leaves, name);
        lemma_blocks_open_count(leaves, (n - 1) as nat, path, rest);
        lemma_times_add(before, seq![open], line);
        lemma_times_add(before + seq![open], tree, line);
        lemma_times_add(before + seq![open] + tree, seq![close], line);
        lemma_times_one(open, line);
        lemma_times_one(close, line);
        if rest.len() > 0 {
            lemma_take_more(leaves, n, rest[0]);
        }
        if rest.len() > 0 && rest[0] == name {
            assert(path + rest =~= inside + rest.skip(1));
            lemma_open_count(inner, inside, rest.skip(1));
            lemma_through_under(leaves, rest);
            if rest.len() == 1 {
                assert(path + rest =~= inside);
                assert(is_child(leaves, name));
            } else {
                assert((path + rest).len() != inside.len());
            }
        } else {
            lemma_elsewhere(inner, path, name, line);
            if path + rest == inside {
                assert((path + rest)[path.len() as int] == name);
            }
        }
    }
}

/// A tree has one block for every module on some package's path, however many
/// packages share it, and no other block.
pub proof fn law_every_module_has_one_block(leaves: Seq<Leaf>, path: Seq<Seq<char>>)
    ensures
        times(tree_lines(leaves, Seq::empty()), TreeLine::Open { path }) == if path.len() > 0
            && goes_through(leaves, path) {
            1nat
        } else {
            0nat
        },
{
    lemma_open_count(leaves, Seq::empty(), path);
    assert(Seq::<Seq<char>>::empty() + path =~= path);
}

} // verus!
