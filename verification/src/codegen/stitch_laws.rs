//! Where everything stands in the code of a package.
//!
//! The code of a package is read as a list of items: modules that open and close,
//! and the pieces of code that were handed in. Every piece stands in the module of
//! its kind.
use vstd::prelude::*;
use vstd::string::*;
use crate::codegen::config::CodeGenConfig;
use crate::codegen::content;
use crate::codegen::content::RegistryText;
use crate::codegen::gates;
use crate::codegen::module_tree;
use crate::codegen::stitch;
use crate::codegen::stitch::{PackagePieces, SectionsText};

verus! {

/// A part of a package's code.
pub enum CodeItem {
    /// The last module on a path opens, within the others.
    Open {
        /// The modules, from the outermost in.
        path: Seq<Seq<char>>,
        /// The attributes of the module.
        attributes: Seq<char>,
    },
    /// The last module on a path closes.
    Close {
        /// The modules, from the outermost in.
        path: Seq<Seq<char>>,
    },
    /// A piece of code that was handed in.
    Piece {
        /// The modules around it, from the outermost in.
        path: Seq<Seq<char>>,
        /// The code.
        code: Seq<char>,
    },
    /// A line break.
    Break,
}

/// The text of an item.
pub open spec fn item_text(item: CodeItem) -> Seq<char> {
    match item {
        CodeItem::Open { path, attributes } => attributes + "pub mod "@ + path.last()
            + " { #[allow(unused_imports)] use super::*; "@,
        CodeItem::Close { path } => " }"@,
        CodeItem::Piece { path, code } => code,
        CodeItem::Break => "\n"@,
    }
}

/// The text of items.
pub open spec fn items_text(items: Seq<CodeItem>) -> Seq<char> {
    items.map_values(|item: CodeItem| item_text(item)).flatten_alt()
}

/// The modules that are open behind some items, if each stands within the modules
/// that it says.
pub open spec fn open_behind(items: Seq<CodeItem>, open: Seq<Seq<char>>) -> Option<Seq<Seq<char>>>
    decreases items.len(),
{
    if items.len() == 0 {
        Some(open)
    } else {
        match open_behind(items.drop_last(), open) {
            None => None,
            Some(now) => match items.last() {
                CodeItem::Open { path, attributes } => if path.len() > 0 && path.drop_last()
                    == now {
                    Some(path)
                } else {
                    None
                },
                CodeItem::Close { path } => if path.len() > 0 && path == now {
                    Some(path.drop_last())
                } else {
                    None
                },
                CodeItem::Piece { path, code } => if path == now {
                    Some(now)
                } else {
                    None
                },
                CodeItem::Break => Some(now),
            },
        }
    }
}

/// The pieces that stand directly in a module, in order.
pub open spec fn pieces_in(items: Seq<CodeItem>, path: Seq<Seq<char>>) -> Seq<Seq<char>> {
    items.filter(|item: CodeItem| item is Piece && item->Piece_path == path).map_values(
        |item: CodeItem| item->code,
    )
}

/// Those of some pieces that have anything to them.
pub open spec fn solid(parts: Seq<Seq<char>>) -> Seq<Seq<char>> {
    parts.filter(|p: Seq<char>| p.len() > 0)
}

/// The reserved module.
pub open spec fn reserved() -> Seq<Seq<char>> {
    seq!["__buffa"@]
}

/// An item is a piece in one of the package's modules, or opens one of them with
/// the attributes that it has: the reserved module is exempt from lints, and views
/// are behind their crate feature.
pub open spec fn in_its_place(config: CodeGenConfig, item: CodeItem) -> bool {
    match item {
        CodeItem::Open { path, attributes } => {
            ||| path == reserved() && attributes == "#[allow("@ + module_tree::lints_text()
                + ")] "@
            ||| (path == reserved().push("view"@) || path == reserved().push("lazy_view"@))
                && attributes == gates::gated(Seq::empty(), config.views_gate())
            ||| (path == reserved().push("oneof"@) || path == reserved().push("ext"@) || path
                == reserved().push("view"@).push("oneof"@)) && attributes.len() == 0
        },
        CodeItem::Piece { path, code } => {
            ||| path.len() == 0
            ||| path == reserved()
            ||| path == reserved().push("view"@)
            ||| path == reserved().push("lazy_view"@)
            ||| path == reserved().push("oneof"@)
            ||| path == reserved().push("ext"@)
            ||| path == reserved().push("view"@).push("oneof"@)
        },
        _ => true,
    }
}

/// Items that make up part of the code within the modules on a path.
spec fn good(config: CodeGenConfig, items: Seq<CodeItem>, path: Seq<Seq<char>>) -> bool {
    &&& open_behind(items, path) == Some(path)
    &&& forall|i: int| 0 <= i < items.len() ==> in_its_place(config, #[trigger] items[i])
    &&& forall|i: int| 0 <= i < items.len() ==> item_text(#[trigger] items[i]).len() > 0
}

proof fn lemma_text_add(a: Seq<CodeItem>, b: Seq<CodeItem>)
    ensures
        items_text(a + b) == items_text(a) + items_text(b),
    decreases b.len(),
{
    let f = |item: CodeItem| item_text(item);
    if b.len() == 0 {
        assert(a + b =~= a);
        assert(b.map_values(f) =~= Seq::<Seq<char>>::empty());
        assert(items_text(a) + items_text(b) =~= items_text(a));
    } else {
        lemma_text_add(a, b.drop_last());
        let all = (a + b).map_values(f);
        assert(all.drop_last() =~= (a + b.drop_last()).map_values(f));
        assert(all.last() == f(b.last()));
        assert(b.map_values(f).drop_last() =~= b.drop_last().map_values(f));
        assert(items_text(a + b) =~= items_text(a) + items_text(b));
    }
}

proof fn lemma_open_add(a: Seq<CodeItem>, b: Seq<CodeItem>, open: Seq<Seq<char>>)
    ensures
        open_behind(a + b, open) == match open_behind(a, open) {
            None => None,
            Some(now) => open_behind(b, now),
        },
    decreases b.len(),
{
    if b.len() == 0 {
        assert(a + b =~= a);
    } else {
        assert((a + b).drop_last() =~= a + b.drop_last());
        assert((a + b).last() == b.last());
        lemma_open_add(a, b.drop_last(), open);
    }
}

proof fn lemma_pieces_add(a: Seq<CodeItem>, b: Seq<CodeItem>, path: Seq<Seq<char>>)
    ensures
        pieces_in(a + b, path) == pieces_in(a, path) + pieces_in(b, path),
{
    let here = |item: CodeItem| item is Piece && item->Piece_path == path;
    Seq::filter_distributes_over_add(a, b, here);
    assert(pieces_in(a + b, path) =~= pieces_in(a, path) + pieces_in(b, path));
}

proof fn lemma_good_add(
    config: CodeGenConfig,
    a: Seq<CodeItem>,
    b: Seq<CodeItem>,
    path: Seq<Seq<char>>,
)
    requires
        good(config, a, path),
        good(config, b, path),
    ensures
        good(config, a + b, path),
        items_text(a + b) == items_text(a) + items_text(b),
        forall|q: Seq<Seq<char>>| #[trigger]
            pieces_in(a + b, q) == pieces_in(a, q) + pieces_in(b, q),
{
    lemma_text_add(a, b);
    lemma_open_add(a, b, path);
    assert forall|q: Seq<Seq<char>>| #[trigger] pieces_in(a + b, q) == pieces_in(a, q) + pieces_in(
        b,
        q,
    ) by {
        lemma_pieces_add(a, b, q);
    }
    assert forall|i: int| 0 <= i < (a + b).len() implies in_its_place(config, #[trigger] (a + b)[i])
        && item_text((a + b)[i]).len() > 0 by {
        if i < a.len() {
            assert((a + b)[i] == a[i]);
        } else {
            assert((a + b)[i] == b[i - a.len()]);
        }
    }
}

/// Nothing at all.
proof fn lemma_good_none(config: CodeGenConfig, path: Seq<Seq<char>>)
    ensures
        good(config, Seq::empty(), path),
        items_text(Seq::empty()) == Seq::<char>::empty(),
        forall|q: Seq<Seq<char>>| #[trigger]
            pieces_in(Seq::empty(), q) == Seq::<Seq<char>>::empty(),
{
    let none = Seq::<CodeItem>::empty();
    assert(none.map_values(|item: CodeItem| item_text(item)) =~= Seq::<Seq<char>>::empty());
    assert forall|q: Seq<Seq<char>>| #[trigger] pieces_in(none, q) == Seq::<
        Seq<char>,
    >::empty() by {
        reveal(Seq::filter);
        assert(pieces_in(none, q) =~= Seq::<Seq<char>>::empty());
    }
}

/// One item.
proof fn lemma_one(item: CodeItem)
    ensures
        items_text(seq![item]) == item_text(item),
        forall|q: Seq<Seq<char>>| #[trigger]
            pieces_in(seq![item], q) == if item is Piece && item->Piece_path == q {
                seq![item->code]
            } else {
                Seq::empty()
            },
{
    let f = |item: CodeItem| item_text(item);
    let one = seq![item];
    assert(one.map_values(f) =~= seq![item_text(item)]);
    assert(seq![item_text(item)].drop_last() =~= Seq::<Seq<char>>::empty());
    reveal_with_fuel(Seq::flatten_alt, 2);
    assert(items_text(one) =~= item_text(item));
    assert forall|q: Seq<Seq<char>>| #[trigger] pieces_in(one, q) == if item is Piece
        && item->Piece_path == q {
        seq![item->code]
    } else {
        Seq::empty()
    } by {
        reveal_with_fuel(Seq::filter, 2);
        assert(one.drop_last() =~= Seq::<CodeItem>::empty());
        assert(one.last() == item);
        let here = |item: CodeItem| item is Piece && item->Piece_path == q;
        if here(item) {
            assert(one.filter(here) =~= one);
            assert(pieces_in(one, q) =~= seq![item->code]);
        } else {
            assert(one.filter(here) =~= Seq::<CodeItem>::empty());
            assert(pieces_in(one, q) =~= Seq::<Seq<char>>::empty());
        }
    }
}

/// A line break.
proof fn lemma_good_break(config: CodeGenConfig, path: Seq<Seq<char>>) -> (items: Seq<CodeItem>)
    ensures
        items == seq![CodeItem::Break],
        good(config, items, path),
        items_text(items) == "\n"@,
        forall|q: Seq<Seq<char>>| #[trigger] pieces_in(items, q) == Seq::<Seq<char>>::empty(),
{
    reveal_strlit("\n");
    let items = seq![CodeItem::Break];
    lemma_one(CodeItem::Break);
    reveal_with_fuel(open_behind, 2);
    assert(items.drop_last() =~= Seq::<CodeItem>::empty());
    items
}

/// Pieces, each on a line of its own.
proof fn lemma_good_lines(
    config: CodeGenConfig,
    parts: Seq<Seq<char>>,
    path: Seq<Seq<char>>,
) -> (items: Seq<CodeItem>)
    requires
        in_its_place(config, CodeItem::Piece { path, code: Seq::empty() }),
    ensures
        good(config, items, path),
        items_text(items) == stitch::lines(parts),
        pieces_in(items, path) == solid(parts),
        forall|q: Seq<Seq<char>>|
            q != path ==> #[trigger] pieces_in(items, q) == Seq::<Seq<char>>::empty(),
    decreases parts.len(),
{
    reveal(Seq::filter);
    if parts.len() == 0 {
        lemma_good_none(config, path);
        assert(solid(parts) =~= Seq::<Seq<char>>::empty());
        Seq::empty()
    } else {
        let before = lemma_good_lines(config, parts.drop_last(), path);
        let last = parts.last();
        if last.len() == 0 {
            before
        } else {
            let piece = CodeItem::Piece { path, code: last };
            let one = seq![piece];
            lemma_one(piece);
            reveal_with_fuel(open_behind, 2);
            assert(one.drop_last() =~= Seq::<CodeItem>::empty());
            assert(good(config, one, path));
            let end = lemma_good_break(config, path);
            lemma_good_add(config, before, one, path);
            lemma_good_add(config, before + one, end, path);
            let items = before + one + end;
            assert(items_text(items) =~= stitch::lines(parts));
            assert(solid(parts) =~= solid(parts.drop_last()).push(last));
            assert(pieces_in(items, path) =~= solid(parts));
            assert forall|q: Seq<Seq<char>>| q != path implies #[trigger] pieces_in(items, q)
                == Seq::<Seq<char>>::empty() by {
                assert(pieces_in(before + one, q) =~= Seq::<Seq<char>>::empty());
                assert(pieces_in(items, q) =~= Seq::<Seq<char>>::empty());
            }
            items
        }
    }
}

/// A module around items.
proof fn lemma_good_module(
    config: CodeGenConfig,
    body: Seq<CodeItem>,
    path: Seq<Seq<char>>,
    name: Seq<char>,
    attributes: Seq<char>,
) -> (items: Seq<CodeItem>)
    requires
        good(config, body, path.push(name)),
        in_its_place(config, CodeItem::Open { path: path.push(name), attributes }),
    ensures
        good(config, items, path),
        items_text(items) == attributes + stitch::submodule(name, items_text(body)),
        forall|q: Seq<Seq<char>>| #[trigger] pieces_in(items, q) == pieces_in(body, q),
{
    reveal_strlit("pub mod ");
    reveal_strlit(" }");
    let inside = path.push(name);
    let open = CodeItem::Open { path: inside, attributes };
    let close = CodeItem::Close { path: inside };
    let (a, b) = (seq![open], seq![close]);
    lemma_one(open);
    lemma_one(close);
    reveal_with_fuel(open_behind, 2);
    assert(a.drop_last() =~= Seq::<CodeItem>::empty());
    assert(b.drop_last() =~= Seq::<CodeItem>::empty());
    assert(inside.drop_last() =~= path);
    assert(inside.last() == name);
    let items = a + body + b;
    lemma_open_add(a, body, path);
    lemma_open_add(a + body, b, path);
    lemma_text_add(a, body);
    lemma_text_add(a + body, b);
    assert(items_text(items) =~= attributes + stitch::submodule(name, items_text(body)));
    assert forall|i: int| 0 <= i < items.len() implies in_its_place(config, #[trigger] items[i])
        && item_text(items[i]).len() > 0 by {
        if 0 < i < items.len() - 1 {
            assert(items[i] == body[i - 1]);
        }
    }
    assert forall|q: Seq<Seq<char>>| #[trigger] pieces_in(items, q) == pieces_in(body, q) by {
        lemma_pieces_add(a, body, q);
        lemma_pieces_add(a + body, b, q);
        assert(pieces_in(items, q) =~= pieces_in(body, q));
    }
    items
}

/// A module of some pieces on a line of its own, where there are any pieces.
proof fn lemma_good_section(
    config: CodeGenConfig,
    parts: Seq<Seq<char>>,
    path: Seq<Seq<char>>,
    name: Seq<char>,
    attributes: Seq<char>,
) -> (items: Seq<CodeItem>)
    requires
        in_its_place(config, CodeItem::Piece { path: path.push(name), code: Seq::empty() }),
        in_its_place(config, CodeItem::Open { path: path.push(name), attributes }),
    ensures
        good(config, items, path),
        items_text(items) == if parts.len() == 0 {
            Seq::empty()
        } else {
            attributes + stitch::section_mod(name, parts)
        },
        pieces_in(items, path.push(name)) == solid(parts),
        forall|q: Seq<Seq<char>>|
            q != path.push(name) ==> #[trigger] pieces_in(items, q) == Seq::<Seq<char>>::empty(),
{
    if parts.len() == 0 {
        reveal(Seq::filter);
        lemma_good_none(config, path);
        assert(solid(parts) =~= Seq::<Seq<char>>::empty());
        Seq::empty()
    } else {
        let body = lemma_good_lines(config, parts, path.push(name));
        lemma_good_module(config, body, path, name, attributes)
    }
}

/// Items with a line break behind them, where there are any.
proof fn lemma_good_glued(
    config: CodeGenConfig,
    before: Seq<CodeItem>,
    own: Seq<CodeItem>,
    path: Seq<Seq<char>>,
) -> (items: Seq<CodeItem>)
    requires
        good(config, before, path),
        good(config, own, path),
    ensures
        good(config, items, path),
        items_text(items) == content::glued(items_text(before), items_text(own)),
        forall|q: Seq<Seq<char>>| #[trigger]
            pieces_in(items, q) == pieces_in(before, q) + pieces_in(own, q),
{
    if items_text(own).len() == 0 {
        lemma_empty_text(config, own, path);
        lemma_good_none(config, path);
        assert(own =~= Seq::<CodeItem>::empty());
        assert forall|q: Seq<Seq<char>>| #[trigger] pieces_in(before, q) == pieces_in(before, q)
            + pieces_in(own, q) by {
            assert(pieces_in(own, q) == Seq::<Seq<char>>::empty());
            assert(pieces_in(before, q) + pieces_in(own, q) =~= pieces_in(before, q));
        }
        before
    } else {
        let end = lemma_good_break(config, path);
        lemma_good_add(config, before, own, path);
        lemma_good_add(config, before + own, end, path);
        let items = before + own + end;
        assert forall|q: Seq<Seq<char>>| #[trigger] pieces_in(items, q) == pieces_in(before, q)
            + pieces_in(own, q) by {
            assert(pieces_in(items, q) == pieces_in(before + own, q) + pieces_in(end, q));
            assert(pieces_in(items, q) =~= pieces_in(before, q) + pieces_in(own, q));
        }
        items
    }
}

/// Items without text are none.
proof fn lemma_empty_text(config: CodeGenConfig, items: Seq<CodeItem>, path: Seq<Seq<char>>)
    requires
        good(config, items, path),
        items_text(items).len() == 0,
    ensures
        items.len() == 0,
{
    if items.len() > 0 {
        let all = items.map_values(|item: CodeItem| item_text(item));
        assert(all.last() == item_text(items[items.len() - 1]));
    }
}

/// The pieces that stand directly in the reserved module: the registering function,
/// reflection and the impls of custom types.
pub open spec fn reserved_pieces(
    config: CodeGenConfig,
    reg: RegistryText,
    pieces: PackagePieces,
    custom_elem_impls: Seq<char>,
) -> Seq<Seq<char>> {
    seq![
        stitch::register_fn(config, reg),
        if !config.generate_reflection {
            Seq::empty()
        } else if config.shared_descriptor_pool {
            gates::gated(pieces.shared_pool@, config.reflect_gate())
        } else {
            gates::gated(pieces.embedded_pool@, config.reflect_gate())
        },
        custom_elem_impls,
    ]
}

/// What stands in the reserved module.
#[verifier::rlimit(60)]
#[verifier::spinoff_prover]
proof fn lemma_good_reserved(
    config: CodeGenConfig,
    sections: SectionsText,
    reg: RegistryText,
    pieces: PackagePieces,
    custom_elem_impls: Seq<char>,
) -> (items: Seq<CodeItem>)
    ensures
        good(config, items, reserved()),
        items_text(items) == stitch::ancillary(config, sections, reg, pieces, custom_elem_impls),
        pieces_in(items, reserved()) == solid(
            reserved_pieces(config, reg, pieces, custom_elem_impls),
        ),
        pieces_in(items, reserved().push("view"@)) == if config.generate_views {
            solid(sections.view)
        } else {
            Seq::empty()
        },
        pieces_in(items, reserved().push("view"@).push("oneof"@)) == if config.generate_views
            && sections.view.len() > 0 {
            solid(sections.view_oneof)
        } else {
            Seq::empty()
        },
        pieces_in(items, reserved().push("lazy_view"@)) == solid(sections.lazy_view),
        pieces_in(items, reserved().push("oneof"@)) == solid(sections.oneof),
        pieces_in(items, reserved().push("ext"@)) == solid(sections.ext),
        pieces_in(items, Seq::empty()) == Seq::<Seq<char>>::empty(),
{
    reveal_strlit("view");
    reveal_strlit("oneof");
    reveal_strlit("lazy_view");
    reveal_strlit("ext");
    let b = reserved();
    let view = b.push("view"@);
    let deep = view.push("oneof"@);
    let lazy = b.push("lazy_view"@);
    let oneof = b.push("oneof"@);
    let ext = b.push("ext"@);
    assert(view.last() == "view"@ && lazy.last() == "lazy_view"@ && oneof.last() == "oneof"@
        && ext.last() == "ext"@);
    let gate = gates::gated(Seq::empty(), config.views_gate());
    lemma_good_none(config, b);
    let views = lemma_good_views(config, sections);
    let lazy_views = lemma_good_section(config, sections.lazy_view, b, "lazy_view"@, gate);
    lemma_gate_in_front(stitch::section_mod("lazy_view"@, sections.lazy_view), config.views_gate());
    assert(items_text(lazy_views) == stitch::lazy_view_mod(config, sections));
    let oneofs = lemma_good_section(config, sections.oneof, b, "oneof"@, Seq::empty());
    assert(items_text(oneofs) =~= stitch::section_mod("oneof"@, sections.oneof));
    let exts = lemma_good_section(config, sections.ext, b, "ext"@, Seq::empty());
    assert(items_text(exts) =~= stitch::section_mod("ext"@, sections.ext));
    let parts = reserved_pieces(config, reg, pieces, custom_elem_impls);
    let direct = lemma_good_lines(config, parts, b);
    let one = lemma_good_glued(config, Seq::empty(), views, b);
    let two = lemma_good_glued(config, one, lazy_views, b);
    let three = lemma_good_glued(config, two, oneofs, b);
    let four = lemma_good_glued(config, three, exts, b);
    lemma_good_add(config, four, direct, b);
    let items = four + direct;
    // The text.
    let x = items_text(four);
    let (r, f, c) = (parts[0], parts[1], parts[2]);
    lemma_lines_of_three(r, f, c);
    assert(f == stitch::reflect_mod(config, pieces)) by {
        lemma_gate_in_front(pieces.shared_pool@, config.reflect_gate());
    }
    assert(seq![r, f, c] =~= parts);
    stitch::lemma_lines_of_seven(
        stitch::view_mod(config, sections),
        stitch::lazy_view_mod(config, sections),
        stitch::section_mod("oneof"@, sections.oneof),
        stitch::section_mod("ext"@, sections.ext),
        r,
        f,
        c,
    );
    lemma_glued_is_added(x, r);
    lemma_glued_is_added(content::glued(x, r), f);
    lemma_glued_is_added(content::glued(content::glued(x, r), f), c);
    assert(items_text(items) =~= stitch::ancillary(
        config,
        sections,
        reg,
        pieces,
        custom_elem_impls,
    ));
    // The pieces.
    lemma_pieces_of_five(views, lazy_views, oneofs, exts, one, two, three, four, direct, b);
    lemma_pieces_of_five(views, lazy_views, oneofs, exts, one, two, three, four, direct, view);
    lemma_pieces_of_five(views, lazy_views, oneofs, exts, one, two, three, four, direct, deep);
    lemma_pieces_of_five(views, lazy_views, oneofs, exts, one, two, three, four, direct, lazy);
    lemma_pieces_of_five(views, lazy_views, oneofs, exts, one, two, three, four, direct, oneof);
    lemma_pieces_of_five(views, lazy_views, oneofs, exts, one, two, three, four, direct, ext);
    lemma_pieces_of_five(
        views,
        lazy_views,
        oneofs,
        exts,
        one,
        two,
        three,
        four,
        direct,
        Seq::empty(),
    );
    assert(pieces_in(items, b) =~= solid(parts));
    assert(pieces_in(items, view) =~= pieces_in(views, view));
    assert(pieces_in(items, deep) =~= pieces_in(views, deep));
    assert(pieces_in(items, lazy) =~= solid(sections.lazy_view));
    assert(pieces_in(items, oneof) =~= solid(sections.oneof));
    assert(pieces_in(items, ext) =~= solid(sections.ext));
    assert(pieces_in(items, Seq::empty()) =~= Seq::<Seq<char>>::empty());
    items
}

proof fn lemma_pieces_of_five(
    views: Seq<CodeItem>,
    lazy_views: Seq<CodeItem>,
    oneofs: Seq<CodeItem>,
    exts: Seq<CodeItem>,
    one: Seq<CodeItem>,
    two: Seq<CodeItem>,
    three: Seq<CodeItem>,
    four: Seq<CodeItem>,
    direct: Seq<CodeItem>,
    q: Seq<Seq<char>>,
)
    requires
        pieces_in(one, q) == pieces_in(Seq::empty(), q) + pieces_in(views, q),
        pieces_in(two, q) == pieces_in(one, q) + pieces_in(lazy_views, q),
        pieces_in(three, q) == pieces_in(two, q) + pieces_in(oneofs, q),
        pieces_in(four, q) == pieces_in(three, q) + pieces_in(exts, q),
        pieces_in(four + direct, q) == pieces_in(four, q) + pieces_in(direct, q),
        pieces_in(Seq::empty(), q) == Seq::<Seq<char>>::empty(),
    ensures
        pieces_in(four + direct, q) == pieces_in(views, q) + pieces_in(lazy_views, q) + pieces_in(
            oneofs,
            q,
        ) + pieces_in(exts, q) + pieces_in(direct, q),
{
    assert(pieces_in(one, q) =~= pieces_in(views, q));
}

proof fn lemma_glued_is_added(a: Seq<char>, piece: Seq<char>)
    ensures
        content::glued(a, piece) == a + content::glued(Seq::empty(), piece),
{
    assert(content::glued(a, piece) =~= a + content::glued(Seq::empty(), piece));
}

proof fn lemma_lines_of_three(a: Seq<char>, b: Seq<char>, c: Seq<char>)
    ensures
        stitch::lines(seq![a, b, c]) == content::glued(Seq::empty(), a) + content::glued(
            Seq::empty(),
            b,
        ) + content::glued(Seq::empty(), c),
{
    assert(seq![a].drop_last() =~= Seq::<Seq<char>>::empty());
    assert(seq![a, b].drop_last() =~= seq![a]);
    assert(seq![a, b, c].drop_last() =~= seq![a, b]);
    assert(stitch::lines(Seq::<Seq<char>>::empty()) == Seq::<char>::empty());
    assert(stitch::lines(seq![a]) == content::glued(Seq::empty(), a));
    assert(stitch::lines(seq![a, b]) == content::glued(stitch::lines(seq![a]), b));
    assert(stitch::lines(seq![a, b, c]) == content::glued(stitch::lines(seq![a, b]), c));
    lemma_glued_is_added(stitch::lines(seq![a]), b);
    lemma_glued_is_added(stitch::lines(seq![a, b]), c);
}

proof fn lemma_gate_in_front(code: Seq<char>, gate: Option<Seq<char>>)
    ensures
        gates::gated(code, gate) == gates::gated(Seq::empty(), gate) + code,
{
    assert(gates::gated(code, gate) =~= gates::gated(Seq::empty(), gate) + code);
}

/// The module of views.
proof fn lemma_good_views(config: CodeGenConfig, sections: SectionsText) -> (items: Seq<CodeItem>)
    ensures
        good(config, items, reserved()),
        items_text(items) == stitch::view_mod(config, sections),
        pieces_in(items, reserved().push("view"@)) == if config.generate_views {
            solid(sections.view)
        } else {
            Seq::empty()
        },
        pieces_in(items, reserved().push("view"@).push("oneof"@)) == if config.generate_views
            && sections.view.len() > 0 {
            solid(sections.view_oneof)
        } else {
            Seq::empty()
        },
        forall|q: Seq<Seq<char>>|
            q != reserved().push("view"@) && q != reserved().push("view"@).push("oneof"@)
                ==> #[trigger] pieces_in(items, q) == Seq::<Seq<char>>::empty(),
{
    let b = reserved();
    let view = b.push("view"@);
    let deep = view.push("oneof"@);
    let gate = gates::gated(Seq::empty(), config.views_gate());
    assert(view.len() == 2 && deep.len() == 3);
    if config.generate_views && sections.view.len() > 0 {
        let own = lemma_good_lines(config, sections.view, view);
        let oneofs = lemma_good_section(config, sections.view_oneof, view, "oneof"@, Seq::empty());
        assert(items_text(oneofs) =~= stitch::section_mod("oneof"@, sections.view_oneof));
        lemma_good_add(config, own, oneofs, view);
        let body = own + oneofs;
        let items = lemma_good_module(config, body, b, "view"@, gate);
        lemma_gate_in_front(stitch::submodule("view"@, items_text(body)), config.views_gate());
        assert(pieces_in(body, view) == pieces_in(own, view) + pieces_in(oneofs, view));
        assert(pieces_in(body, deep) == pieces_in(own, deep) + pieces_in(oneofs, deep));
        assert(pieces_in(items, view) =~= solid(sections.view));
        assert(pieces_in(items, deep) =~= solid(sections.view_oneof));
        assert forall|q: Seq<Seq<char>>| q != view && q != deep implies #[trigger] pieces_in(
            items,
            q,
        ) == Seq::<Seq<char>>::empty() by {
            assert(pieces_in(body, q) == pieces_in(own, q) + pieces_in(oneofs, q));
            assert(pieces_in(items, q) =~= Seq::<Seq<char>>::empty());
        }
        items
    } else {
        reveal(Seq::filter);
        lemma_good_none(config, b);
        if sections.view.len() == 0 {
            assert(solid(sections.view) =~= Seq::<Seq<char>>::empty());
        }
        Seq::empty()
    }
}

/// Everything that goes into a package stands in its code, in the module of its
/// kind, in order and once, and nothing else does.
///
/// The imports, the owned types, the re-exports of reflection and those at the root
/// stand at the root. In the reserved module stand the registering function,
/// reflection and the impls of custom types; and below it views in `view`, their
/// oneof enums in `view::oneof`, lazy views in `lazy_view`, oneof enums in `oneof`
/// and extensions in `ext`.
pub proof fn law_every_piece_stands_in_its_module(
    config: CodeGenConfig,
    sections: SectionsText,
    reg: RegistryText,
    root_reexports: Seq<char>,
    pieces: PackagePieces,
    custom_elem_impls: Seq<char>,
) -> (items: Seq<CodeItem>)
    ensures
        items_text(items) == stitch::package_code(
            config,
            sections,
            reg,
            root_reexports,
            pieces,
            custom_elem_impls,
        ),
        open_behind(items, Seq::empty()) == Some(Seq::<Seq<char>>::empty()),
        forall|i: int| 0 <= i < items.len() ==> in_its_place(config, #[trigger] items[i]),
        pieces_in(items, Seq::empty()) == solid(
            seq![pieces.use_block@] + sections.owned + seq![
                if config.generate_reflection {
                    pieces.reflect_reexports@
                } else {
                    Seq::empty()
                },
                root_reexports,
            ],
        ),
        pieces_in(items, seq!["__buffa"@]) == solid(
            reserved_pieces(config, reg, pieces, custom_elem_impls),
        ),
        pieces_in(items, seq!["__buffa"@, "view"@]) == if config.generate_views {
            solid(sections.view)
        } else {
            Seq::empty()
        },
        pieces_in(items, seq!["__buffa"@, "view"@, "oneof"@]) == if config.generate_views
            && sections.view.len() > 0 {
            solid(sections.view_oneof)
        } else {
            Seq::empty()
        },
        pieces_in(items, seq!["__buffa"@, "lazy_view"@]) == solid(sections.lazy_view),
        pieces_in(items, seq!["__buffa"@, "oneof"@]) == solid(sections.oneof),
        pieces_in(items, seq!["__buffa"@, "ext"@]) == solid(sections.ext),
{
    let root = Seq::<Seq<char>>::empty();
    let b = reserved();
    assert(root.push("__buffa"@) =~= b);
    assert(b.push("view"@) =~= seq!["__buffa"@, "view"@]);
    assert(b.push("view"@).push("oneof"@) =~= seq!["__buffa"@, "view"@, "oneof"@]);
    assert(b.push("lazy_view"@) =~= seq!["__buffa"@, "lazy_view"@]);
    assert(b.push("oneof"@) =~= seq!["__buffa"@, "oneof"@]);
    assert(b.push("ext"@) =~= seq!["__buffa"@, "ext"@]);
    let allow = "#[allow("@ + module_tree::lints_text() + ")] "@;
    let reflect = if config.generate_reflection {
        pieces.reflect_reexports@
    } else {
        Seq::empty()
    };
    let body = lemma_good_reserved(config, sections, reg, pieces, custom_elem_impls);
    let text = items_text(body);
    lemma_good_none(config, root);
    let module = if text.len() == 0 {
        lemma_empty_text(config, body, b);
        assert(body =~= Seq::<CodeItem>::empty());
        body
    } else {
        lemma_good_module(config, body, root, "__buffa"@, allow)
    };
    assert(good(config, module, root));
    assert(items_text(module) =~= stitch::buffa_mod(text));
    assert forall|q: Seq<Seq<char>>| #[trigger] pieces_in(module, q) == pieces_in(body, q) by {}
    let uses = lemma_good_lines(config, seq![pieces.use_block@], root);
    let owned = lemma_good_lines(config, sections.owned, root);
    let last = lemma_good_lines(config, seq![reflect, root_reexports], root);
    let one = lemma_good_glued(config, uses, owned, root);
    let two = lemma_good_glued(config, one, module, root);
    lemma_good_add(config, two, last, root);
    let items = two + last;
    // The text.
    let x = items_text(two);
    lemma_lines_of_two(reflect, root_reexports);
    assert(seq![pieces.use_block@].drop_last() =~= Seq::<Seq<char>>::empty());
    assert(stitch::lines(Seq::<Seq<char>>::empty()) == Seq::<char>::empty());
    assert(stitch::lines(seq![pieces.use_block@]) == content::glued(
        Seq::empty(),
        pieces.use_block@,
    ));
    stitch::lemma_lines_of_five(
        pieces.use_block@,
        stitch::lines(sections.owned),
        stitch::buffa_mod(text),
        reflect,
        root_reexports,
    );
    lemma_glued_is_added(x, reflect);
    lemma_glued_is_added(content::glued(x, reflect), root_reexports);
    assert(items_text(items) =~= stitch::package_code(
        config,
        sections,
        reg,
        root_reexports,
        pieces,
        custom_elem_impls,
    ));
    // The pieces.
    assert forall|q: Seq<Seq<char>>| #[trigger] pieces_in(items, q) == pieces_in(uses, q)
        + pieces_in(owned, q) + pieces_in(module, q) + pieces_in(last, q) by {
        assert(pieces_in(two, q) == pieces_in(one, q) + pieces_in(module, q));
        assert(pieces_in(one, q) == pieces_in(uses, q) + pieces_in(owned, q));
    }
    let some = |p: Seq<char>| p.len() > 0;
    let (p, q) = (seq![pieces.use_block@], seq![reflect, root_reexports]);
    Seq::filter_distributes_over_add(p, sections.owned, some);
    Seq::filter_distributes_over_add(p + sections.owned, q, some);
    assert(pieces_in(items, root) =~= solid(p + sections.owned + q));
    assert(pieces_in(items, b) =~= pieces_in(body, b));
    assert(pieces_in(items, b.push("view"@)) =~= pieces_in(body, b.push("view"@)));
    assert(pieces_in(items, b.push("view"@).push("oneof"@)) =~= pieces_in(
        body,
        b.push("view"@).push("oneof"@),
    ));
    assert(pieces_in(items, b.push("lazy_view"@)) =~= pieces_in(body, b.push("lazy_view"@)));
    assert(pieces_in(items, b.push("oneof"@)) =~= pieces_in(body, b.push("oneof"@)));
    assert(pieces_in(items, b.push("ext"@)) =~= pieces_in(body, b.push("ext"@)));
    items
}

proof fn lemma_lines_of_two(a: Seq<char>, b: Seq<char>)
    ensures
        stitch::lines(seq![a, b]) == content::glued(Seq::empty(), a) + content::glued(
            Seq::empty(),
            b,
        ),
{
    assert(seq![a].drop_last() =~= Seq::<Seq<char>>::empty());
    assert(seq![a, b].drop_last() =~= seq![a]);
    assert(stitch::lines(Seq::<Seq<char>>::empty()) == Seq::<char>::empty());
    assert(stitch::lines(seq![a]) == content::glued(Seq::empty(), a));
    lemma_glued_is_added(stitch::lines(seq![a]), b);
}

} // verus!
