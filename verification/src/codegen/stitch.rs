//! The file that stitches a package together.
//!
//! Owned types stand at the root of the package. Everything else goes into one
//! reserved module: views, oneof enums, extensions, the function that registers
//! the package's types, and reflection. A module without content is left out,
//! and so is the reserved module itself.
use vstd::prelude::*;
use vstd::string::*;
use crate::codegen::config;
use crate::codegen::config::CodeGenConfig;
use crate::codegen::content;
use crate::codegen::content::{glue, ContentText, ProtoContent, RegistryPaths, RegistryText};
use crate::codegen::errors::CodeGenError;
use crate::codegen::gates;
use crate::codegen::gates::{cfg_block, cfg_block_any};
use crate::codegen::module_tree;
use crate::codegen::module_tree::lints;
use crate::codegen::packages::SENTINEL_MOD;
use crate::codegen::repr;
use crate::codegen::root_names;
use crate::codegen::syntax;
use crate::codegen::syntax::format_tokens;
use crate::codegen::text;
use crate::codegen::text::push_text;

verus! {

/// The code of a package by kind: the code itself, or lines that pull it in.
#[derive(Debug)]
pub struct PackageSections {
    /// Owned types.
    pub owned: Vec<String>,
    /// Views.
    pub view: Vec<String>,
    /// Lazy views.
    pub lazy_view: Vec<String>,
    /// Oneof enums.
    pub oneof: Vec<String>,
    /// The oneof enums of views.
    pub view_oneof: Vec<String>,
    /// Extension constants.
    pub ext: Vec<String>,
}

/// Such code, as text.
pub struct SectionsText {
    /// Owned types.
    pub owned: Seq<Seq<char>>,
    /// Views.
    pub view: Seq<Seq<char>>,
    /// Lazy views.
    pub lazy_view: Seq<Seq<char>>,
    /// Oneof enums.
    pub oneof: Seq<Seq<char>>,
    /// The oneof enums of views.
    pub view_oneof: Seq<Seq<char>>,
    /// Extension constants.
    pub ext: Seq<Seq<char>>,
}

impl View for PackageSections {
    type V = SectionsText;

    open spec fn view(&self) -> SectionsText {
        SectionsText {
            owned: text::texts(self.owned@),
            view: text::texts(self.view@),
            lazy_view: text::texts(self.lazy_view@),
            oneof: text::texts(self.oneof@),
            view_oneof: text::texts(self.view_oneof@),
            ext: text::texts(self.ext@),
        }
    }
}

/// No code at all.
pub open spec fn no_sections() -> SectionsText {
    SectionsText {
        owned: Seq::empty(),
        view: Seq::empty(),
        lazy_view: Seq::empty(),
        oneof: Seq::empty(),
        view_oneof: Seq::empty(),
        ext: Seq::empty(),
    }
}

/// A list with a piece added, if there is one.
pub open spec fn with_piece(list: Seq<Seq<char>>, piece: Seq<char>) -> Seq<Seq<char>> {
    if piece.len() == 0 {
        list
    } else {
        list.push(piece)
    }
}

/// The sections with the content of one more file in them.
pub open spec fn with_content(sections: SectionsText, content: ContentText) -> SectionsText {
    SectionsText {
        owned: with_piece(sections.owned, content.owned),
        view: with_piece(sections.view, content.view),
        lazy_view: with_piece(sections.lazy_view, content.lazy_view),
        oneof: with_piece(sections.oneof, content.oneof),
        view_oneof: with_piece(sections.view_oneof, content.view_oneof),
        ext: with_piece(sections.ext, content.ext),
    }
}

/// Add a piece of code to a list, if there is one.
fn push_piece(list: &mut Vec<String>, piece: String)
    ensures
        text::texts(final(list)@) == with_piece(text::texts(old(list)@), piece@),
{
    if !piece.as_str().is_empty() {
        push_text(list, piece);
    }
}

impl PackageSections {
    /// No code at all.
    pub fn new() -> (sections: Self)
        ensures
            sections@ == no_sections(),
    {
        let sections = PackageSections {
            owned: Vec::new(),
            view: Vec::new(),
            lazy_view: Vec::new(),
            oneof: Vec::new(),
            view_oneof: Vec::new(),
            ext: Vec::new(),
        };
        assert(text::texts(sections.owned@) =~= Seq::<Seq<char>>::empty());
        assert(text::texts(sections.view@) =~= Seq::<Seq<char>>::empty());
        assert(text::texts(sections.lazy_view@) =~= Seq::<Seq<char>>::empty());
        assert(text::texts(sections.oneof@) =~= Seq::<Seq<char>>::empty());
        assert(text::texts(sections.view_oneof@) =~= Seq::<Seq<char>>::empty());
        assert(text::texts(sections.ext@) =~= Seq::<Seq<char>>::empty());
        sections
    }

    /// Add the content of one file. A kind without content is skipped, so that a
    /// section is empty where the package has nothing of its kind.
    pub fn push_inline(&mut self, content: ProtoContent)
        ensures
            final(self)@ == with_content(old(self)@, content@),
    {
        push_piece(&mut self.owned, content.owned);
        push_piece(&mut self.view, content.view);
        push_piece(&mut self.lazy_view, content.lazy_view);
        push_piece(&mut self.oneof, content.oneof);
        push_piece(&mut self.view_oneof, content.view_oneof);
        push_piece(&mut self.ext, content.ext);
    }
}

/// Code of a package that comes from other generators.
#[derive(Debug)]
pub struct PackagePieces {
    /// Imports for short names; empty where there are none.
    pub use_block: String,
    /// The reflection module, with the descriptors embedded.
    pub embedded_pool: String,
    /// The reflection module, with the descriptors taken from the shared root.
    pub shared_pool: String,
    /// The re-exports of reflection at the root of the package.
    pub reflect_reexports: String,
}

/// Pieces of code, each on a line of its own.
pub open spec fn lines(parts: Seq<Seq<char>>) -> Seq<char>
    decreases parts.len(),
{
    if parts.len() == 0 {
        Seq::empty()
    } else {
        content::glued(lines(parts.drop_last()), parts.last())
    }
}

/// Pieces of code, each on a line of its own.
fn join_lines(parts: &Vec<String>) -> (r: String)
    ensures
        r@ == lines(text::texts(parts@)),
{
    let ghost all = text::texts(parts@);
    let mut r: String = String::new();
    let mut i: usize = 0;
    assert(all.take(0) =~= Seq::<Seq<char>>::empty());
    while i < parts.len()
        invariant
            i <= parts@.len(),
            all == text::texts(parts@),
            r@ == lines(all.take(i as int)),
        decreases parts@.len() - i,
    {
        glue(&mut r, parts[i].as_str());
        proof {
            assert(all.take(i as int + 1).drop_last() =~= all.take(i as int));
            assert(all.take(i as int + 1).last() == parts@[i as int]@);
        }
        i = i + 1;
    }
    assert(all.take(all.len() as int) =~= all);
    r
}

/// A module that sees everything its parent does.
pub open spec fn submodule(name: Seq<char>, body: Seq<char>) -> Seq<char> {
    "pub mod "@ + name + " { #[allow(unused_imports)] use super::*; "@ + body + " }"@
}

/// A module that sees everything its parent does.
fn write_submodule(name: &str, body: &str) -> (r: String)
    ensures
        r@ == submodule(name@, body@),
{
    let mut r: String = "pub mod ".to_owned();
    r.append(name);
    r.append(" { #[allow(unused_imports)] use super::*; ");
    r.append(body);
    r.append(" }");
    r
}

/// A module of some pieces of code, if there are any.
pub open spec fn section_mod(name: Seq<char>, parts: Seq<Seq<char>>) -> Seq<char> {
    if parts.len() == 0 {
        Seq::empty()
    } else {
        submodule(name, lines(parts))
    }
}

/// A module of some pieces of code, if there are any.
fn write_section(name: &str, parts: &Vec<String>) -> (r: String)
    ensures
        r@ == section_mod(name@, text::texts(parts@)),
{
    if parts.len() == 0 {
        return String::new();
    }
    write_submodule(name, join_lines(parts).as_str())
}

/// The module of views, with the oneof enums of views in it.
pub open spec fn view_mod(config: CodeGenConfig, sections: SectionsText) -> Seq<char> {
    if config.generate_views && sections.view.len() > 0 {
        gates::gated(
            submodule("view"@, lines(sections.view) + section_mod("oneof"@, sections.view_oneof)),
            config.views_gate(),
        )
    } else {
        Seq::empty()
    }
}

/// The module of lazy views.
pub open spec fn lazy_view_mod(config: CodeGenConfig, sections: SectionsText) -> Seq<char> {
    if sections.lazy_view.len() > 0 {
        gates::gated(section_mod("lazy_view"@, sections.lazy_view), config.views_gate())
    } else {
        Seq::empty()
    }
}

/// One statement for each path.
pub open spec fn registrations(
    method: Seq<char>,
    paths: Seq<Seq<char>>,
    gate: Option<Seq<char>>,
) -> Seq<char>
    decreases paths.len(),
{
    if paths.len() == 0 {
        Seq::empty()
    } else {
        registrations(method, paths.drop_last(), gate) + gates::gated(
            "reg."@ + method + "(super::"@ + paths.last() + "); "@,
            gate,
        )
    }
}

/// The function that registers a package's types, if there is anything to
/// register.
pub open spec fn register_fn(config: CodeGenConfig, reg: RegistryText) -> Seq<char> {
    if root_names::registers(config, reg) {
        gates::gated_any(
            "#[doc = \" Register this package's `Any` type entries and extension entries.\"] "@
                + (if config.gate_impls_on_crate_features {
                "#[allow(unused_variables)] "@
            } else {
                ""@
            }) + "pub fn register_types(reg: &mut ::buffa::type_registry::TypeRegistry) { "@
                + registrations("register_json_any"@, reg.json_any, config.json_gate())
                + registrations("register_json_ext"@, reg.json_ext, config.json_gate())
                + registrations("register_text_any"@, reg.text_any, config.text_gate())
                + registrations("register_text_ext"@, reg.text_ext, config.text_gate()) + "}"@,
            config.json_gate(),
            config.text_gate(),
        )
    } else {
        Seq::empty()
    }
}

/// Write one statement for each path.
fn write_registrations(out: &mut String, method: &str, paths: &Vec<String>, gate: Option<&str>)
    ensures
        final(out)@ == old(out)@ + registrations(
            method@,
            text::texts(paths@),
            config::opt_text(gate),
        ),
{
    let ghost start = out@;
    let ghost all = text::texts(paths@);
    let mut i: usize = 0;
    assert(all.take(0) =~= Seq::<Seq<char>>::empty());
    assert(out@ =~= start + registrations(method@, all.take(0), config::opt_text(gate)));
    while i < paths.len()
        invariant
            i <= paths@.len(),
            all == text::texts(paths@),
            out@ == start + registrations(method@, all.take(i as int), config::opt_text(gate)),
        decreases paths@.len() - i,
    {
        let mut code: String = "reg.".to_owned();
        code.append(method);
        code.append("(super::");
        code.append(paths[i].as_str());
        code.append("); ");
        proof {
            assert(all.take(i as int + 1).drop_last() =~= all.take(i as int));
            assert(all.take(i as int + 1).last() == paths@[i as int]@);
        }
        out.append(cfg_block(code.as_str(), gate).as_str());
        i = i + 1;
        assert(out@ =~= start + registrations(
            method@,
            all.take(i as int),
            config::opt_text(gate),
        ));
    }
    assert(all.take(all.len() as int) =~= all);
}

/// The function that registers a package's types.
fn write_register_fn(config: &CodeGenConfig, reg: &RegistryPaths) -> (r: String)
    ensures
        r@ == register_fn(*config, reg@),
{
    if !config.emit_register_fn || reg.is_empty() {
        return String::new();
    }
    let gates = config.feature_gates();
    let mut code: String = "#[doc = \" Register this package's `Any` type entries and extension entries.\"] ".to_owned();
    code.append(
        if config.gate_impls_on_crate_features {
            "#[allow(unused_variables)] "
        } else {
            ""
        },
    );
    code.append("pub fn register_types(reg: &mut ::buffa::type_registry::TypeRegistry) { ");
    write_registrations(&mut code, "register_json_any", &reg.json_any, gates.json);
    write_registrations(&mut code, "register_json_ext", &reg.json_ext, gates.json);
    write_registrations(&mut code, "register_text_any", &reg.text_any, gates.text);
    write_registrations(&mut code, "register_text_ext", &reg.text_ext, gates.text);
    code.append("}");
    cfg_block_any(code.as_str(), gates.json, gates.text)
}

/// The reflection module.
pub open spec fn reflect_mod(config: CodeGenConfig, pieces: PackagePieces) -> Seq<char> {
    if config.generate_reflection {
        gates::gated(
            if config.shared_descriptor_pool {
                pieces.shared_pool@
            } else {
                pieces.embedded_pool@
            },
            config.reflect_gate(),
        )
    } else {
        Seq::empty()
    }
}

/// The re-exports of reflection.
pub open spec fn reflect_reexport(config: CodeGenConfig, pieces: PackagePieces) -> Seq<char> {
    if config.generate_reflection {
        pieces.reflect_reexports@
    } else {
        Seq::empty()
    }
}

/// What stands in the reserved module.
pub open spec fn ancillary(
    config: CodeGenConfig,
    sections: SectionsText,
    reg: RegistryText,
    pieces: PackagePieces,
    custom_elem_impls: Seq<char>,
) -> Seq<char> {
    lines(
        seq![
            view_mod(config, sections),
            lazy_view_mod(config, sections),
            section_mod("oneof"@, sections.oneof),
            section_mod("ext"@, sections.ext),
            register_fn(config, reg),
            reflect_mod(config, pieces),
            custom_elem_impls,
        ],
    )
}

/// The reserved module, if anything stands in it.
pub open spec fn buffa_mod(body: Seq<char>) -> Seq<char> {
    if body.len() == 0 {
        Seq::empty()
    } else {
        "#[allow("@ + module_tree::lints_text() + ")] "@ + submodule(SENTINEL_MOD@, body)
    }
}

/// The code of a package.
pub open spec fn package_code(
    config: CodeGenConfig,
    sections: SectionsText,
    reg: RegistryText,
    root_reexports: Seq<char>,
    pieces: PackagePieces,
    custom_elem_impls: Seq<char>,
) -> Seq<char> {
    lines(
        seq![
            pieces.use_block@,
            lines(sections.owned),
            buffa_mod(ancillary(config, sections, reg, pieces, custom_elem_impls)),
            reflect_reexport(config, pieces),
            root_reexports,
        ],
    )
}

/// Seven pieces, one after the other.
pub(crate) proof fn lemma_lines_of_seven(
    a: Seq<char>,
    b: Seq<char>,
    c: Seq<char>,
    d: Seq<char>,
    e: Seq<char>,
    f: Seq<char>,
    g: Seq<char>,
)
    ensures
        lines(seq![a, b, c, d, e, f, g]) == content::glued(
            content::glued(
                content::glued(
                    content::glued(
                        content::glued(content::glued(content::glued(Seq::empty(), a), b), c),
                        d,
                    ),
                    e,
                ),
                f,
            ),
            g,
        ),
{
    lemma_lines_of_five(a, b, c, d, e);
    assert(seq![a, b, c, d, e, f].drop_last() =~= seq![a, b, c, d, e]);
    assert(seq![a, b, c, d, e, f, g].drop_last() =~= seq![a, b, c, d, e, f]);
    assert(lines(seq![a, b, c, d, e, f]) == content::glued(lines(seq![a, b, c, d, e]), f));
}

/// Five pieces, one after the other.
pub(crate) proof fn lemma_lines_of_five(
    a: Seq<char>,
    b: Seq<char>,
    c: Seq<char>,
    d: Seq<char>,
    e: Seq<char>,
)
    ensures
        lines(seq![a, b, c, d, e]) == content::glued(
            content::glued(
                content::glued(content::glued(content::glued(Seq::empty(), a), b), c),
                d,
            ),
            e,
        ),
{
    assert(seq![a].drop_last() =~= Seq::<Seq<char>>::empty());
    assert(seq![a, b].drop_last() =~= seq![a]);
    assert(seq![a, b, c].drop_last() =~= seq![a, b]);
    assert(seq![a, b, c, d].drop_last() =~= seq![a, b, c]);
    assert(seq![a, b, c, d, e].drop_last() =~= seq![a, b, c, d]);
    assert(lines(Seq::<Seq<char>>::empty()) == Seq::<char>::empty());
    assert(lines(seq![a]) == content::glued(Seq::empty(), a));
    assert(lines(seq![a, b]) == content::glued(lines(seq![a]), b));
    assert(lines(seq![a, b, c]) == content::glued(lines(seq![a, b]), c));
    assert(lines(seq![a, b, c, d]) == content::glued(lines(seq![a, b, c]), d));
}

/// Write what stands in the reserved module.
fn write_ancillary(
    config: &CodeGenConfig,
    sections: &PackageSections,
    reg: &RegistryPaths,
    pieces: &PackagePieces,
    custom_elem_impls: &str,
) -> (r: String)
    ensures
        r@ == ancillary(*config, sections@, reg@, *pieces, custom_elem_impls@),
{
    let gates = config.feature_gates();
    let view: String = if config.generate_views && sections.view.len() > 0 {
        let mut body: String = join_lines(&sections.view);
        body.append(write_section("oneof", &sections.view_oneof).as_str());
        cfg_block(write_submodule("view", body.as_str()).as_str(), gates.views)
    } else {
        String::new()
    };
    let lazy_view: String = if sections.lazy_view.len() > 0 {
        cfg_block(write_section("lazy_view", &sections.lazy_view).as_str(), gates.views)
    } else {
        String::new()
    };
    let oneof: String = write_section("oneof", &sections.oneof);
    let ext: String = write_section("ext", &sections.ext);
    let register: String = write_register_fn(config, reg);
    let reflect: String = if config.generate_reflection {
        let pool: &str = if config.shared_descriptor_pool {
            pieces.shared_pool.as_str()
        } else {
            pieces.embedded_pool.as_str()
        };
        cfg_block(pool, gates.reflect)
    } else {
        String::new()
    };
    let mut r: String = String::new();
    glue(&mut r, view.as_str());
    glue(&mut r, lazy_view.as_str());
    glue(&mut r, oneof.as_str());
    glue(&mut r, ext.as_str());
    glue(&mut r, register.as_str());
    glue(&mut r, reflect.as_str());
    glue(&mut r, custom_elem_impls);
    proof {
        assert(text::texts(sections.view@).len() == sections.view@.len());
        assert(text::texts(sections.lazy_view@).len() == sections.lazy_view@.len());
        lemma_lines_of_seven(
            view_mod(*config, sections@),
            lazy_view_mod(*config, sections@),
            section_mod("oneof"@, sections@.oneof),
            section_mod("ext"@, sections@.ext),
            register_fn(*config, reg@),
            reflect_mod(*config, *pieces),
            custom_elem_impls@,
        );
    }
    r
}

/// The attribute that exempts generated code from some lints.
pub fn allow_lints_attr() -> (r: String)
    ensures
        r@ == "#[allow("@ + module_tree::lints_text() + ")]"@,
{
    let mut r: String = "#[allow(".to_owned();
    r.append(lints().as_str());
    r.append(")]");
    r
}

/// Write the code of a package.
pub fn stitch_package(
    config: &CodeGenConfig,
    sections: &PackageSections,
    reg: &RegistryPaths,
    root_reexports: &str,
    pieces: &PackagePieces,
    custom_elem_impls: &str,
) -> (r: String)
    ensures
        r@ == package_code(
            *config,
            sections@,
            reg@,
            root_reexports@,
            *pieces,
            custom_elem_impls@,
        ),
{
    let body: String = write_ancillary(config, sections, reg, pieces, custom_elem_impls);
    let module: String = if body.as_str().is_empty() {
        String::new()
    } else {
        let mut module: String = allow_lints_attr();
        let ghost attr = module@;
        module.append(" ");
        assert(module@ =~= "#[allow("@ + module_tree::lints_text() + ")] "@) by {
            reveal_strlit(")]");
            reveal_strlit(" ");
            reveal_strlit(")] ");
        }
        module.append(write_submodule(SENTINEL_MOD, body.as_str()).as_str());
        module
    };
    let mut r: String = String::new();
    glue(&mut r, pieces.use_block.as_str());
    glue(&mut r, join_lines(&sections.owned).as_str());
    glue(&mut r, module.as_str());
    if config.generate_reflection {
        glue(&mut r, pieces.reflect_reexports.as_str());
    }
    glue(&mut r, root_reexports);
    proof {
        lemma_lines_of_five(
            pieces.use_block@,
            lines(sections@.owned),
            buffa_mod(ancillary(*config, sections@, reg@, *pieces, custom_elem_impls@)),
            reflect_reexport(*config, *pieces),
            root_reexports@,
        );
    }
    r
}

/// Render the file that stitches a package together.
pub fn generate_package_mod(
    config: &CodeGenConfig,
    sections: &PackageSections,
    reg: &RegistryPaths,
    root_reexports: &str,
    pieces: &PackagePieces,
    custom_elem_impls: &str,
) -> (result: Result<String, CodeGenError>)
    ensures
        repr::outcome(result) == syntax::file_text(
            syntax::laid_out(
                package_code(
                    *config,
                    sections@,
                    reg@,
                    root_reexports@,
                    *pieces,
                    custom_elem_impls@,
                ),
            ),
            ""@,
        ),
{
    let code: String = stitch_package(
        config,
        sections,
        reg,
        root_reexports,
        pieces,
        custom_elem_impls,
    );
    format_tokens(code.as_str(), "")
}

} // verus!
