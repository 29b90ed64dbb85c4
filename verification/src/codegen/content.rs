//! The content that one `.proto` file is generated to.
//!
//! The code of single enums, messages and extensions comes from their own
//! generators. [`plan_file`] says under which names they are to be generated;
//! [`generate_proto_content`] takes what was generated and puts it together.
use vstd::prelude::*;
use vstd::string::*;
use crate::codegen::config;
use crate::codegen::config::CodeGenConfig;
use crate::codegen::descriptor;
use crate::codegen::descriptor::{scoped_name, str_or, DescriptorProto, FileDescriptorProto};
use crate::codegen::errors::CodeGenError;
use crate::codegen::gates;
use crate::codegen::gates::cfg_block;
use crate::codegen::idents;
use crate::codegen::idents::escape_mod_ident;
use crate::codegen::packages;
use crate::codegen::packages::{proto_path_to_stem, SENTINEL_MOD};
use crate::codegen::syntax;
use crate::codegen::syntax::string_literal;
use crate::codegen::text;
use crate::codegen::text::{cat, push_text};
use crate::codegen::validate;
use crate::codegen::validate::validate_file;

verus! {

/// `a` followed by a piece of code on a line of its own, if there is one.
pub open spec fn glued(a: Seq<char>, piece: Seq<char>) -> Seq<char> {
    if piece.len() == 0 {
        a
    } else {
        a + piece + "\n"@
    }
}

/// Add a piece of code on a line of its own, if there is one.
pub(crate) fn glue(out: &mut String, piece: &str)
    ensures
        final(out)@ == glued(old(out)@, piece@),
{
    if !piece.is_empty() {
        out.append(piece);
        out.append("\n");
    }
}

/// Constants that a package registers, as paths from its root.
#[derive(Debug, Default)]
pub struct RegistryPaths {
    /// Types, for JSON.
    pub json_any: Vec<String>,
    /// Extensions, for JSON.
    pub json_ext: Vec<String>,
    /// Types, for the text format.
    pub text_any: Vec<String>,
    /// Extensions, for the text format.
    pub text_ext: Vec<String>,
}

/// Such constants, as text.
pub struct RegistryText {
    /// Types, for JSON.
    pub json_any: Seq<Seq<char>>,
    /// Extensions, for JSON.
    pub json_ext: Seq<Seq<char>>,
    /// Types, for the text format.
    pub text_any: Seq<Seq<char>>,
    /// Extensions, for the text format.
    pub text_ext: Seq<Seq<char>>,
}

impl View for RegistryPaths {
    type V = RegistryText;

    open spec fn view(&self) -> RegistryText {
        RegistryText {
            json_any: text::texts(self.json_any@),
            json_ext: text::texts(self.json_ext@),
            text_any: text::texts(self.text_any@),
            text_ext: text::texts(self.text_ext@),
        }
    }
}

impl RegistryText {
    /// There is nothing to register.
    pub open spec fn nothing(self) -> bool {
        &&& self.json_any.len() == 0
        &&& self.json_ext.len() == 0
        &&& self.text_any.len() == 0
        &&& self.text_ext.len() == 0
    }
}

impl RegistryPaths {
    /// Nothing to register.
    pub fn new() -> (paths: Self)
        ensures
            paths@.nothing(),
    {
        RegistryPaths {
            json_any: Vec::new(),
            json_ext: Vec::new(),
            text_any: Vec::new(),
            text_ext: Vec::new(),
        }
    }

    /// Whether there is nothing to register.
    pub fn is_empty(&self) -> (r: bool)
        ensures
            r == self@.nothing(),
    {
        self.json_any.len() == 0 && self.json_ext.len() == 0 && self.text_any.len() == 0
            && self.text_ext.len() == 0
    }
}

/// A name that could be re-exported at the root of a package.
#[derive(Debug)]
pub struct ReexportCandidate {
    /// The name.
    pub name: String,
    /// The code that re-exports it.
    pub tokens: String,
}

/// A candidate, as text.
pub struct CandidateText {
    /// The name.
    pub name: Seq<char>,
    /// The code that re-exports it.
    pub tokens: Seq<char>,
}

impl View for ReexportCandidate {
    type V = CandidateText;

    open spec fn view(&self) -> CandidateText {
        CandidateText { name: self.name@, tokens: self.tokens@ }
    }
}

/// Candidates, as text.
pub open spec fn candidate_texts(candidates: Seq<ReexportCandidate>) -> Seq<CandidateText> {
    candidates.map_values(|c: ReexportCandidate| c@)
}

/// The code of one message. A piece is empty where there is nothing of its kind.
#[derive(Debug)]
pub struct MessageOutput {
    /// The message itself.
    pub owned_top: String,
    /// What is nested in it.
    pub owned_mod: String,
    /// Its oneof enums.
    pub oneof_tree: String,
    /// Its views.
    pub view_tree: String,
    /// Its lazy views.
    pub lazy_view_tree: String,
    /// The oneof enums of its views.
    pub view_oneof_tree: String,
    /// What it registers. Extensions are relative to the message's module.
    pub reg: RegistryPaths,
}

/// The code of a file's extensions.
#[derive(Debug)]
pub struct ExtensionOutput {
    /// The constants.
    pub tokens: String,
    /// The constants to register for JSON.
    pub json: Vec<String>,
    /// The constants to register for the text format.
    pub text: Vec<String>,
    /// The name of each extension's constant.
    pub const_idents: Vec<String>,
}

/// The code of everything in a file.
#[derive(Debug)]
pub struct FileOutput {
    /// The code of each enum.
    pub enums: Vec<String>,
    /// The code of each message.
    pub messages: Vec<MessageOutput>,
    /// The code of the extensions.
    pub extensions: ExtensionOutput,
}

/// The code is that of the file: there is an output for each of its elements.
pub open spec fn output_fits(file: FileDescriptorProto, output: FileOutput) -> bool {
    &&& output.enums@.len() == file.enum_type@.len()
    &&& output.messages@.len() == file.message_type@.len()
    &&& output.extensions.const_idents@.len() == file.extension@.len()
}

/// Whether the code is that of the file.
pub fn is_output_of(file: &FileDescriptorProto, output: &FileOutput) -> (r: bool)
    ensures
        r == output_fits(*file, *output),
{
    output.enums.len() == file.enum_type.len() && output.messages.len() == file.message_type.len()
        && output.extensions.const_idents.len() == file.extension.len()
}

/// The names that an element is generated under.
#[derive(Debug)]
pub struct ElementPlan {
    /// The Rust name.
    pub rust_name: String,
    /// The full proto name, without a leading dot.
    pub proto_fqn: String,
}

/// An element named `name` is generated under its prefixed name, and its name
/// within the package.
pub open spec fn plans(
    plan: ElementPlan,
    config: CodeGenConfig,
    package: Seq<char>,
    name: Option<String>,
) -> bool {
    &&& plan.rust_name@ == config.type_name_prefix@ + descriptor::text_or(name, ""@)
    &&& plan.proto_fqn@ == descriptor::scoped(package, descriptor::text_or(name, ""@))
}

/// The names that a file's elements are generated under.
#[derive(Debug)]
pub struct FilePlan {
    /// Those of each enum.
    pub enums: Vec<ElementPlan>,
    /// Those of each message.
    pub messages: Vec<ElementPlan>,
}

/// Plan one element.
fn plan_element(config: &CodeGenConfig, package: &str, name: &Option<String>) -> (plan: ElementPlan)
    ensures
        plans(plan, *config, package@, *name),
{
    let proto_name: &str = str_or(name, "");
    ElementPlan {
        rust_name: config.prefixed_type_name(proto_name),
        proto_fqn: scoped_name(package, proto_name),
    }
}

/// Say under which names a file's elements are to be generated.
pub fn plan_file(config: &CodeGenConfig, package: &str, file: &FileDescriptorProto) -> (plan: FilePlan)
    ensures
        plan.enums@.len() == file.enum_type@.len(),
        forall|i: int|
            0 <= i < plan.enums@.len() ==> plans(
                #[trigger] plan.enums@[i],
                *config,
                package@,
                file.enum_type@[i].name,
            ),
        plan.messages@.len() == file.message_type@.len(),
        forall|i: int|
            0 <= i < plan.messages@.len() ==> plans(
                #[trigger] plan.messages@[i],
                *config,
                package@,
                file.message_type@[i].name,
            ),
{
    let mut enums: Vec<ElementPlan> = Vec::new();
    let mut i: usize = 0;
    while i < file.enum_type.len()
        invariant
            i <= file.enum_type@.len(),
            enums@.len() == i,
            forall|j: int|
                0 <= j < i ==> plans(
                    #[trigger] enums@[j],
                    *config,
                    package@,
                    file.enum_type@[j].name,
                ),
        decreases file.enum_type@.len() - i,
    {
        enums.push(plan_element(config, package, &file.enum_type[i].name));
        i = i + 1;
    }
    let mut messages: Vec<ElementPlan> = Vec::new();
    let mut k: usize = 0;
    while k < file.message_type.len()
        invariant
            k <= file.message_type@.len(),
            messages@.len() == k,
            forall|j: int|
                0 <= j < k ==> plans(
                    #[trigger] messages@[j],
                    *config,
                    package@,
                    file.message_type@[j].name,
                ),
        decreases file.message_type@.len() - k,
    {
        messages.push(plan_element(config, package, &file.message_type[k].name));
        k = k + 1;
    }
    FilePlan { enums, messages }
}

/// The kinds of code that a message has besides its owned type.
pub enum Tree {
    /// Oneof enums.
    Oneof,
    /// Views.
    View,
    /// Lazy views.
    LazyView,
    /// The oneof enums of views.
    ViewOneof,
}

/// A message's code of a kind.
pub open spec fn tree_of(output: MessageOutput, tree: Tree) -> Seq<char> {
    match tree {
        Tree::Oneof => output.oneof_tree@,
        Tree::View => output.view_tree@,
        Tree::LazyView => output.lazy_view_tree@,
        Tree::ViewOneof => output.view_oneof_tree@,
    }
}

/// The code of a kind of the first `k` messages.
pub open spec fn trees_text(messages: Seq<MessageOutput>, k: nat, tree: Tree) -> Seq<char>
    decreases k,
{
    if k == 0 || k > messages.len() {
        Seq::empty()
    } else {
        glued(trees_text(messages, (k - 1) as nat, tree), tree_of(messages[k - 1], tree))
    }
}

/// The code of the first `k` enums.
pub open spec fn enums_text(enums: Seq<String>, k: nat) -> Seq<char>
    decreases k,
{
    if k == 0 || k > enums.len() {
        Seq::empty()
    } else {
        glued(enums_text(enums, (k - 1) as nat), enums[k - 1]@)
    }
}

/// The note on a module whose name was told apart from another's.
pub open spec fn mod_doc(msg: DescriptorProto) -> Seq<char> {
    if msg.nested_module_name@ == msg.module_name@ {
        Seq::empty()
    } else {
        "#[doc = "@ + syntax::literal(
            "Nested items of `"@ + descriptor::text_or(msg.name, ""@)
                + "`. The module name carries a trailing `_` to avoid a collision with another module in this scope (a sub-package or sibling message of the same name). See buffa#135."@,
        ) + "] "@
    }
}

/// The module of what is nested in a message, if there is anything.
pub open spec fn mod_block(msg: DescriptorProto, body: Seq<char>) -> Seq<char> {
    if body.len() == 0 {
        Seq::empty()
    } else {
        mod_doc(msg) + "pub mod "@ + idents::mod_ident(msg.nested_module_name@)
            + " { #[allow(unused_imports)] use super::*; "@ + body + " }"@
    }
}

/// The owned code of a file's enums and of its first `k` messages.
pub open spec fn owned_text(
    messages: Seq<DescriptorProto>,
    output: FileOutput,
    k: nat,
) -> Seq<char>
    decreases k,
{
    if k == 0 || k > messages.len() {
        enums_text(output.enums@, output.enums@.len())
    } else {
        glued(
            glued(
                owned_text(messages, output, (k - 1) as nat),
                output.messages@[k - 1].owned_top@,
            ),
            mod_block(messages[k - 1], output.messages@[k - 1].owned_mod@),
        )
    }
}

/// Paths with a module before each.
pub open spec fn behind(module: Seq<char>, paths: Seq<Seq<char>>) -> Seq<Seq<char>> {
    paths.map_values(|p: Seq<char>| module + "::"@ + p)
}

/// What is registered once the first `k` messages have been added.
pub open spec fn registry_after(
    messages: Seq<DescriptorProto>,
    outputs: Seq<MessageOutput>,
    k: nat,
    start: RegistryText,
) -> RegistryText
    decreases k,
{
    if k == 0 || k > messages.len() {
        start
    } else {
        let before = registry_after(messages, outputs, (k - 1) as nat, start);
        let module = idents::mod_ident(messages[k - 1].nested_module_name@);
        let reg = outputs[k - 1].reg@;
        RegistryText {
            json_any: before.json_any + reg.json_any,
            json_ext: before.json_ext + behind(module, reg.json_ext),
            text_any: before.text_any + reg.text_any,
            text_ext: before.text_ext + behind(module, reg.text_ext),
        }
    }
}

/// What is registered once a file's messages and extensions have been added.
pub open spec fn registry_of_file(
    file: FileDescriptorProto,
    output: FileOutput,
    start: RegistryText,
) -> RegistryText {
    let messages = registry_after(
        file.message_type@,
        output.messages@,
        file.message_type@.len(),
        start,
    );
    let module = SENTINEL_MOD@ + "::ext"@;
    RegistryText {
        json_any: messages.json_any,
        json_ext: messages.json_ext + behind(module, text::texts(output.extensions.json@)),
        text_any: messages.text_any,
        text_ext: messages.text_ext + behind(module, text::texts(output.extensions.text@)),
    }
}

/// The re-export of a name in one of a package's ancillary modules.
pub open spec fn reexport(module: Seq<char>, name: Seq<char>, gate: Option<Seq<char>>) -> CandidateText {
    CandidateText {
        name,
        tokens: gates::gated(
            "#[doc(inline)] pub use self::"@ + SENTINEL_MOD@ + "::"@ + module + "::"@ + name
                + ";"@,
            gate,
        ),
    }
}

/// The re-exports of one message: its views, where views are generated.
pub open spec fn message_reexports(config: CodeGenConfig, name: Option<String>) -> Seq<
    CandidateText,
> {
    let rust_name = config.type_name_prefix@ + descriptor::text_or(name, ""@);
    if !config.generate_views {
        Seq::empty()
    } else {
        let views = seq![
            reexport("view"@, rust_name + "View"@, config.views_gate()),
            reexport("view"@, rust_name + "OwnedView"@, config.views_gate()),
        ];
        if config.lazy_views {
            views.push(reexport("lazy_view"@, rust_name + "LazyView"@, config.views_gate()))
        } else {
            views
        }
    }
}

/// The re-exports of the first `k` messages.
pub open spec fn messages_reexports(
    config: CodeGenConfig,
    messages: Seq<DescriptorProto>,
    k: nat,
) -> Seq<CandidateText>
    decreases k,
{
    if k == 0 || k > messages.len() {
        Seq::empty()
    } else {
        messages_reexports(config, messages, (k - 1) as nat) + message_reexports(
            config,
            messages[k - 1].name,
        )
    }
}

/// The re-exports of extension constants.
pub open spec fn extension_reexports(const_idents: Seq<String>) -> Seq<CandidateText> {
    const_idents.map_values(|c: String| reexport("ext"@, c@, None))
}

/// The content that a `.proto` file is generated to.
#[derive(Debug)]
pub struct ProtoContent {
    /// The stem of the file names.
    pub stem: String,
    /// Owned types.
    pub owned: String,
    /// Views.
    pub view: String,
    /// Lazy views.
    pub lazy_view: String,
    /// Oneof enums.
    pub oneof: String,
    /// The oneof enums of views.
    pub view_oneof: String,
    /// Extension constants.
    pub ext: String,
    /// Names that could be re-exported at the root of the package.
    pub root_reexports: Vec<ReexportCandidate>,
}

/// The content, as text.
pub struct ContentText {
    /// The stem of the file names.
    pub stem: Seq<char>,
    /// Owned types.
    pub owned: Seq<char>,
    /// Views.
    pub view: Seq<char>,
    /// Lazy views.
    pub lazy_view: Seq<char>,
    /// Oneof enums.
    pub oneof: Seq<char>,
    /// The oneof enums of views.
    pub view_oneof: Seq<char>,
    /// Extension constants.
    pub ext: Seq<char>,
    /// Names that could be re-exported at the root of the package.
    pub root_reexports: Seq<CandidateText>,
}

impl View for ProtoContent {
    type V = ContentText;

    open spec fn view(&self) -> ContentText {
        ContentText {
            stem: self.stem@,
            owned: self.owned@,
            view: self.view@,
            lazy_view: self.lazy_view@,
            oneof: self.oneof@,
            view_oneof: self.view_oneof@,
            ext: self.ext@,
            root_reexports: candidate_texts(self.root_reexports@),
        }
    }
}

/// The content of a file, given the code of everything in it.
pub open spec fn content_of(
    config: CodeGenConfig,
    file: FileDescriptorProto,
    output: FileOutput,
) -> ContentText {
    let n = file.message_type@.len();
    ContentText {
        stem: packages::stem(descriptor::text_or(file.name, ""@)),
        owned: owned_text(file.message_type@, output, n),
        view: trees_text(output.messages@, n, Tree::View),
        lazy_view: trees_text(output.messages@, n, Tree::LazyView),
        oneof: trees_text(output.messages@, n, Tree::Oneof),
        view_oneof: trees_text(output.messages@, n, Tree::ViewOneof),
        ext: glued(Seq::empty(), output.extensions.tokens@),
        root_reexports: messages_reexports(config, file.message_type@, n) + extension_reexports(
            output.extensions.const_idents@,
        ),
    }
}

/// Add paths to a list.
fn extend_paths(list: &mut Vec<String>, paths: &Vec<String>)
    ensures
        text::texts(final(list)@) == text::texts(old(list)@) + text::texts(paths@),
{
    let ghost start = text::texts(list@);
    let ghost all = text::texts(paths@);
    let mut i: usize = 0;
    assert(start + all.take(0) =~= start);
    while i < paths.len()
        invariant
            i <= paths@.len(),
            all == text::texts(paths@),
            text::texts(list@) == start + all.take(i as int),
        decreases paths@.len() - i,
    {
        push_text(list, paths[i].clone());
        i = i + 1;
        assert(text::texts(list@) =~= start + all.take(i as int));
    }
    assert(all.take(all.len() as int) =~= all);
}

/// Add paths to a list, with a module before each.
fn extend_behind(list: &mut Vec<String>, module: &str, paths: &Vec<String>)
    ensures
        text::texts(final(list)@) == text::texts(old(list)@) + behind(
            module@,
            text::texts(paths@),
        ),
{
    let ghost start = text::texts(list@);
    let ghost all = behind(module@, text::texts(paths@));
    let mut i: usize = 0;
    assert(start + all.take(0) =~= start);
    while i < paths.len()
        invariant
            i <= paths@.len(),
            all == behind(module@, text::texts(paths@)),
            text::texts(list@) == start + all.take(i as int),
        decreases paths@.len() - i,
    {
        let mut path: String = module.to_owned();
        path.append("::");
        path.append(paths[i].as_str());
        assert(path@ == all[i as int]);
        push_text(list, path);
        i = i + 1;
        assert(text::texts(list@) =~= start + all.take(i as int));
    }
    assert(all.take(all.len() as int) =~= all);
}

/// Add a candidate for re-export.
fn push_reexport(
    list: &mut Vec<ReexportCandidate>,
    module: &str,
    name: String,
    gate: Option<&str>,
)
    ensures
        candidate_texts(final(list)@) == candidate_texts(old(list)@).push(
            reexport(module@, name@, config::opt_text(gate)),
        ),
{
    let mut code: String = "#[doc(inline)] pub use self::".to_owned();
    code.append(SENTINEL_MOD);
    code.append("::");
    code.append(module);
    code.append("::");
    code.append(name.as_str());
    code.append(";");
    let candidate = ReexportCandidate { name, tokens: cfg_block(code.as_str(), gate) };
    let ghost added = candidate@;
    list.push(candidate);
    assert(candidate_texts(list@) =~= candidate_texts(old(list)@).push(added));
}

/// Add the re-exports of one message.
fn push_message_reexports(
    list: &mut Vec<ReexportCandidate>,
    config: &CodeGenConfig,
    name: &Option<String>,
)
    ensures
        candidate_texts(final(list)@) == candidate_texts(old(list)@) + message_reexports(
            *config,
            *name,
        ),
{
    let ghost start = candidate_texts(list@);
    if config.generate_views {
        let rust_name: String = config.prefixed_type_name(str_or(name, ""));
        let gate: Option<&str> = config.feature_gates().views;
        push_reexport(list, "view", cat(rust_name.as_str(), "View"), gate);
        push_reexport(list, "view", cat(rust_name.as_str(), "OwnedView"), gate);
        if config.lazy_views {
            push_reexport(list, "lazy_view", cat(rust_name.as_str(), "LazyView"), gate);
        }
    }
    assert(candidate_texts(list@) =~= start + message_reexports(*config, *name));
}

/// The module of what is nested in a message, if there is anything.
fn nested_block(msg: &DescriptorProto, body: &str) -> (r: String)
    ensures
        r@ == mod_block(*msg, body@),
{
    if body.is_empty() {
        return String::new();
    }
    let mut r: String = if msg.nested_module_name == msg.module_name {
        String::new()
    } else {
        let mut doc: String = "Nested items of `".to_owned();
        doc.append(str_or(&msg.name, ""));
        doc.append(
            "`. The module name carries a trailing `_` to avoid a collision with another module in this scope (a sub-package or sibling message of the same name). See buffa#135.",
        );
        let mut attr: String = "#[doc = ".to_owned();
        attr.append(string_literal(doc.as_str()).as_str());
        attr.append("] ");
        attr
    };
    assert(r@ =~= mod_doc(*msg));
    r.append("pub mod ");
    r.append(escape_mod_ident(msg.nested_module_name.as_str()).as_str());
    r.append(" { #[allow(unused_imports)] use super::*; ");
    r.append(body);
    r.append(" }");
    r
}

/// Put together the content of a file: check the file, and then take the code of
/// everything in it, or the error that its generators met.
///
/// What the file registers is added to `reg`.
pub fn generate_proto_content(
    config: &CodeGenConfig,
    file: &FileDescriptorProto,
    output: Result<FileOutput, CodeGenError>,
    reg: &mut RegistryPaths,
) -> (result: Result<ProtoContent, CodeGenError>)
    requires
        output is Ok ==> output_fits(*file, output->Ok_0),
    ensures
        match validate::file_fault(*file) {
            Some(e) => result is Err && result->Err_0@ == e && final(reg)@ == old(reg)@,
            None => match output {
                Err(e) => result is Err && result->Err_0@ == e@ && final(reg)@ == old(reg)@,
                Ok(output) => {
                    &&& result is Ok
                    &&& result->Ok_0@ == content_of(*config, *file, output)
                    &&& final(reg)@ == registry_of_file(*file, output, old(reg)@)
                },
            },
        },
{
    match validate_file(file) {
        Ok(()) => {},
        Err(e) => return Err(e),
    }
    let output: FileOutput = match output {
        Ok(output) => output,
        Err(e) => return Err(e),
    };
    let ghost start = reg@;
    let mut owned: String = String::new();
    let mut i: usize = 0;
    while i < output.enums.len()
        invariant
            i <= output.enums@.len(),
            owned@ == enums_text(output.enums@, i as nat),
        decreases output.enums@.len() - i,
    {
        glue(&mut owned, output.enums[i].as_str());
        i = i + 1;
    }
    let mut view: String = String::new();
    let mut lazy_view: String = String::new();
    let mut oneof: String = String::new();
    let mut view_oneof: String = String::new();
    let mut root_reexports: Vec<ReexportCandidate> = Vec::new();
    assert(candidate_texts(root_reexports@) =~= Seq::<CandidateText>::empty());
    let mut k: usize = 0;
    while k < file.message_type.len()
        invariant
            k <= file.message_type@.len(),
            output_fits(*file, output),
            owned@ == owned_text(file.message_type@, output, k as nat),
            view@ == trees_text(output.messages@, k as nat, Tree::View),
            lazy_view@ == trees_text(output.messages@, k as nat, Tree::LazyView),
            oneof@ == trees_text(output.messages@, k as nat, Tree::Oneof),
            view_oneof@ == trees_text(output.messages@, k as nat, Tree::ViewOneof),
            reg@ == registry_after(file.message_type@, output.messages@, k as nat, start),
            candidate_texts(root_reexports@) == messages_reexports(
                *config,
                file.message_type@,
                k as nat,
            ),
        decreases file.message_type@.len() - k,
    {
        let msg: &DescriptorProto = &file.message_type[k];
        let code: &MessageOutput = &output.messages[k];
        glue(&mut owned, code.owned_top.as_str());
        let module: String = escape_mod_ident(msg.nested_module_name.as_str());
        extend_behind(&mut reg.json_ext, module.as_str(), &code.reg.json_ext);
        extend_behind(&mut reg.text_ext, module.as_str(), &code.reg.text_ext);
        extend_paths(&mut reg.json_any, &code.reg.json_any);
        extend_paths(&mut reg.text_any, &code.reg.text_any);
        let block: String = nested_block(msg, code.owned_mod.as_str());
        glue(&mut owned, block.as_str());
        glue(&mut oneof, code.oneof_tree.as_str());
        glue(&mut view, code.view_tree.as_str());
        glue(&mut lazy_view, code.lazy_view_tree.as_str());
        glue(&mut view_oneof, code.view_oneof_tree.as_str());
        push_message_reexports(&mut root_reexports, config, &msg.name);
        k = k + 1;
    }
    let mut ext: String = String::new();
    glue(&mut ext, output.extensions.tokens.as_str());
    let ext_module: String = cat(SENTINEL_MOD, "::ext");
    extend_behind(&mut reg.json_ext, ext_module.as_str(), &output.extensions.json);
    extend_behind(&mut reg.text_ext, ext_module.as_str(), &output.extensions.text);
    let ghost of_messages = candidate_texts(root_reexports@);
    let ghost of_extensions = extension_reexports(output.extensions.const_idents@);
    let mut j: usize = 0;
    assert(of_messages + of_extensions.take(0) =~= of_messages);
    while j < output.extensions.const_idents.len()
        invariant
            j <= output.extensions.const_idents@.len(),
            of_extensions == extension_reexports(output.extensions.const_idents@),
            candidate_texts(root_reexports@) == of_messages + of_extensions.take(j as int),
        decreases output.extensions.const_idents@.len() - j,
    {
        push_reexport(
            &mut root_reexports,
            "ext",
            output.extensions.const_idents[j].clone(),
            None,
        );
        j = j + 1;
        assert(candidate_texts(root_reexports@) =~= of_messages + of_extensions.take(j as int));
    }
    assert(of_extensions.take(of_extensions.len() as int) =~= of_extensions);
    let stem: String = proto_path_to_stem(str_or(&file.name, ""));
    Ok(ProtoContent { stem, owned, view, lazy_view, oneof, view_oneof, ext, root_reexports })
}

} // verus!
