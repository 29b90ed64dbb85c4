//! What a file is generated to holds everything that was generated for it.
use vstd::prelude::*;
use vstd::string::*;
use crate::codegen::config::CodeGenConfig;
use crate::codegen::content;
use crate::codegen::content::{CandidateText, FileOutput, MessageOutput, RegistryText};
use crate::codegen::descriptor::{DescriptorProto, FileDescriptorProto};
use crate::codegen::element_laws;
use crate::codegen::gates;
use crate::codegen::idents;
use crate::codegen::stitch;
use crate::codegen::text;

verus! {

/// Pieces of code, each with a line break behind it; an empty one leaves nothing.
pub open spec fn each_on_a_line(parts: Seq<Seq<char>>) -> Seq<char> {
    parts.filter(|p: Seq<char>| p.len() > 0).map_values(|p: Seq<char>| p + "\n"@).flatten_alt()
}

/// One piece more.
pub proof fn lemma_one_more_line(parts: Seq<Seq<char>>, piece: Seq<char>)
    ensures
        each_on_a_line(parts.push(piece)) == content::glued(each_on_a_line(parts), piece),
{
    let some = |p: Seq<char>| p.len() > 0;
    let line = |p: Seq<char>| p + "\n"@;
    let all = parts.push(piece);
    reveal(Seq::filter);
    assert(all.drop_last() =~= parts);
    assert(all.last() == piece);
    if piece.len() > 0 {
        assert(all.filter(some) =~= parts.filter(some).push(piece));
        let before = parts.filter(some).map_values(line);
        let after = all.filter(some).map_values(line);
        assert(after =~= before.push(piece + "\n"@));
        assert(after.drop_last() =~= before);
        assert(each_on_a_line(parts) + (piece + "\n"@) =~= each_on_a_line(parts) + piece + "\n"@);
    }
}

/// No pieces.
pub proof fn lemma_no_lines()
    ensures
        each_on_a_line(Seq::empty()) == Seq::<char>::empty(),
{
    reveal(Seq::filter);
    let none = Seq::<Seq<char>>::empty();
    assert(none.filter(|p: Seq<char>| p.len() > 0) =~= none);
    assert(none.map_values(|p: Seq<char>| p + "\n"@) =~= none);
}

/// Lists one after the other, with one list more.
pub proof fn lemma_one_more_list<T>(lists: Seq<Seq<T>>, list: Seq<T>)
    ensures
        lists.push(list).flatten_alt() == lists.flatten_alt() + list,
{
    assert(lists.push(list).drop_last() =~= lists);
}

/// Paths with a module in front of each.
pub open spec fn in_module(module: Seq<char>, paths: Seq<String>) -> Seq<Seq<char>> {
    paths.map_values(|p: String| module + "::"@ + p@)
}

/// What the paths of each message come to, list by list.
pub open spec fn of_each_message(
    messages: Seq<DescriptorProto>,
    outputs: Seq<MessageOutput>,
    list: spec_fn(MessageOutput) -> Seq<String>,
    nested: bool,
) -> Seq<Seq<Seq<char>>> {
    Seq::new(
        messages.len(),
        |i: int|
            if nested {
                in_module(
                    idents::mod_ident(messages[i].nested_module_name@),
                    list(outputs[i]),
                )
            } else {
                text::texts(list(outputs[i]))
            },
    )
}

/// What a file registers comes behind what was registered before, in order and
/// each once: for types, the paths of each message; for extensions, those of each
/// message in the message's module, and then those of the file in `__buffa::ext`.
pub proof fn law_file_registers_everything(
    file: FileDescriptorProto,
    output: FileOutput,
    start: RegistryText,
)
    requires
        content::output_fits(file, output),
    ensures
        ({
            let reg = content::registry_of_file(file, output, start);
            let (messages, outputs) = (file.message_type@, output.messages@);
            &&& reg.json_any == start.json_any + of_each_message(
                messages,
                outputs,
                |m: MessageOutput| m.reg.json_any@,
                false,
            ).flatten_alt()
            &&& reg.text_any == start.text_any + of_each_message(
                messages,
                outputs,
                |m: MessageOutput| m.reg.text_any@,
                false,
            ).flatten_alt()
            &&& reg.json_ext == start.json_ext + of_each_message(
                messages,
                outputs,
                |m: MessageOutput| m.reg.json_ext@,
                true,
            ).flatten_alt() + in_module("__buffa::ext"@, output.extensions.json@)
            &&& reg.text_ext == start.text_ext + of_each_message(
                messages,
                outputs,
                |m: MessageOutput| m.reg.text_ext@,
                true,
            ).flatten_alt() + in_module("__buffa::ext"@, output.extensions.text@)
        }),
{
    let (messages, outputs) = (file.message_type@, output.messages@);
    let n = messages.len();
    lemma_registry_after(messages, outputs, n, start);
    let json_any = of_each_message(messages, outputs, |m: MessageOutput| m.reg.json_any@, false);
    let text_any = of_each_message(messages, outputs, |m: MessageOutput| m.reg.text_any@, false);
    let json_ext = of_each_message(messages, outputs, |m: MessageOutput| m.reg.json_ext@, true);
    let text_ext = of_each_message(messages, outputs, |m: MessageOutput| m.reg.text_ext@, true);
    assert(json_any.take(n as int) =~= json_any);
    assert(text_any.take(n as int) =~= text_any);
    assert(json_ext.take(n as int) =~= json_ext);
    assert(text_ext.take(n as int) =~= text_ext);
    reveal_strlit("__buffa");
    reveal_strlit("::ext");
    reveal_strlit("__buffa::ext");
    let module = crate::codegen::packages::SENTINEL_MOD@ + "::ext"@;
    assert(module =~= "__buffa::ext"@);
    assert(content::behind(module, text::texts(output.extensions.json@)) =~= in_module(
        module,
        output.extensions.json@,
    ));
    assert(content::behind(module, text::texts(output.extensions.text@)) =~= in_module(
        module,
        output.extensions.text@,
    ));
}

proof fn lemma_registry_after(
    messages: Seq<DescriptorProto>,
    outputs: Seq<MessageOutput>,
    k: nat,
    start: RegistryText,
)
    requires
        k <= messages.len(),
        outputs.len() == messages.len(),
    ensures
        ({
            let reg = content::registry_after(messages, outputs, k, start);
            let f = |list: spec_fn(MessageOutput) -> Seq<String>, nested: bool|
                of_each_message(messages, outputs, list, nested).take(k as int).flatten_alt();
            &&& reg.json_any == start.json_any + f(|m: MessageOutput| m.reg.json_any@, false)
            &&& reg.text_any == start.text_any + f(|m: MessageOutput| m.reg.text_any@, false)
            &&& reg.json_ext == start.json_ext + f(|m: MessageOutput| m.reg.json_ext@, true)
            &&& reg.text_ext == start.text_ext + f(|m: MessageOutput| m.reg.text_ext@, true)
        }),
    decreases k,
{
    let lists = seq![
        of_each_message(messages, outputs, |m: MessageOutput| m.reg.json_any@, false),
        of_each_message(messages, outputs, |m: MessageOutput| m.reg.text_any@, false),
        of_each_message(messages, outputs, |m: MessageOutput| m.reg.json_ext@, true),
        of_each_message(messages, outputs, |m: MessageOutput| m.reg.text_ext@, true),
    ];
    let reg = content::registry_after(messages, outputs, k, start);
    if k == 0 {
        let none = Seq::<Seq<Seq<char>>>::empty();
        assert(lists[0].take(0) =~= none);
        assert(lists[1].take(0) =~= none);
        assert(lists[2].take(0) =~= none);
        assert(lists[3].take(0) =~= none);
        assert(none.flatten_alt() =~= Seq::<Seq<char>>::empty());
        assert(start.json_any + none.flatten_alt() =~= start.json_any);
        assert(start.text_any + none.flatten_alt() =~= start.text_any);
        assert(start.json_ext + none.flatten_alt() =~= start.json_ext);
        assert(start.text_ext + none.flatten_alt() =~= start.text_ext);
    } else {
        lemma_registry_after(messages, outputs, (k - 1) as nat, start);
        let before = content::registry_after(messages, outputs, (k - 1) as nat, start);
        let module = idents::mod_ident(messages[k - 1].nested_module_name@);
        let own = outputs[k - 1].reg;
        assert(content::behind(module, own@.json_ext) =~= in_module(module, own.json_ext@));
        assert(content::behind(module, own@.text_ext) =~= in_module(module, own.text_ext@));
        lemma_take_list(lists[0], k);
        lemma_take_list(lists[1], k);
        lemma_take_list(lists[2], k);
        lemma_take_list(lists[3], k);
        assert(reg.json_any =~= start.json_any + lists[0].take(k as int).flatten_alt());
        assert(reg.text_any =~= start.text_any + lists[1].take(k as int).flatten_alt());
        assert(reg.json_ext =~= start.json_ext + lists[2].take(k as int).flatten_alt());
        assert(reg.text_ext =~= start.text_ext + lists[3].take(k as int).flatten_alt());
    }
}

/// The first lists, one after the other.
pub proof fn lemma_take_list<T>(lists: Seq<Seq<T>>, k: nat)
    requires
        0 < k <= lists.len(),
    ensures
        lists.take(k as int).flatten_alt() == lists.take(k - 1).flatten_alt() + lists[k - 1],
{
    assert(lists.take(k as int).drop_last() =~= lists.take(k - 1));
    assert(lists.take(k as int).last() == lists[k - 1]);
}

/// The statement that registers a path.
pub open spec fn statement(method: Seq<char>, path: Seq<char>) -> Seq<char> {
    "reg."@ + method + "(super::"@ + path + "); "@
}

/// The statements for a list of paths, each behind the list's crate feature.
pub open spec fn statements(
    method: Seq<char>,
    paths: Seq<Seq<char>>,
    gate: Option<Seq<char>>,
) -> Seq<char> {
    paths.map_values(|p: Seq<char>| gates::gated(statement(method, p), gate)).flatten_alt()
}

proof fn lemma_registrations(
    method: Seq<char>,
    paths: Seq<Seq<char>>,
    gate: Option<Seq<char>>,
)
    ensures
        stitch::registrations(method, paths, gate) == statements(method, paths, gate),
    decreases paths.len(),
{
    let f = |p: Seq<char>| gates::gated(statement(method, p), gate);
    if paths.len() == 0 {
        assert(paths.map_values(f) =~= Seq::<Seq<char>>::empty());
    } else {
        lemma_registrations(method, paths.drop_last(), gate);
        let all = paths.map_values(f);
        assert(all.drop_last() =~= paths.drop_last().map_values(f));
        assert(all.last() == f(paths.last()));
    }
}

/// A package's registering function has one statement for each path: in its body
/// stand those for JSON types, for JSON extensions, for text types and for text
/// extensions, each list in order, and nothing else. Without a path there is no
/// function.
pub proof fn law_every_path_is_registered(config: CodeGenConfig, reg: RegistryText)
    ensures
        config.emit_register_fn && reg.json_any.len() + reg.json_ext.len() + reg.text_any.len()
            + reg.text_ext.len() > 0 ==> exists|head: Seq<char>|
            {
                &&& #[trigger] text::ends(
                    head,
                    "pub fn register_types(reg: &mut ::buffa::type_registry::TypeRegistry) { "@,
                )
                &&& stitch::register_fn(config, reg) == gates::gated_any(
                    head + statements("register_json_any"@, reg.json_any, config.json_gate())
                        + statements("register_json_ext"@, reg.json_ext, config.json_gate())
                        + statements("register_text_any"@, reg.text_any, config.text_gate())
                        + statements("register_text_ext"@, reg.text_ext, config.text_gate())
                        + "}"@,
                    config.json_gate(),
                    config.text_gate(),
                )
            },
        !config.emit_register_fn || reg.json_any.len() + reg.json_ext.len() + reg.text_any.len()
            + reg.text_ext.len() == 0 ==> stitch::register_fn(config, reg).len() == 0,
{
    lemma_registrations("register_json_any"@, reg.json_any, config.json_gate());
    lemma_registrations("register_json_ext"@, reg.json_ext, config.json_gate());
    lemma_registrations("register_text_any"@, reg.text_any, config.text_gate());
    lemma_registrations("register_text_ext"@, reg.text_ext, config.text_gate());
    let sign = "pub fn register_types(reg: &mut ::buffa::type_registry::TypeRegistry) { "@;
    let front = "#[doc = \" Register this package's `Any` type entries and extension entries.\"] "@
        + (if config.gate_impls_on_crate_features {
        "#[allow(unused_variables)] "@
    } else {
        ""@
    });
    let head = front + sign;
    assert(head.skip(head.len() - sign.len()) =~= sign);
    assert(head.subrange(head.len() - sign.len(), head.len() as int) =~= sign);
    assert(text::ends(head, sign));
}

proof fn lemma_trees_text(messages: Seq<MessageOutput>, k: nat, tree: content::Tree)
    requires
        k <= messages.len(),
    ensures
        content::trees_text(messages, k, tree) == each_on_a_line(
            messages.take(k as int).map_values(|m: MessageOutput| content::tree_of(m, tree)),
        ),
    decreases k,
{
    let f = |m: MessageOutput| content::tree_of(m, tree);
    if k == 0 {
        assert(messages.take(0).map_values(f) =~= Seq::<Seq<char>>::empty());
        lemma_no_lines();
    } else {
        lemma_trees_text(messages, (k - 1) as nat, tree);
        let before = messages.take(k - 1).map_values(f);
        assert(messages.take(k as int).map_values(f) =~= before.push(f(messages[k - 1])));
        lemma_one_more_line(before, f(messages[k - 1]));
    }
}

proof fn lemma_enums_text(enums: Seq<String>, k: nat)
    requires
        k <= enums.len(),
    ensures
        content::enums_text(enums, k) == each_on_a_line(text::texts(enums).take(k as int)),
    decreases k,
{
    let all = text::texts(enums);
    if k == 0 {
        assert(all.take(0) =~= Seq::<Seq<char>>::empty());
        lemma_no_lines();
    } else {
        lemma_enums_text(enums, (k - 1) as nat);
        assert(all.take(k as int) =~= all.take(k - 1).push(all[k - 1]));
        lemma_one_more_line(all.take(k - 1), all[k - 1]);
    }
}

/// The owned code of a message: the message itself, and the module of what is
/// nested in it.
pub open spec fn owned_parts(msg: DescriptorProto, output: MessageOutput) -> Seq<Seq<char>> {
    seq![output.owned_top@, content::mod_block(msg, output.owned_mod@)]
}

/// The owned code of each message.
pub open spec fn all_owned_parts(file: FileDescriptorProto, output: FileOutput) -> Seq<
    Seq<Seq<char>>,
> {
    Seq::new(
        file.message_type@.len(),
        |i: int| owned_parts(file.message_type@[i], output.messages@[i]),
    )
}

proof fn lemma_owned_text(file: FileDescriptorProto, output: FileOutput, k: nat)
    requires
        content::output_fits(file, output),
        k <= file.message_type@.len(),
    ensures
        content::owned_text(file.message_type@, output, k) == each_on_a_line(
            text::texts(output.enums@) + all_owned_parts(file, output).take(k as int).flatten_alt(),
        ),
    decreases k,
{
    let enums = text::texts(output.enums@);
    let all = all_owned_parts(file, output);
    if k == 0 {
        lemma_enums_text(output.enums@, output.enums@.len());
        assert(enums.take(enums.len() as int) =~= enums);
        assert(all.take(0) =~= Seq::<Seq<Seq<char>>>::empty());
        assert(enums + all.take(0).flatten_alt() =~= enums);
    } else {
        lemma_owned_text(file, output, (k - 1) as nat);
        lemma_take_list(all, k);
        let before = enums + all.take(k - 1).flatten_alt();
        let own = owned_parts(file.message_type@[k - 1], output.messages@[k - 1]);
        assert(enums + all.take(k as int).flatten_alt() =~= before.push(own[0]).push(own[1]));
        lemma_one_more_line(before, own[0]);
        lemma_one_more_line(before.push(own[0]), own[1]);
    }
}

/// A file's content has all the code of its elements, each kind in its own part
/// and in the order of the elements: the enums and then the messages among the
/// owned types, with what is nested in a message behind it; and the views, the lazy
/// views, the oneof enums and those of the views of each message.
pub proof fn law_content_has_all_code(
    config: CodeGenConfig,
    file: FileDescriptorProto,
    output: FileOutput,
)
    requires
        content::output_fits(file, output),
    ensures
        ({
            let c = content::content_of(config, file, output);
            let messages = output.messages@;
            &&& c.owned == each_on_a_line(
                text::texts(output.enums@) + all_owned_parts(file, output).flatten_alt(),
            )
            &&& c.view == each_on_a_line(messages.map_values(|m: MessageOutput| m.view_tree@))
            &&& c.lazy_view == each_on_a_line(
                messages.map_values(|m: MessageOutput| m.lazy_view_tree@),
            )
            &&& c.oneof == each_on_a_line(messages.map_values(|m: MessageOutput| m.oneof_tree@))
            &&& c.view_oneof == each_on_a_line(
                messages.map_values(|m: MessageOutput| m.view_oneof_tree@),
            )
            &&& c.ext == each_on_a_line(seq![output.extensions.tokens@])
        }),
{
    let messages = output.messages@;
    let n = messages.len();
    let all = all_owned_parts(file, output);
    lemma_owned_text(file, output, n);
    assert(all.take(n as int) =~= all);
    assert(messages.take(n as int) =~= messages);
    lemma_trees_text(messages, n, content::Tree::View);
    lemma_trees_text(messages, n, content::Tree::LazyView);
    lemma_trees_text(messages, n, content::Tree::Oneof);
    lemma_trees_text(messages, n, content::Tree::ViewOneof);
    assert(messages.map_values(|m: MessageOutput| content::tree_of(m, content::Tree::View))
        =~= messages.map_values(|m: MessageOutput| m.view_tree@));
    assert(messages.map_values(|m: MessageOutput| content::tree_of(m, content::Tree::LazyView))
        =~= messages.map_values(|m: MessageOutput| m.lazy_view_tree@));
    assert(messages.map_values(|m: MessageOutput| content::tree_of(m, content::Tree::Oneof))
        =~= messages.map_values(|m: MessageOutput| m.oneof_tree@));
    assert(messages.map_values(|m: MessageOutput| content::tree_of(m, content::Tree::ViewOneof))
        =~= messages.map_values(|m: MessageOutput| m.view_oneof_tree@));
    lemma_no_lines();
    lemma_one_more_line(Seq::empty(), output.extensions.tokens@);
    assert(Seq::<Seq<char>>::empty().push(output.extensions.tokens@) =~= seq![
        output.extensions.tokens@,
    ]);
}

/// What is nested in a message stands in a module by the name that the message's
/// module goes by; where nothing is nested there is none. The module has a note
/// where its name was told apart from another's, and only there.
pub proof fn law_nested_code_has_its_module(msg: DescriptorProto, body: Seq<char>)
    ensures
        body.len() == 0 ==> content::mod_block(msg, body).len() == 0,
        body.len() > 0 ==> exists|note: Seq<char>| #[trigger]
            content::mod_block(msg, body) == note + ("pub mod "@ + idents::mod_ident(
                msg.nested_module_name@,
            ) + " { #[allow(unused_imports)] use super::*; "@ + body + " }"@) && (note.len() == 0
                <==> msg.nested_module_name@ == msg.module_name@) && (note.len() > 0
                ==> text::begins(note, "#[doc = "@)),
{
    if body.len() > 0 {
        let note = content::mod_doc(msg);
        let block = "pub mod "@ + idents::mod_ident(msg.nested_module_name@)
            + " { #[allow(unused_imports)] use super::*; "@ + body + " }"@;
        reveal_strlit("#[doc = ");
        assert(content::mod_block(msg, body) =~= note + block);
        if note.len() > 0 {
            assert(note.subrange(0, "#[doc = "@.len() as int) =~= "#[doc = "@);
        }
    }
}

/// A candidate re-exports a name out of one of the reserved module's modules.
pub open spec fn reexports(c: CandidateText, module: Seq<char>, name: Seq<char>) -> bool {
    &&& c.name == name
    &&& text::holds(c.tokens, "pub use self::__buffa::"@ + module + "::"@ + name + ";"@)
}

proof fn lemma_reexports(module: Seq<char>, name: Seq<char>, gate: Option<Seq<char>>)
    ensures
        reexports(content::reexport(module, name, gate), module, name),
{
    reveal_strlit("#[doc(inline)] pub use self::");
    reveal_strlit("pub use self::__buffa::");
    reveal_strlit("__buffa");
    reveal_strlit("::");
    reveal_strlit("#[doc(inline)] ");
    let sentinel = crate::codegen::packages::SENTINEL_MOD@;
    let code = "#[doc(inline)] pub use self::"@ + sentinel + "::"@ + module + "::"@ + name + ";"@;
    let piece = "pub use self::__buffa::"@ + module + "::"@ + name + ";"@;
    assert(code =~= "#[doc(inline)] "@ + piece);
    element_laws::lemma_holds("#[doc(inline)] "@, piece, Seq::empty());
    assert("#[doc(inline)] "@ + piece + Seq::<char>::empty() =~= code);
    element_laws::lemma_holds_gated(code, gate, piece);
}

/// The name of a message in the generated code.
pub open spec fn rust_name(config: CodeGenConfig, msg: DescriptorProto) -> Seq<char> {
    config.type_name_prefix@ + (match msg.name {
        Some(name) => name@,
        None => Seq::empty(),
    })
}

/// The views of every message, where views are generated, and every extension's
/// constant could be re-exported, and nothing else.
pub proof fn law_every_view_could_be_reexported(
    config: CodeGenConfig,
    file: FileDescriptorProto,
    output: FileOutput,
)
    ensures
        ({
            let all = content::content_of(config, file, output).root_reexports;
            let n = file.message_type@.len();
            let per = if !config.generate_views {
                0
            } else if config.lazy_views {
                3
            } else {
                2int
            };
            &&& all.len() == n * per + output.extensions.const_idents@.len()
            &&& forall|i: int|
                #![trigger file.message_type@[i]]
                0 <= i < n && config.generate_views ==> {
                    let name = rust_name(config, file.message_type@[i]);
                    &&& reexports(all[i * per], "view"@, name + "View"@)
                    &&& reexports(all[i * per + 1], "view"@, name + "OwnedView"@)
                    &&& config.lazy_views ==> reexports(
                        all[i * per + 2],
                        "lazy_view"@,
                        name + "LazyView"@,
                    )
                }
            &&& forall|j: int|
                #![trigger output.extensions.const_idents@[j]]
                0 <= j < output.extensions.const_idents@.len() ==> reexports(
                    all[n * per + j],
                    "ext"@,
                    output.extensions.const_idents@[j]@,
                )
        }),
{
    let n = file.message_type@.len();
    let idents = output.extensions.const_idents@;
    lemma_messages_reexports(config, file.message_type@, n);
    let front = content::messages_reexports(config, file.message_type@, n);
    let back = content::extension_reexports(idents);
    let all = content::content_of(config, file, output).root_reexports;
    assert(all == front + back);
    assert forall|j: int| #![trigger idents[j]] 0 <= j < idents.len() implies reexports(
        all[front.len() + j],
        "ext"@,
        idents[j]@,
    ) by {
        assert(back[j] == content::reexport("ext"@, idents[j]@, None));
        lemma_reexports("ext"@, idents[j]@, None);
    }
    let per = if !config.generate_views {
        0
    } else if config.lazy_views {
        3
    } else {
        2int
    };
    assert forall|i: int| #![trigger file.message_type@[i]] 0 <= i < n
        && config.generate_views implies {
        let name = rust_name(config, file.message_type@[i]);
        &&& reexports(all[i * per], "view"@, name + "View"@)
        &&& reexports(all[i * per + 1], "view"@, name + "OwnedView"@)
        &&& config.lazy_views ==> reexports(all[i * per + 2], "lazy_view"@, name + "LazyView"@)
    } by {
        assert(i * per + per <= n * per) by (nonlinear_arith)
            requires
                0 <= i < n,
                per >= 0,
        ;
        assert(i * per >= 0) by (nonlinear_arith)
            requires
                0 <= i,
                per >= 0,
        ;
        assert(all[i * per] == front[i * per]);
        assert(all[i * per + 1] == front[i * per + 1]);
        if config.lazy_views {
            assert(all[i * per + 2] == front[i * per + 2]);
        }
    }
}

proof fn lemma_messages_reexports(config: CodeGenConfig, messages: Seq<DescriptorProto>, k: nat)
    requires
        k <= messages.len(),
    ensures
        ({
            let all = content::messages_reexports(config, messages, k);
            let per = if !config.generate_views {
                0
            } else if config.lazy_views {
                3
            } else {
                2int
            };
            &&& all.len() == k * per
            &&& forall|i: int|
                #![trigger messages[i]]
                0 <= i < k && config.generate_views ==> {
                    let name = rust_name(config, messages[i]);
                    &&& reexports(all[i * per], "view"@, name + "View"@)
                    &&& reexports(all[i * per + 1], "view"@, name + "OwnedView"@)
                    &&& config.lazy_views ==> reexports(
                        all[i * per + 2],
                        "lazy_view"@,
                        name + "LazyView"@,
                    )
                }
        }),
    decreases k,
{
    let per = if !config.generate_views {
        0
    } else if config.lazy_views {
        3
    } else {
        2int
    };
    if k > 0 {
        reveal_strlit("");
        assert(""@ =~= Seq::<char>::empty());
        lemma_messages_reexports(config, messages, (k - 1) as nat);
        let before = content::messages_reexports(config, messages, (k - 1) as nat);
        let own = content::message_reexports(config, messages[k - 1].name);
        let all = before + own;
        let last = rust_name(config, messages[k - 1]);
        lemma_reexports("view"@, last + "View"@, config.views_gate());
        lemma_reexports("view"@, last + "OwnedView"@, config.views_gate());
        lemma_reexports("lazy_view"@, last + "LazyView"@, config.views_gate());
        assert(k * per == (k - 1) * per + per) by (nonlinear_arith);
        assert(own.len() == per);
        assert forall|i: int| #![trigger messages[i]] 0 <= i < k
            && config.generate_views implies {
            let name = rust_name(config, messages[i]);
            &&& reexports(all[i * per], "view"@, name + "View"@)
            &&& reexports(all[i * per + 1], "view"@, name + "OwnedView"@)
            &&& config.lazy_views ==> reexports(
                all[i * per + 2],
                "lazy_view"@,
                name + "LazyView"@,
            )
        } by {
            if i < k - 1 {
                assert(i * per + per <= (k - 1) * per) by (nonlinear_arith)
                    requires
                        0 <= i < k - 1,
                        per >= 0,
                ;
                assert(i * per >= 0) by (nonlinear_arith)
                    requires
                        0 <= i,
                        per >= 0,
                ;
                assert(all[i * per] == before[i * per]);
                assert(all[i * per + 1] == before[i * per + 1]);
                if config.lazy_views {
                    assert(all[i * per + 2] == before[i * per + 2]);
                }
            } else {
                assert(all[i * per] == own[0]);
                assert(all[i * per + 1] == own[1]);
                if config.lazy_views {
                    assert(all[i * per + 2] == own[2]);
                }
            }
        }
    }
}

} // verus!
