//! Which fields need impls for custom types, and that they get them.
use vstd::prelude::*;
use vstd::string::*;
use crate::codegen::config::CodeGenConfig;
use crate::codegen::custom_elements;
use crate::codegen::custom_elements::{
    element_kind, field_uses, fields_uses, files_uses, messages_uses, CustomElemKind,
    CustomElements, Use,
};
use crate::codegen::descriptor;
use crate::codegen::descriptor::{
    DescriptorProto, FieldDescriptorProto, FieldType, FileDescriptorProto,
};
use crate::codegen::errors::ErrorText;
use crate::codegen::gates;
use crate::codegen::names;
use crate::codegen::repr::{BytesRepr, StringRepr};
use crate::codegen::syntax;
use crate::codegen::text;
use crate::codegen::walks;

verus! {

/// A rule's path covers a field: it is the field's full name, or that of
/// something the field is in, or a single dot.
pub open spec fn rule_covers(rule: Seq<char>, name: Seq<char>) -> bool {
    ||| rule == "."@
    ||| rule == name
    ||| rule.len() < name.len() && name.take(rule.len() as int) == rule && name[rule.len() as int]
        == '.'
}

/// The rule at `r` decides for a name: it covers the name, and none behind it
/// does.
pub open spec fn decides<R>(rules: Seq<(String, R)>, r: int, name: Seq<char>) -> bool {
    &&& 0 <= r < rules.len()
    &&& rule_covers(rules[r].0@, name)
    &&& forall|j: int| r < j < rules.len() ==> !rule_covers((#[trigger] rules[j]).0@, name)
}

/// A field has its custom `string` type from the rules.
pub open spec fn string_type_is(config: CodeGenConfig, name: Seq<char>, ty: Seq<char>) -> bool {
    exists|r: int| #[trigger]
        decides(config.string_fields@, r, name) && (config.string_fields@[r].1 matches
            StringRepr::Custom(t) && t@ == ty)
}

/// A field has its custom `bytes` type from the rules.
pub open spec fn bytes_type_is(config: CodeGenConfig, name: Seq<char>, ty: Seq<char>) -> bool {
    exists|r: int| #[trigger]
        decides(config.bytes_fields@, r, name) && (config.bytes_fields@[r].1 matches
            BytesRepr::Custom(t) && t@ == ty)
}

/// A field with the full name `name` makes a use of a custom type. Only repeated
/// fields do, and maps, which are repeated: of the `string` type for text, of the
/// `bytes` type for bytes. The values of a map from bytes to bytes are left out.
pub open spec fn makes_use(
    config: CodeGenConfig,
    name: Seq<char>,
    field: FieldDescriptorProto,
    u: Use,
) -> bool {
    &&& field.repeated
    &&& match (field.map_entry, u) {
        (None, Use::Element(ty, CustomElemKind::Str)) => field.field_type == FieldType::Str
            && string_type_is(config, name, ty),
        (None, Use::Element(ty, CustomElemKind::Bytes)) => field.field_type == FieldType::Bytes
            && bytes_type_is(config, name, ty),
        (None, Use::Key(_)) => false,
        (Some(entry), Use::Key(ty)) => entry.key == Some(FieldType::Str) && string_type_is(
            config,
            name,
            ty,
        ),
        (Some(entry), Use::Element(ty, CustomElemKind::Str)) => entry.value == Some(FieldType::Str)
            && string_type_is(config, name, ty),
        (Some(entry), Use::Element(ty, CustomElemKind::Bytes)) => entry.value == Some(
            FieldType::Bytes,
        ) && entry.key != Some(FieldType::Bytes) && bytes_type_is(config, name, ty),
    }
}

/// The last rule that covers a name, however it is found.
proof fn lemma_last_rule<R>(rules: Seq<(String, R)>, n: nat, name: Seq<char>)
    requires
        n <= rules.len(),
    ensures
        match custom_elements::last_rule(rules, n, name) {
            Some(r) => 0 <= r < n && rule_covers(rules[r].0@, name) && forall|j: int|
                r < j < n ==> !rule_covers((#[trigger] rules[j]).0@, name),
            None => forall|j: int| 0 <= j < n ==> !rule_covers((#[trigger] rules[j]).0@, name),
        },
    decreases n,
{
    if n > 0 {
        lemma_last_rule(rules, (n - 1) as nat, name);
        lemma_covers(rules[n - 1].0@, name);
    }
}

proof fn lemma_covers(rule: Seq<char>, name: Seq<char>)
    ensures
        crate::codegen::extern_paths::path_covers(rule, name) == rule_covers(rule, name),
{
    reveal_strlit(".");
    let front = rule + "."@;
    if text::begins(name, front) {
        assert(name.subrange(0, front.len() as int) == front);
        assert(name[rule.len() as int] == name.subrange(0, front.len() as int)[rule.len() as int]);
        assert(name.take(rule.len() as int) =~= rule) by {
            assert forall|k: int| 0 <= k < rule.len() implies name[k] == rule[k] by {
                assert(name.subrange(0, front.len() as int)[k] == front[k]);
            }
        }
    }
    if rule.len() < name.len() && name.take(rule.len() as int) == rule && name[rule.len() as int]
        == '.' {
        assert(name.subrange(0, front.len() as int) =~= front) by {
            assert forall|k: int| 0 <= k < rule.len() implies name[k] == rule[k] by {
                assert(name.take(rule.len() as int)[k] == rule[k]);
            }
        }
    }
}

proof fn lemma_types(config: CodeGenConfig, name: Seq<char>, ty: Seq<char>)
    ensures
        custom_elements::custom_string(config, name) == Some(ty) <==> string_type_is(
            config,
            name,
            ty,
        ),
        custom_elements::custom_bytes(config, name) == Some(ty) <==> bytes_type_is(
            config,
            name,
            ty,
        ),
{
    lemma_last_rule(config.string_fields@, config.string_fields@.len(), name);
    lemma_last_rule(config.bytes_fields@, config.bytes_fields@.len(), name);
    if let Some(r) = custom_elements::last_rule(
        config.string_fields@,
        config.string_fields@.len(),
        name,
    ) {
        assert(decides(config.string_fields@, r, name));
        assert forall|q: int| decides(config.string_fields@, q, name) implies q == r by {
            if q < r {
                assert(rule_covers(config.string_fields@[r].0@, name));
            }
            if r < q {
                assert(!rule_covers(config.string_fields@[q].0@, name));
            }
        }
    }
    if let Some(r) = custom_elements::last_rule(
        config.bytes_fields@,
        config.bytes_fields@.len(),
        name,
    ) {
        assert(decides(config.bytes_fields@, r, name));
        assert forall|q: int| decides(config.bytes_fields@, q, name) implies q == r by {
            if q < r {
                assert(rule_covers(config.bytes_fields@[r].0@, name));
            }
            if r < q {
                assert(!rule_covers(config.bytes_fields@[q].0@, name));
            }
        }
    }
}

/// A field makes the uses that its rules and its type give it, and no others.
proof fn lemma_field_uses(
    config: CodeGenConfig,
    fqn: Seq<char>,
    name: Seq<char>,
    field: FieldDescriptorProto,
    u: Use,
)
    requires
        name == "."@ + fqn + "."@ + (match field.name {
            Some(n) => n@,
            None => Seq::empty(),
        }),
    ensures
        field_uses(config, fqn, field).contains(u) <==> makes_use(config, name, field, u),
{
    reveal_strlit("");
    let all = field_uses(config, fqn, field);
    assert(""@ =~= Seq::<char>::empty());
    assert(custom_elements::field_path(fqn, field) =~= name);
    let ty = match u {
        Use::Element(ty, _) => ty,
        Use::Key(ty) => ty,
    };
    lemma_types(config, name, ty);
    let s = custom_elements::custom_string(config, name);
    let b = custom_elements::custom_bytes(config, name);
    if field.repeated {
        match field.map_entry {
            None => {
                if all.contains(u) {
                    assert(all[all.index_of(u)] == u);
                }
                if makes_use(config, name, field, u) {
                    assert(all[0] == u);
                }
            },
            Some(entry) => {
                let values = if entry.value == Some(FieldType::Bytes) && entry.key != Some(
                    FieldType::Bytes,
                ) {
                    custom_elements::element_use(b, CustomElemKind::Bytes)
                } else {
                    Seq::empty()
                };
                let keys = if entry.key == Some(FieldType::Str) && s is Some {
                    seq![Use::Key(s->Some_0)]
                } else {
                    Seq::empty()
                };
                let texts = if entry.value == Some(FieldType::Str) {
                    custom_elements::element_use(s, CustomElemKind::Str)
                } else {
                    Seq::empty()
                };
                assert(all =~= values + keys + texts);
                if all.contains(u) {
                    let i = all.index_of(u);
                    assert(all[i] == u);
                }
                if makes_use(config, name, field, u) {
                    match u {
                        Use::Key(_) => assert(all[values.len() as int] == u),
                        Use::Element(_, CustomElemKind::Str) => {
                            assert(all[(values.len() + keys.len()) as int] == u);
                        },
                        Use::Element(_, CustomElemKind::Bytes) => assert(all[0] == u),
                    }
                }
            },
        }
    }
}

proof fn lemma_contains_add<T>(a: Seq<T>, b: Seq<T>, x: T)
    ensures
        (a + b).contains(x) <==> a.contains(x) || b.contains(x),
{
    if a.contains(x) {
        assert((a + b)[a.index_of(x)] == x);
    }
    if b.contains(x) {
        assert((a + b)[a.len() + b.index_of(x)] == x);
    }
    if (a + b).contains(x) {
        let i = (a + b).index_of(x);
        if i < a.len() {
            assert(a[i] == x);
        } else {
            assert(b[i - a.len()] == x);
        }
    }
}

proof fn lemma_fields_uses(
    config: CodeGenConfig,
    fqn: Seq<char>,
    fields: Seq<FieldDescriptorProto>,
    k: nat,
    u: Use,
)
    requires
        k <= fields.len(),
    ensures
        fields_uses(config, fqn, fields, k).contains(u) <==> exists|f: int|
            0 <= f < k && field_uses(config, fqn, #[trigger] fields[f]).contains(u),
    decreases k,
{
    if k > 0 {
        lemma_fields_uses(config, fqn, fields, (k - 1) as nat, u);
        lemma_contains_add(
            fields_uses(config, fqn, fields, (k - 1) as nat),
            field_uses(config, fqn, fields[k - 1]),
            u,
        );
    }
}

/// The scope that a message's own elements are in.
spec fn inner_scope(scope: Seq<char>, msg: DescriptorProto) -> Seq<char> {
    descriptor::scoped(scope, descriptor::text_or(msg.name, ""@))
}

proof fn lemma_messages_uses(
    config: CodeGenConfig,
    messages: Seq<DescriptorProto>,
    k: nat,
    scope: Seq<char>,
    u: Use,
)
    requires
        k <= messages.len(),
    ensures
        messages_uses(config, messages, k, scope).contains(u) <==> exists|i: int|
            0 <= i < k && (fields_uses(
                config,
                inner_scope(scope, #[trigger] messages[i]),
                messages[i].field@,
                messages[i].field@.len(),
            ).contains(u) || messages_uses(
                config,
                messages[i].nested_type@,
                messages[i].nested_type@.len(),
                inner_scope(scope, messages[i]),
            ).contains(u)),
    decreases k,
{
    if k > 0 {
        let msg = messages[k - 1];
        let fqn = inner_scope(scope, msg);
        let before = messages_uses(config, messages, (k - 1) as nat, scope);
        let own = fields_uses(config, fqn, msg.field@, msg.field@.len());
        let nested = messages_uses(config, msg.nested_type@, msg.nested_type@.len(), fqn);
        lemma_messages_uses(config, messages, (k - 1) as nat, scope, u);
        lemma_contains_add(before, own, u);
        lemma_contains_add(before + own, nested, u);
    }
}

/// The field at place `f` of the message that a way leads to, and its full name.
pub open spec fn field_at(messages: Seq<DescriptorProto>, way: Seq<int>, f: int) -> Option<
    FieldDescriptorProto,
> {
    match walks::message_at(messages, way) {
        None => None,
        Some(msg) => if 0 <= f < msg.field@.len() {
            Some(msg.field@[f])
        } else {
            None
        },
    }
}

/// The full name of that field, with a leading dot.
pub open spec fn field_name(
    package: Seq<char>,
    messages: Seq<DescriptorProto>,
    way: Seq<int>,
    field: FieldDescriptorProto,
) -> Seq<char> {
    walks::full_name(package, messages, way) + "."@ + (match field.name {
        Some(n) => n@,
        None => Seq::empty(),
    })
}

/// Every field of every message, however deeply nested, is looked up by its full
/// proto name; and what its rules give it is among the uses.
pub proof fn law_every_field_is_looked_up_by_its_full_name(
    config: CodeGenConfig,
    messages: Seq<DescriptorProto>,
    package: Seq<char>,
    way: Seq<int>,
    f: int,
    u: Use,
)
    requires
        field_at(messages, way, f) is Some,
        walks::all_named(walks::names_on(messages, way)),
        makes_use(
            config,
            field_name(package, messages, way, field_at(messages, way, f)->Some_0),
            field_at(messages, way, f)->Some_0,
            u,
        ),
    ensures
        messages_uses(config, messages, messages.len(), package).contains(u),
    decreases way.len(),
{
    reveal_strlit("");
    let msg = messages[way[0]];
    let fqn = inner_scope(package, msg);
    let inner = walks::names_on(msg.nested_type@, way.skip(1));
    let names = walks::names_on(messages, way);
    let field = field_at(messages, way, f)->Some_0;
    assert(""@ =~= Seq::<char>::empty());
    assert(names[0].len() > 0);
    walks::lemma_dotted_scoped(package, names[0], inner);
    assert(walks::all_named(inner)) by {
        assert forall|i: int| 0 <= i < inner.len() implies (#[trigger] inner[i]).len() > 0 by {
            assert(names[i + 1] == inner[i]);
        }
    }
    lemma_messages_uses(config, messages, messages.len(), package, u);
    if way.len() == 1 {
        assert(inner =~= Seq::<Seq<char>>::empty());
        walks::lemma_dotted_none();
        walks::lemma_dotted_first(fqn, inner);
        let name = field_name(package, messages, way, field);
        assert(walks::full_name(package, messages, way) =~= "."@ + fqn);
        lemma_field_uses(config, fqn, name, field, u);
        lemma_fields_uses(config, fqn, msg.field@, msg.field@.len(), u);
        assert(field_uses(config, fqn, msg.field@[f]).contains(u));
    } else {
        law_every_field_is_looked_up_by_its_full_name(
            config,
            msg.nested_type@,
            fqn,
            way.skip(1),
            f,
            u,
        );
    }
    assert(fields_uses(config, inner_scope(package, messages[way[0]]), msg.field@, msg.field@.len())
        .contains(u) || messages_uses(
        config,
        msg.nested_type@,
        msg.nested_type@.len(),
        inner_scope(package, messages[way[0]]),
    ).contains(u));
}

/// No use comes from anywhere else: each is that of some field of some message.
pub proof fn law_every_use_is_that_of_a_field(
    config: CodeGenConfig,
    messages: Seq<DescriptorProto>,
    package: Seq<char>,
    u: Use,
) -> (place: (Seq<int>, int))
    requires
        messages_uses(config, messages, messages.len(), package).contains(u),
        forall|way: Seq<int>|
            walks::message_at(messages, way) is Some ==> walks::all_named(
                #[trigger] walks::names_on(messages, way),
            ),
    ensures
        field_at(messages, place.0, place.1) is Some,
        makes_use(
            config,
            field_name(
                package,
                messages,
                place.0,
                field_at(messages, place.0, place.1)->Some_0,
            ),
            field_at(messages, place.0, place.1)->Some_0,
            u,
        ),
    decreases messages,
{
    reveal_strlit("");
    assert(""@ =~= Seq::<char>::empty());
    lemma_messages_uses(config, messages, messages.len(), package, u);
    let i = choose|i: int|
        0 <= i < messages.len() && (fields_uses(
            config,
            inner_scope(package, #[trigger] messages[i]),
            messages[i].field@,
            messages[i].field@.len(),
        ).contains(u) || messages_uses(
            config,
            messages[i].nested_type@,
            messages[i].nested_type@.len(),
            inner_scope(package, messages[i]),
        ).contains(u));
    let msg = messages[i];
    let fqn = inner_scope(package, msg);
    let own = seq![i];
    assert(own.skip(1) =~= Seq::<int>::empty());
    assert(walks::message_at(messages, own) == Some(msg));
    let top = walks::names_on(messages, own);
    assert(top[0].len() > 0);
    if fields_uses(config, fqn, msg.field@, msg.field@.len()).contains(u) {
        lemma_fields_uses(config, fqn, msg.field@, msg.field@.len(), u);
        let f = choose|f: int|
            0 <= f < msg.field@.len() && field_uses(config, fqn, #[trigger] msg.field@[f]).contains(
                u,
            );
        walks::lemma_dotted_scoped(package, top[0], Seq::empty());
        walks::lemma_dotted_none();
        walks::lemma_dotted_first(fqn, Seq::empty());
        assert(walks::names_on(msg.nested_type@, own.skip(1)) =~= Seq::<Seq<char>>::empty());
        assert(seq![top[0]] + Seq::<Seq<char>>::empty() =~= top);
        let name = field_name(package, messages, own, msg.field@[f]);
        assert(walks::full_name(package, messages, own) =~= "."@ + fqn);
        lemma_field_uses(config, fqn, name, msg.field@[f], u);
        (own, f)
    } else {
        assert forall|way: Seq<int>| walks::message_at(msg.nested_type@, way) is Some implies
            walks::all_named(#[trigger] walks::names_on(msg.nested_type@, way)) by {
            let longer = seq![i] + way;
            assert(longer.skip(1) =~= way);
            assert(walks::message_at(messages, longer) is Some);
            let all = walks::names_on(messages, longer);
            let inner = walks::names_on(msg.nested_type@, way);
            assert(walks::all_named(all));
            assert forall|k: int| 0 <= k < inner.len() implies (#[trigger] inner[k]).len() > 0 by {
                assert(all[k + 1] == inner[k]);
            }
        }
        let (way, f) = law_every_use_is_that_of_a_field(config, msg.nested_type@, fqn, u);
        let longer = seq![i] + way;
        assert(longer.skip(1) =~= way);
        walks::lemma_dotted_scoped(package, top[0], walks::names_on(msg.nested_type@, way));
        (longer, f)
    }
}

/// The uses of all files that are generated are those of their messages.
pub proof fn law_uses_are_those_of_the_files(
    config: CodeGenConfig,
    files: Seq<FileDescriptorProto>,
    kept: Seq<String>,
    u: Use,
)
    ensures
        files_uses(config, files, kept, kept.len()).contains(u) <==> exists|i: int, j: int|
            0 <= i < kept.len() && descriptor::file_from(files, (#[trigger] kept[i])@, 0) == Some(j)
                && messages_uses(
                config,
                (#[trigger] files[j]).message_type@,
                files[j].message_type@.len(),
                files[j].package_text(),
            ).contains(u),
{
    lemma_files_uses(config, files, kept, kept.len(), u);
}

proof fn lemma_files_uses(
    config: CodeGenConfig,
    files: Seq<FileDescriptorProto>,
    kept: Seq<String>,
    k: nat,
    u: Use,
)
    requires
        k <= kept.len(),
    ensures
        files_uses(config, files, kept, k).contains(u) <==> exists|i: int, j: int|
            0 <= i < k && descriptor::file_from(files, (#[trigger] kept[i])@, 0) == Some(j)
                && messages_uses(
                config,
                (#[trigger] files[j]).message_type@,
                files[j].message_type@.len(),
                files[j].package_text(),
            ).contains(u),
    decreases k,
{
    if k > 0 {
        lemma_files_uses(config, files, kept, (k - 1) as nat, u);
        let before = files_uses(config, files, kept, (k - 1) as nat);
        match descriptor::file_from(files, kept[k - 1]@, 0) {
            Some(j) => {
                let own = messages_uses(
                    config,
                    files[j].message_type@,
                    files[j].message_type@.len(),
                    files[j].package_text(),
                );
                lemma_contains_add(before, own, u);
            },
            None => lemma_contains_add(before, Seq::empty(), u),
        }
    }
}

/// A type counts for what it is first used for as an element.
pub proof fn law_first_use_decides(uses: Seq<Use>, i: int, p: Seq<char>, kind: CustomElemKind)
    requires
        0 <= i < uses.len(),
        uses[i] == Use::Element(p, kind),
        forall|j: int| 0 <= j < i ==> !((#[trigger] uses[j]) matches Use::Element(q, _) && q == p),
    ensures
        element_kind(uses, p) == Some(kind),
    decreases uses.len(),
{
    let init = uses.drop_last();
    if i == uses.len() - 1 {
        lemma_no_kind(init, p);
    } else {
        assert(init[i] == uses[i]);
        law_first_use_decides(init, i, p, kind);
    }
}

proof fn lemma_no_kind(uses: Seq<Use>, p: Seq<char>)
    requires
        forall|j: int|
            0 <= j < uses.len() ==> !((#[trigger] uses[j]) matches Use::Element(q, _) && q == p),
    ensures
        element_kind(uses, p) is None,
    decreases uses.len(),
{
    if uses.len() > 0 {
        let init = uses.drop_last();
        assert forall|j: int| 0 <= j < init.len() implies !((#[trigger] init[j]) matches
            Use::Element(q, _) && q == p) by {
            assert(init[j] == uses[j]);
        }
        lemma_no_kind(init, p);
        assert(uses[uses.len() - 1] == uses.last());
    }
}

proof fn lemma_is_key(uses: Seq<Use>, i: int, p: Seq<char>)
    requires
        0 <= i < uses.len(),
        uses[i] == Use::Key(p),
    ensures
        custom_elements::is_key(uses, p),
    decreases uses.len(),
{
    if i < uses.len() - 1 {
        assert(uses.drop_last()[i] == uses[i]);
        lemma_is_key(uses.drop_last(), i, p);
    }
}

/// Text with a piece in the middle holds the piece.
pub proof fn lemma_holds(a: Seq<char>, piece: Seq<char>, b: Seq<char>)
    ensures
        text::holds(a + piece + b, piece),
{
    let all = a + piece + b;
    assert(all.subrange(a.len() as int, (a.len() + piece.len()) as int) =~= piece);
    assert(text::occurs_at(all, piece, a.len() as int));
}

/// What text holds, longer text holds.
pub proof fn lemma_holds_in(a: Seq<char>, part: Seq<char>, b: Seq<char>, piece: Seq<char>)
    requires
        text::holds(part, piece),
    ensures
        text::holds(a + part + b, piece),
{
    let i = choose|i: int| text::occurs_at(part, piece, i);
    let all = a + part + b;
    let at = a.len() + i;
    assert(all.subrange(at, at + piece.len()) =~= part.subrange(i, i + piece.len()));
    assert(text::occurs_at(all, piece, at));
}

/// What code holds, it holds behind a crate feature too.
pub proof fn lemma_holds_gated(code: Seq<char>, gate: Option<Seq<char>>, piece: Seq<char>)
    requires
        text::holds(code, piece),
    ensures
        text::holds(gates::gated(code, gate), piece),
{
    match gate {
        None => {},
        Some(name) => {
            let front = "#[cfg(feature = "@ + syntax::literal(name) + ")] "@;
            lemma_holds_in(front, code, Seq::empty(), piece);
            assert(front + code + Seq::<char>::empty() =~= gates::gated(code, gate));
        },
    }
}

/// How the impl of an element begins: it is text or bytes to reflection, as it was
/// used.
pub open spec fn reflect_start(ty: Seq<char>, kind: CustomElemKind) -> Seq<char> {
    "impl ::buffa_descriptor::reflect::ReflectElement for "@ + ty
        + " { fn as_value_ref(&self) -> ::buffa_descriptor::reflect::ValueRef<'_> { "@ + (
    match kind {
        CustomElemKind::Str => "::buffa_descriptor::reflect::ValueRef::String("@,
        CustomElemKind::Bytes => "::buffa_descriptor::reflect::ValueRef::Bytes("@,
    })
}

/// How the JSON impl of an element begins.
pub open spec fn json_start(ty: Seq<char>) -> Seq<char> {
    "impl ::buffa::json_helpers::ProtoElemJson for "@ + ty + " {"@
}

/// How the impl of a key begins.
pub open spec fn key_start(ty: Seq<char>) -> Seq<char> {
    "impl ::buffa_descriptor::reflect::ReflectMapKey for "@ + ty + " {"@
}

proof fn lemma_element_impls(config: CodeGenConfig, ty: Seq<char>, kind: CustomElemKind)
    ensures
        config.generate_reflection_vtable ==> text::holds(
            custom_elements::element_impls(config, ty, kind),
            reflect_start(ty, kind),
        ),
        config.generate_json && kind == CustomElemKind::Bytes ==> text::holds(
            custom_elements::element_impls(config, ty, kind),
            json_start(ty),
        ),
{
    let reflect = custom_elements::reflect_impl(ty, kind);
    let json = custom_elements::json_impl(ty);
    let all = custom_elements::element_impls(config, ty, kind);
    let first = if config.generate_json && kind == CustomElemKind::Bytes {
        gates::gated(json, config.json_gate())
    } else {
        Seq::empty()
    };
    let second = if config.generate_reflection_vtable {
        gates::gated(reflect, config.reflect_gate())
    } else {
        Seq::empty()
    };
    if config.generate_reflection_vtable {
        let start = reflect_start(ty, kind);
        assert(reflect.len() >= start.len() && reflect.take(start.len() as int) =~= start) by {
            reveal_strlit("::buffa_descriptor::reflect::ValueRef::String(");
            reveal_strlit("::buffa_descriptor::reflect::ValueRef::Bytes(");
            reveal_strlit("::buffa_descriptor::reflect::ValueRef::String(::core::convert::AsRef::<str>::as_ref(self))");
            reveal_strlit("::buffa_descriptor::reflect::ValueRef::Bytes(::core::convert::AsRef::<[u8]>::as_ref(self))");
        }
        assert(text::occurs_at(reflect, start, 0));
        lemma_holds_gated(reflect, config.reflect_gate(), start);
        lemma_holds_in(first, second, Seq::empty(), start);
        assert(first + second + Seq::<char>::empty() =~= all);
    }
    if config.generate_json && kind == CustomElemKind::Bytes {
        let start = json_start(ty);
        assert(json.len() >= start.len() && json.take(start.len() as int) =~= start) by {
            reveal_strlit(" {");
            reveal_strlit(" { fn serialize_proto_json<S: ::serde::Serializer>(v: &Self, s: S) -> ::core::result::Result<S::Ok, S::Error> { ::buffa::json_helpers::bytes::serialize(::core::convert::AsRef::<[u8]>::as_ref(v), s) } fn deserialize_proto_json<'de, D: ::serde::Deserializer<'de>>(d: D) -> ::core::result::Result<Self, D::Error> { ::buffa::json_helpers::bytes::deserialize(d) } } ");
        }
        assert(text::occurs_at(json, start, 0));
        lemma_holds_gated(json, config.json_gate(), start);
        lemma_holds_in(Seq::empty(), first, second, start);
        assert(Seq::<char>::empty() + first + second =~= all);
    }
}

/// The impls of the types so far hold those of each.
proof fn lemma_elements_impls(
    config: CodeGenConfig,
    paths: Seq<Seq<char>>,
    kinds: Seq<CustomElemKind>,
    n: nat,
    i: int,
    all: Seq<char>,
    piece: Seq<char>,
)
    requires
        0 <= i < n <= paths.len(),
        custom_elements::elements_impls(config, paths, kinds, n) == Ok::<Seq<char>, ErrorText>(all),
    ensures
        syntax::type_syntax(paths[i]) is Some,
        text::holds(
            custom_elements::element_impls(
                config,
                syntax::type_syntax(paths[i])->Some_0.0,
                kinds[i],
            ),
            piece,
        ) ==> text::holds(all, piece),
    decreases n,
{
    let before = custom_elements::elements_impls(config, paths, kinds, (n - 1) as nat)->Ok_0;
    let ty = syntax::type_syntax(paths[n - 1])->Some_0.0;
    let own = custom_elements::element_impls(config, ty, kinds[n - 1]);
    assert(all == before + own);
    if i == n - 1 {
        if text::holds(own, piece) {
            lemma_holds_in(before, own, Seq::empty(), piece);
            assert(before + own + Seq::<char>::empty() =~= all);
        }
    } else {
        lemma_elements_impls(config, paths, kinds, (n - 1) as nat, i, before, piece);
        if text::holds(before, piece) {
            lemma_holds_in(Seq::empty(), before, own, piece);
            assert(Seq::<char>::empty() + before + own =~= all);
        }
    }
}

/// The impls with those of the keys hold what they held, and those of each key.
proof fn lemma_keys_impls(
    config: CodeGenConfig,
    elements: Seq<char>,
    paths: Seq<Seq<char>>,
    n: nat,
    all: Seq<char>,
    piece: Seq<char>,
)
    requires
        n <= paths.len(),
        custom_elements::keys_impls(config, elements, paths, n) == Ok::<Seq<char>, ErrorText>(all),
    ensures
        text::holds(elements, piece) ==> text::holds(all, piece),
        forall|i: int|
            0 <= i < n ==> syntax::type_syntax(#[trigger] paths[i]) is Some && (text::holds(
                custom_elements::key_impl(syntax::type_syntax(paths[i])->Some_0.0),
                piece,
            ) ==> text::holds(all, piece)),
    decreases n,
{
    if n > 0 {
        let before = custom_elements::keys_impls(config, elements, paths, (n - 1) as nat)->Ok_0;
        let ty = syntax::type_syntax(paths[n - 1])->Some_0.0;
        let own = custom_elements::key_impl(ty);
        let gated = gates::gated(own, config.reflect_gate());
        lemma_keys_impls(config, elements, paths, (n - 1) as nat, before, piece);
        if text::holds(before, piece) {
            lemma_holds_in(Seq::empty(), before, gated, piece);
            assert(Seq::<char>::empty() + before + gated =~= all);
        }
        if text::holds(own, piece) {
            lemma_holds_gated(own, config.reflect_gate(), piece);
            lemma_holds_in(before, gated, Seq::empty(), piece);
            assert(before + gated + Seq::<char>::empty() =~= all);
        }
    }
}

/// Every type that is used as an element gets the impls that it needs: for
/// reflection where it is generated on the types themselves, and for JSON where
/// the type holds bytes and JSON is generated.
pub proof fn law_every_element_type_gets_its_impls(
    config: CodeGenConfig,
    uses: Seq<Use>,
    elems: CustomElements,
    code: Seq<char>,
    i: int,
    p: Seq<char>,
    kind: CustomElemKind,
)
    requires
        elems.collects(uses),
        custom_elements::all_impls(
            config,
            elems.elements.keys(),
            elems.elements.values(),
            elems.map_keys.keys(),
        ) == Ok::<Seq<char>, ErrorText>(code),
        0 <= i < uses.len(),
        uses[i] == Use::Element(p, kind),
        forall|j: int| 0 <= j < i ==> !((#[trigger] uses[j]) matches Use::Element(q, _) && q == p),
    ensures
        syntax::type_syntax(p) is Some,
        config.generate_reflection_vtable ==> text::holds(
            code,
            reflect_start(syntax::type_syntax(p)->Some_0.0, kind),
        ),
        config.generate_json && kind == CustomElemKind::Bytes ==> text::holds(
            code,
            json_start(syntax::type_syntax(p)->Some_0.0),
        ),
{
    law_first_use_decides(uses, i, p, kind);
    assert(elems.elements.has(p));
    let keys = elems.elements.keys();
    let kinds = elems.elements.values();
    let at = keys.index_of(p);
    names::lemma_index_unique(keys, 0, p);
    assert(kinds[at] == kind);
    let elements = custom_elements::elements_impls(config, keys, kinds, keys.len())->Ok_0;
    let ty = syntax::type_syntax(p)->Some_0.0;
    let (a, b) = (reflect_start(ty, kind), json_start(ty));
    lemma_element_impls(config, ty, kind);
    lemma_elements_impls(config, keys, kinds, keys.len(), at, elements, a);
    lemma_elements_impls(config, keys, kinds, keys.len(), at, elements, b);
    if config.generate_reflection_vtable {
        let map_keys = elems.map_keys.keys();
        lemma_keys_impls(config, elements, map_keys, map_keys.len(), code, a);
        lemma_keys_impls(config, elements, map_keys, map_keys.len(), code, b);
    }
}

/// Every type that is used as a key gets its impl, where reflection is generated
/// on the types themselves.
pub proof fn law_every_key_type_gets_its_impl(
    config: CodeGenConfig,
    uses: Seq<Use>,
    elems: CustomElements,
    code: Seq<char>,
    i: int,
    p: Seq<char>,
)
    requires
        elems.collects(uses),
        custom_elements::all_impls(
            config,
            elems.elements.keys(),
            elems.elements.values(),
            elems.map_keys.keys(),
        ) == Ok::<Seq<char>, ErrorText>(code),
        config.generate_reflection_vtable,
        0 <= i < uses.len(),
        uses[i] == Use::Key(p),
    ensures
        syntax::type_syntax(p) is Some,
        text::holds(code, key_start(syntax::type_syntax(p)->Some_0.0)),
{
    lemma_is_key(uses, i, p);
    assert(elems.map_keys.has(p));
    let keys = elems.elements.keys();
    let kinds = elems.elements.values();
    let map_keys = elems.map_keys.keys();
    let elements = custom_elements::elements_impls(config, keys, kinds, keys.len())->Ok_0;
    let at = map_keys.index_of(p);
    assert(map_keys[at] == p);
    let ty = syntax::type_syntax(p)->Some_0.0;
    let own = custom_elements::key_impl(ty);
    let start = key_start(ty);
    assert(own.len() >= start.len() && own.take(start.len() as int) =~= start) by {
        reveal_strlit(" {");
        reveal_strlit(" { fn as_map_key_ref(&self) -> ::buffa_descriptor::reflect::MapKeyRef<'_> { ::buffa_descriptor::reflect::MapKeyRef::String(::core::convert::AsRef::<str>::as_ref(self)) } } ");
    }
    assert(text::occurs_at(own, start, 0));
    lemma_keys_impls(config, elements, map_keys, map_keys.len(), code, start);
}

} // verus!
