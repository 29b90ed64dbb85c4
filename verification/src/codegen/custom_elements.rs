//! Impls for custom types that are elements of containers.
//!
//! A custom `string` or `bytes` type that is the element of a repeated field, or
//! a value or a key of a map, needs impls that the runtime cannot provide for it.
//! The generator finds these types over all files, and emits each impl once.
use vstd::prelude::*;
use vstd::string::*;
use crate::codegen::config::CodeGenConfig;
use crate::codegen::descriptor;
use crate::codegen::descriptor::{
    find_file, scoped_name, str_or, DescriptorProto, FieldDescriptorProto, FieldType,
    FileDescriptorProto,
};
use crate::codegen::errors::CodeGenError;
use crate::codegen::errors::ErrorText;
use crate::codegen::extern_paths;
use crate::codegen::extern_paths::covers_path;
use crate::codegen::gates;
use crate::codegen::gates::cfg_block;
use crate::codegen::names;
use crate::codegen::names::NameMap;
use crate::codegen::repr;
use crate::codegen::repr::{parse_custom_type_path, BytesRepr, StringRepr};
use crate::codegen::syntax;

verus! {

/// What a custom element type holds.
#[derive(Debug, Clone, Copy, PartialEq, Eq, Structural)]
pub enum CustomElemKind {
    /// Text.
    Str,
    /// Bytes.
    Bytes,
}

/// The custom types that need impls.
#[derive(Debug)]
pub struct CustomElements {
    /// The types that are elements of a repeated field or values of a map.
    pub elements: NameMap<CustomElemKind>,
    /// The types that are keys of a map.
    pub map_keys: NameMap<()>,
}

/// A use of a custom type.
pub enum Use {
    /// As an element or a value.
    Element(Seq<char>, CustomElemKind),
    /// As a key.
    Key(Seq<char>),
}

/// What the first use of a type as an element holds.
pub open spec fn element_kind(uses: Seq<Use>, path: Seq<char>) -> Option<CustomElemKind>
    decreases uses.len(),
{
    if uses.len() == 0 {
        None
    } else {
        match element_kind(uses.drop_last(), path) {
            Some(kind) => Some(kind),
            None => match uses.last() {
                Use::Element(p, kind) => if p == path {
                    Some(kind)
                } else {
                    None
                },
                Use::Key(_) => None,
            },
        }
    }
}

/// A type is used as a key.
pub open spec fn is_key(uses: Seq<Use>, path: Seq<char>) -> bool
    decreases uses.len(),
{
    uses.len() > 0 && (is_key(uses.drop_last(), path) || match uses.last() {
        Use::Key(p) => p == path,
        Use::Element(_, _) => false,
    })
}

impl CustomElements {
    /// The types are those of the given uses. A type that is used for both text
    /// and bytes counts for what it was used for first.
    pub open spec fn collects(&self, uses: Seq<Use>) -> bool {
        &&& self.elements.wf()
        &&& self.map_keys.wf()
        &&& forall|p: Seq<char>| #[trigger]
            self.elements.has(p) <==> element_kind(uses, p) is Some
        &&& forall|p: Seq<char>| #[trigger]
            self.elements.has(p) ==> self.elements.at(p) == element_kind(uses, p)->Some_0
        &&& forall|p: Seq<char>| #[trigger] self.map_keys.has(p) <==> is_key(uses, p)
    }

    /// Record a use as an element.
    fn add_element(&mut self, path: &str, kind: CustomElemKind, Ghost(uses): Ghost<Seq<Use>>)
        requires
            old(self).collects(uses),
        ensures
            final(self).collects(uses.push(Use::Element(path@, kind))),
    {
        let ghost before = self.elements;
        self.elements.insert_if_absent(path, kind);
        proof {
            let after = uses.push(Use::Element(path@, kind));
            assert(after.drop_last() =~= uses);
            assert forall|p: Seq<char>| #[trigger] self.elements.has(p) <==> element_kind(after, p)
                is Some by {
                assert(before.has(p) <==> element_kind(uses, p) is Some);
            }
            assert forall|p: Seq<char>| #[trigger] self.elements.has(p) implies self.elements.at(p)
                == element_kind(after, p)->Some_0 by {
                assert(before.has(p) <==> element_kind(uses, p) is Some);
                assert(self.elements.at(p) == self.elements.at(p));
            }
            assert forall|p: Seq<char>| #[trigger] self.map_keys.has(p) <==> is_key(after, p) by {
                assert(self.map_keys.has(p) <==> is_key(uses, p));
            }
        }
    }

    /// Record a use as a key.
    fn add_key(&mut self, path: &str, Ghost(uses): Ghost<Seq<Use>>)
        requires
            old(self).collects(uses),
        ensures
            final(self).collects(uses.push(Use::Key(path@))),
    {
        let ghost before = self.map_keys;
        self.map_keys.insert_if_absent(path, ());
        proof {
            let after = uses.push(Use::Key(path@));
            assert(after.drop_last() =~= uses);
            assert forall|p: Seq<char>| #[trigger] self.elements.has(p) <==> element_kind(after, p)
                is Some by {
                assert(self.elements.has(p) <==> element_kind(uses, p) is Some);
            }
            assert forall|p: Seq<char>| #[trigger] self.elements.has(p) implies self.elements.at(p)
                == element_kind(after, p)->Some_0 by {
                assert(self.elements.at(p) == element_kind(uses, p)->Some_0);
            }
            assert forall|p: Seq<char>| #[trigger] self.map_keys.has(p) <==> is_key(after, p) by {
                assert(before.has(p) <==> is_key(uses, p));
            }
        }
    }
}

/// The last of the first `n` rules that covers a path.
pub open spec fn last_rule<R>(rules: Seq<(String, R)>, n: nat, path: Seq<char>) -> Option<int>
    decreases n,
{
    if n == 0 || n > rules.len() {
        None
    } else if extern_paths::path_covers(rules[n - 1].0@, path) {
        Some(n - 1)
    } else {
        last_rule(rules, (n - 1) as nat, path)
    }
}

/// Find the last rule that covers a path.
fn find_rule<R>(rules: &Vec<(String, R)>, path: &str) -> (r: Option<usize>)
    ensures
        match r {
            Some(i) => last_rule(rules@, rules@.len(), path@) == Some(i as int) && i < rules@.len(),
            None => last_rule(rules@, rules@.len(), path@) is None,
        },
{
    let mut n: usize = rules.len();
    while n > 0
        invariant
            n <= rules@.len(),
            last_rule(rules@, rules@.len(), path@) == last_rule(rules@, n as nat, path@),
        decreases n,
    {
        if covers_path(rules[n - 1].0.as_str(), path) {
            return Some(n - 1);
        }
        n = n - 1;
    }
    None
}

/// The custom type of a `string` field, if its rules give it one.
pub open spec fn custom_string(config: CodeGenConfig, path: Seq<char>) -> Option<Seq<char>> {
    let rules = config.string_fields@;
    match last_rule(rules, rules.len(), path) {
        Some(i) => match rules[i].1 {
            StringRepr::Custom(ty) => Some(ty@),
            _ => None,
        },
        None => None,
    }
}

/// The custom type of a `bytes` field, if its rules give it one.
pub open spec fn custom_bytes(config: CodeGenConfig, path: Seq<char>) -> Option<Seq<char>> {
    let rules = config.bytes_fields@;
    match last_rule(rules, rules.len(), path) {
        Some(i) => match rules[i].1 {
            BytesRepr::Custom(ty) => Some(ty@),
            _ => None,
        },
        None => None,
    }
}

/// The custom type of a `string` field, if its rules give it one.
fn string_type<'a>(config: &'a CodeGenConfig, path: &str) -> (r: Option<&'a str>)
    ensures
        match r {
            Some(ty) => custom_string(*config, path@) == Some(ty@),
            None => custom_string(*config, path@) is None,
        },
{
    match find_rule(&config.string_fields, path) {
        Some(i) => match &config.string_fields[i].1 {
            StringRepr::Custom(ty) => Some(ty.as_str()),
            _ => None,
        },
        None => None,
    }
}

/// The custom type of a `bytes` field, if its rules give it one.
fn bytes_type<'a>(config: &'a CodeGenConfig, path: &str) -> (r: Option<&'a str>)
    ensures
        match r {
            Some(ty) => custom_bytes(*config, path@) == Some(ty@),
            None => custom_bytes(*config, path@) is None,
        },
{
    match find_rule(&config.bytes_fields, path) {
        Some(i) => match &config.bytes_fields[i].1 {
            BytesRepr::Custom(ty) => Some(ty.as_str()),
            _ => None,
        },
        None => None,
    }
}

/// A use, if there is a type.
pub open spec fn element_use(ty: Option<Seq<char>>, kind: CustomElemKind) -> Seq<Use> {
    match ty {
        Some(ty) => seq![Use::Element(ty, kind)],
        None => Seq::empty(),
    }
}

/// The path that the rules know a field by.
pub open spec fn field_path(fqn: Seq<char>, field: FieldDescriptorProto) -> Seq<char> {
    "."@ + fqn + "."@ + descriptor::text_or(field.name, ""@)
}

/// The uses of custom types that a field makes. Only a repeated field, or a map,
/// makes any. The values of a map of bytes to bytes are never custom.
pub open spec fn field_uses(
    config: CodeGenConfig,
    fqn: Seq<char>,
    field: FieldDescriptorProto,
) -> Seq<Use> {
    let path = field_path(fqn, field);
    if !field.repeated {
        Seq::empty()
    } else {
        match field.map_entry {
            Some(entry) => {
                let value_bytes = if entry.value == Some(FieldType::Bytes) && entry.key != Some(
                    FieldType::Bytes,
                ) {
                    element_use(custom_bytes(config, path), CustomElemKind::Bytes)
                } else {
                    Seq::empty()
                };
                let keys = if entry.key == Some(FieldType::Str) && custom_string(config, path)
                    is Some {
                    seq![Use::Key(custom_string(config, path)->Some_0)]
                } else {
                    Seq::empty()
                };
                let values = if entry.value == Some(FieldType::Str) {
                    element_use(custom_string(config, path), CustomElemKind::Str)
                } else {
                    Seq::empty()
                };
                value_bytes + keys + values
            },
            None => match field.field_type {
                FieldType::Str => element_use(custom_string(config, path), CustomElemKind::Str),
                FieldType::Bytes => element_use(custom_bytes(config, path), CustomElemKind::Bytes),
                FieldType::Other => Seq::empty(),
            },
        }
    }
}

/// The uses that the first `k` fields make.
pub open spec fn fields_uses(
    config: CodeGenConfig,
    fqn: Seq<char>,
    fields: Seq<FieldDescriptorProto>,
    k: nat,
) -> Seq<Use>
    decreases k,
{
    if k == 0 || k > fields.len() {
        Seq::empty()
    } else {
        fields_uses(config, fqn, fields, (k - 1) as nat) + field_uses(config, fqn, fields[k - 1])
    }
}

/// The uses that the first `k` messages of a scope make, with everything nested
/// in them.
pub open spec fn messages_uses(
    config: CodeGenConfig,
    messages: Seq<DescriptorProto>,
    k: nat,
    scope: Seq<char>,
) -> Seq<Use>
    decreases messages, k,
{
    if k == 0 || k > messages.len() {
        Seq::empty()
    } else {
        let msg = messages[k - 1];
        let fqn = descriptor::scoped(scope, descriptor::text_or(msg.name, ""@));
        messages_uses(config, messages, (k - 1) as nat, scope) + fields_uses(
            config,
            fqn,
            msg.field@,
            msg.field@.len(),
        ) + messages_uses(config, msg.nested_type@, msg.nested_type@.len(), fqn)
    }
}

/// The uses that the first `k` of the files to generate make. A file without a
/// descriptor makes none.
pub open spec fn files_uses(
    config: CodeGenConfig,
    files: Seq<FileDescriptorProto>,
    files_to_generate: Seq<String>,
    k: nat,
) -> Seq<Use>
    decreases k,
{
    if k == 0 || k > files_to_generate.len() {
        Seq::empty()
    } else {
        files_uses(config, files, files_to_generate, (k - 1) as nat) + match descriptor::file_from(
            files,
            files_to_generate[k - 1]@,
            0,
        ) {
            Some(i) => messages_uses(
                config,
                files[i].message_type@,
                files[i].message_type@.len(),
                files[i].package_text(),
            ),
            None => Seq::empty(),
        }
    }
}

/// Record the uses that a field makes.
fn collect_field(
    config: &CodeGenConfig,
    fqn: &str,
    field: &FieldDescriptorProto,
    out: &mut CustomElements,
    Ghost(uses): Ghost<Seq<Use>>,
)
    requires
        old(out).collects(uses),
    ensures
        final(out).collects(uses + field_uses(*config, fqn@, *field)),
{
    if !field.repeated {
        assert(uses + Seq::<Use>::empty() =~= uses);
        return;
    }
    let mut path: String = ".".to_owned();
    path.append(fqn);
    path.append(".");
    path.append(str_or(&field.name, ""));
    let ghost all = field_uses(*config, fqn@, *field);
    let ghost mut so_far = uses;
    match &field.map_entry {
        Some(entry) => {
            if entry.value == Some(FieldType::Bytes) && entry.key != Some(FieldType::Bytes) {
                match bytes_type(config, path.as_str()) {
                    Some(ty) => {
                        out.add_element(ty, CustomElemKind::Bytes, Ghost(so_far));
                        proof {
                            so_far = so_far.push(Use::Element(ty@, CustomElemKind::Bytes));
                        }
                    },
                    None => {},
                }
            }
            match string_type(config, path.as_str()) {
                Some(ty) => {
                    if entry.key == Some(FieldType::Str) {
                        out.add_key(ty, Ghost(so_far));
                        proof {
                            so_far = so_far.push(Use::Key(ty@));
                        }
                    }
                    if entry.value == Some(FieldType::Str) {
                        out.add_element(ty, CustomElemKind::Str, Ghost(so_far));
                        proof {
                            so_far = so_far.push(Use::Element(ty@, CustomElemKind::Str));
                        }
                    }
                },
                None => {},
            }
        },
        None => match field.field_type {
            FieldType::Str => match string_type(config, path.as_str()) {
                Some(ty) => {
                    out.add_element(ty, CustomElemKind::Str, Ghost(so_far));
                    proof {
                        so_far = so_far.push(Use::Element(ty@, CustomElemKind::Str));
                    }
                },
                None => {},
            },
            FieldType::Bytes => match bytes_type(config, path.as_str()) {
                Some(ty) => {
                    out.add_element(ty, CustomElemKind::Bytes, Ghost(so_far));
                    proof {
                        so_far = so_far.push(Use::Element(ty@, CustomElemKind::Bytes));
                    }
                },
                None => {},
            },
            FieldType::Other => {},
        },
    }
    assert(so_far =~= uses + all);
}

/// Record the uses that the messages of a scope make, with everything nested in
/// them.
fn collect_messages(
    config: &CodeGenConfig,
    messages: &Vec<DescriptorProto>,
    scope: &str,
    out: &mut CustomElements,
    Ghost(uses): Ghost<Seq<Use>>,
)
    requires
        old(out).collects(uses),
    ensures
        final(out).collects(
            uses + messages_uses(*config, messages@, messages@.len(), scope@),
        ),
    decreases messages,
{
    let mut i: usize = 0;
    assert(uses + Seq::<Use>::empty() =~= uses);
    while i < messages.len()
        invariant
            i <= messages@.len(),
            out.collects(uses + messages_uses(*config, messages@, i as nat, scope@)),
        decreases messages@.len() - i,
    {
        let msg: &DescriptorProto = &messages[i];
        let fqn: String = scoped_name(scope, str_or(&msg.name, ""));
        let ghost before = uses + messages_uses(*config, messages@, i as nat, scope@);
        let mut k: usize = 0;
        assert(before + Seq::<Use>::empty() =~= before);
        while k < msg.field.len()
            invariant
                k <= msg.field@.len(),
                out.collects(before + fields_uses(*config, fqn@, msg.field@, k as nat)),
            decreases msg.field@.len() - k,
        {
            let ghost so_far = before + fields_uses(*config, fqn@, msg.field@, k as nat);
            collect_field(config, fqn.as_str(), &msg.field[k], out, Ghost(so_far));
            k = k + 1;
            assert(so_far + field_uses(*config, fqn@, msg.field@[k - 1]) =~= before + fields_uses(
                *config,
                fqn@,
                msg.field@,
                k as nat,
            ));
        }
        let ghost with_fields = before + fields_uses(
            *config,
            fqn@,
            msg.field@,
            msg.field@.len(),
        );
        collect_messages(config, &msg.nested_type, fqn.as_str(), out, Ghost(with_fields));
        i = i + 1;
        assert(with_fields + messages_uses(
            *config,
            msg.nested_type@,
            msg.nested_type@.len(),
            fqn@,
        ) =~= uses + messages_uses(*config, messages@, i as nat, scope@));
    }
}

/// Find the custom types that need impls, over all files to generate.
pub fn collect_custom_elements(
    config: &CodeGenConfig,
    files: &Vec<FileDescriptorProto>,
    files_to_generate: &Vec<String>,
) -> (out: CustomElements)
    ensures
        out.collects(
            files_uses(*config, files@, files_to_generate@, files_to_generate@.len()),
        ),
{
    let mut out = CustomElements { elements: NameMap::new(), map_keys: NameMap::new() };
    let mut i: usize = 0;
    while i < files_to_generate.len()
        invariant
            i <= files_to_generate@.len(),
            out.collects(files_uses(*config, files@, files_to_generate@, i as nat)),
        decreases files_to_generate@.len() - i,
    {
        let ghost before = files_uses(*config, files@, files_to_generate@, i as nat);
        match find_file(files, &files_to_generate[i]) {
            Some(at) => collect_messages(
                config,
                &files[at].message_type,
                files[at].package_name(),
                &mut out,
                Ghost(before),
            ),
            None => {
                assert(before + Seq::<Use>::empty() =~= before);
            },
        }
        i = i + 1;
    }
    out
}

/// The JSON impl of a bytes element.
pub open spec fn json_impl(ty: Seq<char>) -> Seq<char> {
    "impl ::buffa::json_helpers::ProtoElemJson for "@ + ty
        + " { fn serialize_proto_json<S: ::serde::Serializer>(v: &Self, s: S) -> ::core::result::Result<S::Ok, S::Error> { ::buffa::json_helpers::bytes::serialize(::core::convert::AsRef::<[u8]>::as_ref(v), s) } fn deserialize_proto_json<'de, D: ::serde::Deserializer<'de>>(d: D) -> ::core::result::Result<Self, D::Error> { ::buffa::json_helpers::bytes::deserialize(d) } } "@
}

/// What an element is to reflection.
pub open spec fn value_ref(kind: CustomElemKind) -> Seq<char> {
    match kind {
        CustomElemKind::Str => {
            "::buffa_descriptor::reflect::ValueRef::String(::core::convert::AsRef::<str>::as_ref(self))"@
        },
        CustomElemKind::Bytes => {
            "::buffa_descriptor::reflect::ValueRef::Bytes(::core::convert::AsRef::<[u8]>::as_ref(self))"@
        },
    }
}

/// The reflection impl of an element.
pub open spec fn reflect_impl(ty: Seq<char>, kind: CustomElemKind) -> Seq<char> {
    "impl ::buffa_descriptor::reflect::ReflectElement for "@ + ty
        + " { fn as_value_ref(&self) -> ::buffa_descriptor::reflect::ValueRef<'_> { "@ + value_ref(
        kind,
    ) + " } } "@
}

/// The reflection impl of a key.
pub open spec fn key_impl(ty: Seq<char>) -> Seq<char> {
    "impl ::buffa_descriptor::reflect::ReflectMapKey for "@ + ty
        + " { fn as_map_key_ref(&self) -> ::buffa_descriptor::reflect::MapKeyRef<'_> { ::buffa_descriptor::reflect::MapKeyRef::String(::core::convert::AsRef::<str>::as_ref(self)) } } "@
}

/// The impls of one element type: JSON for bytes, where JSON is generated, and
/// reflection, where it is generated on the types themselves.
pub open spec fn element_impls(
    config: CodeGenConfig,
    ty: Seq<char>,
    kind: CustomElemKind,
) -> Seq<char> {
    (if config.generate_json && kind == CustomElemKind::Bytes {
        gates::gated(json_impl(ty), config.json_gate())
    } else {
        Seq::empty()
    }) + (if config.generate_reflection_vtable {
        gates::gated(reflect_impl(ty, kind), config.reflect_gate())
    } else {
        Seq::empty()
    })
}

/// The impls of the first `n` element types, in the order of their paths; or the
/// error of the first path that is no type.
pub open spec fn elements_impls(
    config: CodeGenConfig,
    paths: Seq<Seq<char>>,
    kinds: Seq<CustomElemKind>,
    n: nat,
) -> Result<Seq<char>, ErrorText>
    decreases n,
{
    if n == 0 || n > paths.len() {
        Ok(Seq::empty())
    } else {
        match elements_impls(config, paths, kinds, (n - 1) as nat) {
            Err(e) => Err(e),
            Ok(before) => match repr::custom_type(
                syntax::type_syntax(paths[n - 1]),
                paths[n - 1],
            ) {
                Err(e) => Err(e),
                Ok(ty) => Ok(before + element_impls(config, ty, kinds[n - 1])),
            },
        }
    }
}

/// Those impls, and the impls of the first `n` key types behind them.
pub open spec fn keys_impls(
    config: CodeGenConfig,
    elements: Seq<char>,
    paths: Seq<Seq<char>>,
    n: nat,
) -> Result<Seq<char>, ErrorText>
    decreases n,
{
    if n == 0 || n > paths.len() {
        Ok(elements)
    } else {
        match keys_impls(config, elements, paths, (n - 1) as nat) {
            Err(e) => Err(e),
            Ok(before) => match repr::custom_type(
                syntax::type_syntax(paths[n - 1]),
                paths[n - 1],
            ) {
                Err(e) => Err(e),
                Ok(ty) => Ok(before + gates::gated(key_impl(ty), config.reflect_gate())),
            },
        }
    }
}

/// The impls of all custom types. Keys need theirs only where reflection is
/// generated on the types themselves.
pub open spec fn all_impls(
    config: CodeGenConfig,
    paths: Seq<Seq<char>>,
    kinds: Seq<CustomElemKind>,
    keys: Seq<Seq<char>>,
) -> Result<Seq<char>, ErrorText> {
    match elements_impls(config, paths, kinds, paths.len()) {
        Err(e) => Err(e),
        Ok(elements) => if config.generate_reflection_vtable {
            keys_impls(config, elements, keys, keys.len())
        } else {
            Ok(elements)
        },
    }
}

/// The first error stays: later types change nothing.
proof fn lemma_elements_error_stays(
    config: CodeGenConfig,
    paths: Seq<Seq<char>>,
    kinds: Seq<CustomElemKind>,
    m: nat,
    n: nat,
)
    requires
        m <= n <= paths.len(),
        elements_impls(config, paths, kinds, m) is Err,
    ensures
        elements_impls(config, paths, kinds, n) == elements_impls(config, paths, kinds, m),
    decreases n - m,
{
    if m < n {
        lemma_elements_error_stays(config, paths, kinds, m, (n - 1) as nat);
    }
}

/// The first error stays: later keys change nothing.
proof fn lemma_keys_error_stays(
    config: CodeGenConfig,
    elements: Seq<char>,
    paths: Seq<Seq<char>>,
    m: nat,
    n: nat,
)
    requires
        m <= n <= paths.len(),
        keys_impls(config, elements, paths, m) is Err,
    ensures
        keys_impls(config, elements, paths, n) == keys_impls(config, elements, paths, m),
    decreases n - m,
{
    if m < n {
        lemma_keys_error_stays(config, elements, paths, m, (n - 1) as nat);
    }
}

/// Write the impls of one element type.
fn write_element_impls(out: &mut String, config: &CodeGenConfig, ty: &str, kind: CustomElemKind)
    ensures
        final(out)@ == old(out)@ + element_impls(*config, ty@, kind),
{
    let gates = config.feature_gates();
    let ghost start = out@;
    if config.generate_json && kind == CustomElemKind::Bytes {
        let mut code: String = "impl ::buffa::json_helpers::ProtoElemJson for ".to_owned();
        code.append(ty);
        code.append(
            " { fn serialize_proto_json<S: ::serde::Serializer>(v: &Self, s: S) -> ::core::result::Result<S::Ok, S::Error> { ::buffa::json_helpers::bytes::serialize(::core::convert::AsRef::<[u8]>::as_ref(v), s) } fn deserialize_proto_json<'de, D: ::serde::Deserializer<'de>>(d: D) -> ::core::result::Result<Self, D::Error> { ::buffa::json_helpers::bytes::deserialize(d) } } ",
        );
        out.append(cfg_block(code.as_str(), gates.json).as_str());
    }
    let ghost with_json = out@;
    if config.generate_reflection_vtable {
        let value: &str = match kind {
            CustomElemKind::Str => {
                "::buffa_descriptor::reflect::ValueRef::String(::core::convert::AsRef::<str>::as_ref(self))"
            },
            CustomElemKind::Bytes => {
                "::buffa_descriptor::reflect::ValueRef::Bytes(::core::convert::AsRef::<[u8]>::as_ref(self))"
            },
        };
        let mut code: String = "impl ::buffa_descriptor::reflect::ReflectElement for ".to_owned();
        code.append(ty);
        code.append(
            " { fn as_value_ref(&self) -> ::buffa_descriptor::reflect::ValueRef<'_> { ",
        );
        code.append(value);
        code.append(" } } ");
        out.append(cfg_block(code.as_str(), gates.reflect).as_str());
    }
    assert(out@ =~= start + element_impls(*config, ty@, kind));
}

/// Render the impls of the custom types, each once, in the order of their paths.
pub fn render_custom_elem_impls(config: &CodeGenConfig, elems: &CustomElements) -> (result: Result<
    String,
    CodeGenError,
>)
    requires
        elems.elements.wf(),
        elems.map_keys.wf(),
    ensures
        repr::outcome(result) == all_impls(
            *config,
            elems.elements.keys(),
            elems.elements.values(),
            elems.map_keys.keys(),
        ),
{
    let ghost paths = elems.elements.keys();
    let ghost kinds = elems.elements.values();
    let ghost keys = elems.map_keys.keys();
    let mut out: String = String::new();
    let mut i: usize = 0;
    while i < elems.elements.len()
        invariant
            i <= paths.len(),
            elems.elements.wf(),
            paths == elems.elements.keys(),
            kinds == elems.elements.values(),
            keys == elems.map_keys.keys(),
            elements_impls(*config, paths, kinds, i as nat) == Ok::<Seq<char>, ErrorText>(out@),
        decreases paths.len() - i,
    {
        match parse_custom_type_path(elems.elements.key(i)) {
            Ok(ty) => write_element_impls(
                &mut out,
                config,
                ty.as_str(),
                *elems.elements.value(i),
            ),
            Err(e) => {
                proof {
                    lemma_elements_error_stays(*config, paths, kinds, i as nat + 1, paths.len());
                }
                return Err(e);
            },
        }
        i = i + 1;
    }
    if !config.generate_reflection_vtable {
        return Ok(out);
    }
    let ghost elements = out@;
    let reflect: Option<&str> = config.feature_gates().reflect;
    let mut j: usize = 0;
    while j < elems.map_keys.len()
        invariant
            j <= keys.len(),
            elems.map_keys.wf(),
            paths == elems.elements.keys(),
            kinds == elems.elements.values(),
            keys == elems.map_keys.keys(),
            config.generate_reflection_vtable,
            elements_impls(*config, paths, kinds, paths.len()) == Ok::<Seq<char>, ErrorText>(
                elements,
            ),
            crate::codegen::config::opt_text(reflect) == config.reflect_gate(),
            keys_impls(*config, elements, keys, j as nat) == Ok::<Seq<char>, ErrorText>(out@),
        decreases keys.len() - j,
    {
        match parse_custom_type_path(elems.map_keys.key(j)) {
            Ok(ty) => {
                let mut code: String = "impl ::buffa_descriptor::reflect::ReflectMapKey for ".to_owned();
                code.append(ty.as_str());
                code.append(
                    " { fn as_map_key_ref(&self) -> ::buffa_descriptor::reflect::MapKeyRef<'_> { ::buffa_descriptor::reflect::MapKeyRef::String(::core::convert::AsRef::<str>::as_ref(self)) } } ",
                );
                out.append(cfg_block(code.as_str(), reflect).as_str());
            },
            Err(e) => {
                proof {
                    lemma_keys_error_stays(*config, elements, keys, j as nat + 1, keys.len());
                }
                return Err(e);
            },
        }
        j = j + 1;
    }
    Ok(out)
}

/// The types of the given uses are determined by the uses: which they are, in
/// what order they come, and what each holds.
pub proof fn law_uses_determine_elements(a: CustomElements, b: CustomElements, uses: Seq<Use>)
    requires
        a.collects(uses),
        b.collects(uses),
    ensures
        a.elements.keys() == b.elements.keys(),
        a.elements.values() == b.elements.values(),
        a.map_keys.keys() == b.map_keys.keys(),
{
    assert forall|p: Seq<char>| #[trigger] a.elements.keys().contains(p)
        <==> b.elements.keys().contains(p) by {
        assert(a.elements.has(p) <==> b.elements.has(p));
    }
    names::lemma_ascending_unique(a.elements.keys(), b.elements.keys());
    let keys = a.elements.keys();
    assert forall|i: int| 0 <= i < keys.len() implies a.elements.values()[i]
        == b.elements.values()[i] by {
        assert(keys.contains(keys[i]));
        names::lemma_index_unique(keys, i, keys[i]);
        assert(a.elements.has(keys[i]) && b.elements.has(keys[i]));
    }
    assert(a.elements.values() =~= b.elements.values());
    assert forall|p: Seq<char>| #[trigger] a.map_keys.keys().contains(p)
        <==> b.map_keys.keys().contains(p) by {
        assert(a.map_keys.has(p) <==> b.map_keys.has(p));
    }
    names::lemma_ascending_unique(a.map_keys.keys(), b.map_keys.keys());
}

/// The impls of the types of the given uses.
pub open spec fn impls_of(config: CodeGenConfig, uses: Seq<Use>) -> Result<Seq<char>, ErrorText> {
    let elems = choose|elems: CustomElements| elems.collects(uses);
    all_impls(config, elems.elements.keys(), elems.elements.values(), elems.map_keys.keys())
}

/// Collect the custom types of the files to generate, and render their impls.
pub fn custom_elem_impls(
    config: &CodeGenConfig,
    files: &Vec<FileDescriptorProto>,
    files_to_generate: &Vec<String>,
) -> (result: Result<String, CodeGenError>)
    ensures
        repr::outcome(result) == impls_of(
            *config,
            files_uses(*config, files@, files_to_generate@, files_to_generate@.len()),
        ),
{
    let elems: CustomElements = collect_custom_elements(config, files, files_to_generate);
    proof {
        let uses = files_uses(*config, files@, files_to_generate@, files_to_generate@.len());
        law_uses_determine_elements(
            elems,
            choose|e: CustomElements| e.collects(uses),
            uses,
        );
    }
    render_custom_elem_impls(config, &elems)
}

} // verus!
