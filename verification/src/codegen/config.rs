//! The generator's configuration.
use vstd::prelude::*;
use vstd::string::*;
use crate::codegen::corpus::SharedCorpusContext;
use crate::codegen::errors::CodeGenError;
use crate::codegen::errors::ErrorText;
use crate::codegen::repr::{BytesRepr, MapRepr, PointerRepr, RepeatedRepr, StringRepr};
use crate::codegen::text;
use crate::codegen::text::{cat, to_chars};

verus! {

/// How much reflection generated types get.
#[derive(Debug, Clone, Copy, PartialEq, Eq, Structural)]
#[non_exhaustive]
pub enum ReflectMode {
    /// None.
    Off,
    /// By a round trip through a dynamic message.
    Bridge,
    /// By impls on the types themselves.
    VTable,
}

impl Default for ReflectMode {
    fn default() -> (mode: Self)
        ensures
            mode == ReflectMode::Off,
    {
        ReflectMode::Off
    }
}

impl ReflectMode {
    /// Set a configuration's reflection flags to this mode.
    pub fn apply(self, config: &mut CodeGenConfig)
        ensures
            *final(config) == (CodeGenConfig {
                generate_reflection: self != ReflectMode::Off,
                generate_reflection_vtable: self == ReflectMode::VTable,
                ..*old(config)
            }),
    {
        let (reflection, vtable): (bool, bool) = match self {
            ReflectMode::Off => (false, false),
            ReflectMode::Bridge => (true, false),
            ReflectMode::VTable => (true, true),
        };
        config.generate_reflection = reflection;
        config.generate_reflection_vtable = vtable;
    }
}

/// The values of the `enum_type` feature that can be set.
#[derive(Debug, Clone, Copy, PartialEq, Eq, Structural)]
#[non_exhaustive]
pub enum EnumTypeOverride {
    /// Unknown values are kept as such.
    Open,
}

/// A feature that is overridden at a path.
#[derive(Debug, Clone, Copy, PartialEq, Eq, Structural)]
#[non_exhaustive]
pub enum FeatureOverride {
    /// `enum_type`, for enums and enum fields.
    EnumType(EnumTypeOverride),
}

impl FeatureOverride {
    /// The feature's name.
    pub open spec fn feature_text(&self) -> Seq<char> {
        match self {
            FeatureOverride::EnumType(_) => "enum_type"@,
        }
    }

    /// The value's name.
    pub open spec fn value_text(&self) -> Seq<char> {
        match self {
            FeatureOverride::EnumType(EnumTypeOverride::Open) => "OPEN"@,
        }
    }

    /// The feature's name.
    pub fn feature_name(&self) -> (r: &'static str)
        ensures
            r@ == self.feature_text(),
    {
        match self {
            FeatureOverride::EnumType(_) => "enum_type",
        }
    }

    /// The value's name.
    pub fn value_name(&self) -> (r: &'static str)
        ensures
            r@ == self.value_text(),
    {
        match self {
            FeatureOverride::EnumType(EnumTypeOverride::Open) => "OPEN",
        }
    }
}

/// The crate features that generated impls are put behind.
#[derive(Debug, Clone)]
pub struct FeatureGateNames {
    /// For JSON.
    pub json: String,
    /// For views.
    pub views: String,
    /// For the text format.
    pub text: String,
    /// For reflection.
    pub reflect: String,
}

impl Default for FeatureGateNames {
    fn default() -> (names: Self)
        ensures
            names.json@ == "json"@,
            names.views@ == "views"@,
            names.text@ == "text"@,
            names.reflect@ == "reflect"@,
    {
        FeatureGateNames {
            json: "json".to_owned(),
            views: "views".to_owned(),
            text: "text".to_owned(),
            reflect: "reflect".to_owned(),
        }
    }
}

/// The crate features that are in use, for the kinds of impl that are generated
/// and gated.
#[derive(Debug, Clone, Copy)]
pub struct FeatureGates<'a> {
    /// For JSON.
    pub json: Option<&'a str>,
    /// For views.
    pub views: Option<&'a str>,
    /// For the text format.
    pub text: Option<&'a str>,
    /// For reflection.
    pub reflect: Option<&'a str>,
}

/// The generator's configuration.
#[derive(Debug, Clone)]
#[non_exhaustive]
pub struct CodeGenConfig {
    /// Generate borrowed views.
    pub generate_views: bool,
    /// Generate lazy views too; they need views.
    pub lazy_views: bool,
    /// Keep unknown fields.
    pub preserve_unknown_fields: bool,
    /// Generate JSON impls.
    pub generate_json: bool,
    /// Generate `Arbitrary` impls.
    pub generate_arbitrary: bool,
    /// Packages and types that live in other crates: a proto name with a leading
    /// dot, and a Rust path.
    pub extern_paths: Vec<(String, String)>,
    /// The type of `bytes` fields, by path prefix; later rules win.
    pub bytes_fields: Vec<(String, BytesRepr)>,
    /// The type of `string` fields, by path prefix; later rules win.
    pub string_fields: Vec<(String, StringRepr)>,
    /// The collection of `map` fields, by path prefix; later rules win.
    pub map_fields: Vec<(String, MapRepr)>,
    /// The pointer of message fields, by path prefix; later rules win.
    pub pointer_fields: Vec<(String, PointerRepr)>,
    /// Whether views store message fields inline, where that is not left to the
    /// pointer rules.
    pub view_inline_fields: Option<bool>,
    /// The collection of `repeated` fields, by path prefix; later rules win.
    pub repeated_fields: Vec<(String, RepeatedRepr)>,
    /// Features overridden at paths.
    pub feature_overrides: Vec<(String, FeatureOverride)>,
    /// Oneof fields that are stored without a pointer.
    pub unboxed_oneof_fields: Vec<String>,
    /// Map strings that are not validated as UTF-8 to bytes.
    pub strict_utf8_mapping: bool,
    /// Accept the legacy message-set wire format.
    pub allow_message_set: bool,
    /// Generate text-format impls.
    pub generate_text: bool,
    /// Generate a function that registers a package's types.
    pub emit_register_fn: bool,
    /// Generate one file for each package.
    pub file_per_package: bool,
    /// Attributes of types, by path.
    pub type_attributes: Vec<(String, String)>,
    /// Attributes of fields, by path.
    pub field_attributes: Vec<(String, String)>,
    /// Attributes of messages, by path.
    pub message_attributes: Vec<(String, String)>,
    /// Attributes of enums, by path.
    pub enum_attributes: Vec<(String, String)>,
    /// Attributes of oneofs, by path.
    pub oneof_attributes: Vec<(String, String)>,
    /// Put the generated impls behind crate features.
    pub gate_impls_on_crate_features: bool,
    /// Generate setters that chain.
    pub generate_with_setters: bool,
    /// Generate reflection.
    pub generate_reflection: bool,
    /// Generate reflection impls on the types themselves.
    pub generate_reflection_vtable: bool,
    /// Embed the descriptors once for the whole tree.
    pub shared_descriptor_pool: bool,
    /// Where the shared descriptors are, if not at the root of the tree.
    pub shared_descriptor_pool_root: Option<String>,
    /// State of the whole corpus that was worked out before.
    pub shared_corpus_context: Option<SharedCorpusContext>,
    /// Put reflection, and nothing else, behind a crate feature.
    pub gate_reflect_on_crate_feature: bool,
    /// Generate CamelCase aliases of enum values.
    pub idiomatic_enum_aliases: bool,
    /// Generate imports and short names; needs one file for each package.
    pub idiomatic_imports: bool,
    /// Convert field names to snake_case.
    pub idiomatic_field_names: bool,
    /// The names of the crate features.
    pub feature_gate_names: FeatureGateNames,
    /// What every generated type's name begins with.
    pub type_name_prefix: String,
    /// Packages that are not generated.
    pub exclude_packages: Vec<String>,
}

impl Default for CodeGenConfig {
    fn default() -> (config: Self)
        ensures
            config.generate_views,
            config.preserve_unknown_fields,
            config.emit_register_fn,
            config.generate_with_setters,
            config.idiomatic_enum_aliases,
            !config.lazy_views,
            !config.generate_json,
            !config.generate_arbitrary,
            !config.strict_utf8_mapping,
            !config.allow_message_set,
            !config.generate_text,
            !config.file_per_package,
            !config.gate_impls_on_crate_features,
            !config.generate_reflection,
            !config.generate_reflection_vtable,
            !config.shared_descriptor_pool,
            !config.gate_reflect_on_crate_feature,
            !config.idiomatic_imports,
            !config.idiomatic_field_names,
            config.extern_paths@.len() == 0,
            config.bytes_fields@.len() == 0,
            config.string_fields@.len() == 0,
            config.map_fields@.len() == 0,
            config.pointer_fields@.len() == 0,
            config.repeated_fields@.len() == 0,
            config.feature_overrides@.len() == 0,
            config.unboxed_oneof_fields@.len() == 0,
            config.type_attributes@.len() == 0,
            config.field_attributes@.len() == 0,
            config.message_attributes@.len() == 0,
            config.enum_attributes@.len() == 0,
            config.oneof_attributes@.len() == 0,
            config.exclude_packages@.len() == 0,
            config.view_inline_fields is None,
            config.shared_descriptor_pool_root is None,
            config.shared_corpus_context is None,
            config.type_name_prefix@.len() == 0,
            config.feature_gate_names.json@ == "json"@,
            config.feature_gate_names.views@ == "views"@,
            config.feature_gate_names.text@ == "text"@,
            config.feature_gate_names.reflect@ == "reflect"@,
    {
        CodeGenConfig {
            generate_views: true,
            lazy_views: false,
            preserve_unknown_fields: true,
            generate_json: false,
            generate_arbitrary: false,
            extern_paths: Vec::new(),
            bytes_fields: Vec::new(),
            string_fields: Vec::new(),
            map_fields: Vec::new(),
            pointer_fields: Vec::new(),
            view_inline_fields: None,
            repeated_fields: Vec::new(),
            feature_overrides: Vec::new(),
            unboxed_oneof_fields: Vec::new(),
            strict_utf8_mapping: false,
            allow_message_set: false,
            generate_text: false,
            emit_register_fn: true,
            file_per_package: false,
            type_attributes: Vec::new(),
            field_attributes: Vec::new(),
            message_attributes: Vec::new(),
            enum_attributes: Vec::new(),
            oneof_attributes: Vec::new(),
            gate_impls_on_crate_features: false,
            generate_with_setters: true,
            generate_reflection: false,
            generate_reflection_vtable: false,
            shared_descriptor_pool: false,
            shared_descriptor_pool_root: None,
            shared_corpus_context: None,
            gate_reflect_on_crate_feature: false,
            idiomatic_enum_aliases: true,
            idiomatic_imports: false,
            idiomatic_field_names: false,
            feature_gate_names: FeatureGateNames::default(),
            type_name_prefix: String::new(),
            exclude_packages: Vec::new(),
        }
    }
}

/// An ASCII upper-case letter.
pub open spec fn is_upper(c: char) -> bool {
    'A' as int <= c as int <= 'Z' as int
}

/// An ASCII lower-case letter.
pub open spec fn is_lower(c: char) -> bool {
    'a' as int <= c as int <= 'z' as int
}

/// An ASCII letter or digit.
pub open spec fn is_alphanumeric(c: char) -> bool {
    is_upper(c) || is_lower(c) || text::is_digit(c)
}

/// Whether a character is an ASCII upper-case letter.
pub(crate) fn upper(c: char) -> (r: bool)
    ensures
        r == is_upper(c),
{
    'A' <= c && c <= 'Z'
}

/// Whether a character is an ASCII letter or digit.
pub(crate) fn alphanumeric(c: char) -> (r: bool)
    ensures
        r == is_alphanumeric(c),
{
    upper(c) || ('a' <= c && c <= 'z') || ('0' <= c && c <= '9')
}

/// A type name's prefix may be empty, or PascalCase.
pub open spec fn is_type_prefix(prefix: Seq<char>) -> bool {
    prefix.len() == 0 || (is_upper(prefix[0]) && forall|i: int|
        0 <= i < prefix.len() ==> is_alphanumeric(#[trigger] prefix[i]))
}

/// The crate feature that a kind of impl is put behind: its name, if it is
/// generated and gated.
pub open spec fn gate(generated: bool, gated: bool, name: Seq<char>) -> Option<Seq<char>> {
    if generated && gated {
        Some(name)
    } else {
        None
    }
}

/// The text of an optional string.
pub open spec fn opt_text(s: Option<&str>) -> Option<Seq<char>> {
    match s {
        Some(s) => Some(s@),
        None => None,
    }
}

impl CodeGenConfig {
    /// Whether any override sets the `enum_type` feature.
    pub fn has_enum_type_overrides(&self) -> (r: bool)
        ensures
            r == exists|i: int|
                0 <= i < self.feature_overrides@.len()
                    && (#[trigger] self.feature_overrides@[i]).1 is EnumType,
    {
        if self.feature_overrides.len() == 0 {
            return false;
        }
        // `enum_type` is the one feature that can be overridden.
        match self.feature_overrides[0].1 {
            FeatureOverride::EnumType(_) => true,
        }
    }

    /// The crate feature for JSON.
    pub open spec fn json_gate(&self) -> Option<Seq<char>> {
        gate(self.generate_json, self.gate_impls_on_crate_features, self.feature_gate_names.json@)
    }

    /// The crate feature for views.
    pub open spec fn views_gate(&self) -> Option<Seq<char>> {
        gate(
            self.generate_views,
            self.gate_impls_on_crate_features,
            self.feature_gate_names.views@,
        )
    }

    /// The crate feature for the text format.
    pub open spec fn text_gate(&self) -> Option<Seq<char>> {
        gate(self.generate_text, self.gate_impls_on_crate_features, self.feature_gate_names.text@)
    }

    /// The crate feature for reflection.
    pub open spec fn reflect_gate(&self) -> Option<Seq<char>> {
        gate(
            self.generate_reflection,
            self.gate_impls_on_crate_features || self.gate_reflect_on_crate_feature,
            self.feature_gate_names.reflect@,
        )
    }

    /// The crate features that are in use.
    pub fn feature_gates(&self) -> (gates: FeatureGates<'_>)
        ensures
            opt_text(gates.json) == self.json_gate(),
            opt_text(gates.views) == self.views_gate(),
            opt_text(gates.text) == self.text_gate(),
            opt_text(gates.reflect) == self.reflect_gate(),
    {
        let gated: bool = self.gate_impls_on_crate_features;
        FeatureGates {
            json: if self.generate_json && gated {
                Some(self.feature_gate_names.json.as_str())
            } else {
                None
            },
            views: if self.generate_views && gated {
                Some(self.feature_gate_names.views.as_str())
            } else {
                None
            },
            text: if self.generate_text && gated {
                Some(self.feature_gate_names.text.as_str())
            } else {
                None
            },
            reflect: if self.generate_reflection && (gated || self.gate_reflect_on_crate_feature) {
                Some(self.feature_gate_names.reflect.as_str())
            } else {
                None
            },
        }
    }

    /// The crate feature that reflection is put behind, or `None` where it is
    /// unconditional.
    pub fn reflect_feature_gate(&self) -> (r: Option<&str>)
        ensures
            opt_text(r) == self.reflect_gate(),
    {
        self.feature_gates().reflect
    }

    /// The Rust name of a type with the given proto name.
    pub fn prefixed_type_name(&self, proto_name: &str) -> (r: String)
        ensures
            r@ == self.type_name_prefix@ + proto_name@,
    {
        cat(self.type_name_prefix.as_str(), proto_name)
    }

    /// Check the prefix of type names.
    pub fn validate_type_name_prefix(&self) -> (result: Result<(), CodeGenError>)
        ensures
            match result {
                Ok(()) => is_type_prefix(self.type_name_prefix@),
                Err(e) => !is_type_prefix(self.type_name_prefix@) && e@
                    == (ErrorText::InvalidTypeNamePrefix { prefix: self.type_name_prefix@ }),
            },
    {
        let chars: Vec<char> = to_chars(self.type_name_prefix.as_str());
        let mut valid: bool = chars.len() == 0 || upper(chars[0]);
        let mut i: usize = 0;
        while i < chars.len()
            invariant
                i <= chars@.len(),
                chars@ == self.type_name_prefix@,
                valid == ((chars@.len() == 0 || is_upper(chars@[0])) && forall|j: int|
                    0 <= j < i ==> is_alphanumeric(#[trigger] chars@[j])),
            decreases chars@.len() - i,
        {
            if !alphanumeric(chars[i]) {
                valid = false;
            }
            i = i + 1;
        }
        if valid {
            Ok(())
        } else {
            Err(CodeGenError::InvalidTypeNamePrefix { prefix: self.type_name_prefix.clone() })
        }
    }
}

/// A Cargo feature name: an ASCII letter or digit or an underscore, and then
/// letters, digits, underscores, hyphens, plus signs and dots.
pub open spec fn is_feature_name(name: Seq<char>) -> bool {
    &&& name.len() > 0
    &&& is_alphanumeric(name[0]) || name[0] == '_'
    &&& forall|i: int|
        0 <= i < name.len() ==> is_alphanumeric(#[trigger] name[i]) || name[i] == '_' || name[i]
            == '-' || name[i] == '+' || name[i] == '.'
}

/// Whether a string is a Cargo feature name.
pub fn feature_name_ok(name: &str) -> (r: bool)
    ensures
        r == is_feature_name(name@),
{
    let chars: Vec<char> = to_chars(name);
    if chars.len() == 0 {
        return false;
    }
    let mut ok: bool = alphanumeric(chars[0]) || chars[0] == '_';
    let mut i: usize = 0;
    while i < chars.len()
        invariant
            i <= chars@.len(),
            chars@ == name@,
            chars@.len() > 0,
            ok == ((is_alphanumeric(chars@[0]) || chars@[0] == '_') && forall|j: int|
                0 <= j < i ==> is_alphanumeric(#[trigger] chars@[j]) || chars@[j] == '_'
                    || chars@[j] == '-' || chars@[j] == '+' || chars@[j] == '.'),
        decreases chars@.len() - i,
    {
        let c: char = chars[i];
        if !(alphanumeric(c) || c == '_' || c == '-' || c == '+' || c == '.') {
            ok = false;
        }
        i = i + 1;
    }
    ok
}

/// The first of the features in use whose name Cargo would not take, with what
/// it is for: JSON, views, the text format, reflection, in this order.
pub open spec fn bad_gate(
    json: Option<Seq<char>>,
    views: Option<Seq<char>>,
    text: Option<Seq<char>>,
    reflect: Option<Seq<char>>,
) -> Option<(Seq<char>, Seq<char>)> {
    if json is Some && !is_feature_name(json->Some_0) {
        Some(("json"@, json->Some_0))
    } else if views is Some && !is_feature_name(views->Some_0) {
        Some(("views"@, views->Some_0))
    } else if text is Some && !is_feature_name(text->Some_0) {
        Some(("text"@, text->Some_0))
    } else if reflect is Some && !is_feature_name(reflect->Some_0) {
        Some(("reflect"@, reflect->Some_0))
    } else {
        None
    }
}

impl<'a> FeatureGates<'a> {
    /// Check the names of the features in use. A name that Cargo would not take
    /// would leave the impls behind it out of every build.
    pub fn validate(&self) -> (result: Result<(), (&'static str, &'a str)>)
        ensures
            match bad_gate(
                opt_text(self.json),
                opt_text(self.views),
                opt_text(self.text),
                opt_text(self.reflect),
            ) {
                None => result is Ok,
                Some((kind, name)) => result is Err && result->Err_0.0@ == kind && result->Err_0.1@
                    == name,
            },
    {
        match self.json {
            Some(name) => if !feature_name_ok(name) {
                return Err(("json", name));
            },
            None => {},
        }
        match self.views {
            Some(name) => if !feature_name_ok(name) {
                return Err(("views", name));
            },
            None => {},
        }
        match self.text {
            Some(name) => if !feature_name_ok(name) {
                return Err(("text", name));
            },
            None => {},
        }
        match self.reflect {
            Some(name) => if !feature_name_ok(name) {
                return Err(("reflect", name));
            },
            None => {},
        }
        Ok(())
    }
}

} // verus!
