use buffa::codegen::config::{
    CodeGenConfig, EnumTypeOverride, FeatureOverride, ReflectMode,
};
use buffa::codegen::errors::CodeGenError;
use buffa::codegen::files::{apply_companions, GeneratedFile, GeneratedFileKind};
use buffa::codegen::gates::{cfg_block, cfg_block_any};
use buffa::codegen::idents::escape_mod_ident;
use buffa::codegen::trees::lay_bare;
use buffa::codegen::module_tree::{generate_module_tree, IncludeMode};
use buffa::codegen::repr::{
    custom_map_from, custom_type_from, list_type_from, wildcard_type_from, BytesRepr, MapRepr,
    PointerRepr, RepeatedRepr, StringRepr,
};
use buffa::codegen::shared_root::{
    shared_descriptor_root_module, sidecar_path, validate_shared_root_path, FdsEmbedding,
};
use buffa::codegen::syntax::{format_tokens, lay_out, string_literal, PathArgs, TypeSyntax};
use buffa::codegen::text;
use buffa::codegen::warning::CodeGenWarning;

fn entry(file: &str, package: &str) -> (String, String) {
    (file.to_string(), package.to_string())
}

const LINTS: &str = "non_camel_case_types, dead_code, unused_imports, unused_qualifications, clippy::derivable_impls, clippy::match_single_binding, clippy::uninlined_format_args, clippy::doc_lazy_continuation, clippy::module_inception";

#[test]
fn a_module_tree_nests_packages() {
    let entries = vec![
        entry("google.api.mod.rs", "google.api"),
        entry("__buffa.mod.rs", ""),
        entry("google.mod.rs", "google"),
    ];
    let tree = generate_module_tree(&entries, IncludeMode::Relative("gen/"), false);
    assert_eq!(
        tree,
        format!(
            "// @generated by buffa-codegen. DO NOT EDIT.\n\ninclude!(\"gen/__buffa.mod.rs\");\n#[allow({LINTS})]\npub mod google {{\n    use super::*;\n    include!(\"gen/google.mod.rs\");\n    #[allow({LINTS})]\n    pub mod api {{\n        use super::*;\n        include!(\"gen/google.api.mod.rs\");\n    }}\n}}\n"
        )
    );
}

#[test]
fn a_module_tree_for_a_build_script_allows_inside() {
    let entries = vec![entry("type.mod.rs", "type")];
    let tree = generate_module_tree(&entries, IncludeMode::OutDir, true);
    assert_eq!(
        tree,
        format!(
            "// @generated by buffa-codegen. DO NOT EDIT.\n#![allow({LINTS})]\n\n#[allow({LINTS})]\npub mod r#type {{\n    use super::*;\n    include!(concat!(env!(\"OUT_DIR\"), \"/type.mod.rs\"));\n}}\n"
        )
    );
}

#[test]
fn the_order_of_packages_does_not_matter_to_a_module_tree() {
    let a = vec![entry("b.mod.rs", "b"), entry("a.c.mod.rs", "a.c"), entry("a.mod.rs", "a")];
    let b = vec![entry("a.mod.rs", "a"), entry("b.mod.rs", "b"), entry("a.c.mod.rs", "a.c")];
    assert_eq!(
        generate_module_tree(&a, IncludeMode::Relative(""), false),
        generate_module_tree(&b, IncludeMode::Relative(""), false)
    );
}

#[test]
fn a_module_tree_pulls_every_entry_in_once() {
    let entries = vec![
        entry("x.rs", "b.c"),
        entry("y.rs", "a"),
        entry("z.rs", "b.c"),
        entry("x.rs", "b"),
        entry("w.rs", "b.d"),
    ];
    let tree = generate_module_tree(&entries, IncludeMode::Relative(""), false);
    let count = |part: &str| tree.matches(part).count();
    assert_eq!(count("include!("), 5);
    assert_eq!(count("include!(\"x.rs\")"), 2);
    assert_eq!(count("include!(\"y.rs\")"), 1);
    assert_eq!(count("pub mod "), 4);
    assert_eq!(count("pub mod b {"), 1);
    assert_eq!(count("pub mod c {"), 1);
    assert!(tree.find("pub mod a {") < tree.find("pub mod b {"));
    assert!(tree.find("pub mod c {") < tree.find("pub mod d {"));
}

#[test]
fn macros_are_defined_by_rules() {
    let sound = |source: &str| lay_out(source).is_ok();
    assert!(sound("macro_rules! m { () => {} }"));
    assert!(sound("macro_rules! m { () => {}; [x y] => (z); }"));
    assert!(sound("macro_rules! m [ () => {} ];"));
    assert!(sound("macro_rules! m { }"));
    assert!(sound("macro_rules! m { () }"), "rules may break off");
    assert!(sound("macro_rules! m { () => { \"]\" ']' r#\"[\"#; [1] } }"), "brackets in literals");
    assert!(sound("macro_rules! { broken }"), "nothing is named");
    assert!(!sound("macro_rules! m { broken }"));
    assert!(!sound("macro_rules! m { () = > {} }"));
    assert!(!sound("macro_rules! m { () => {}, () => {} }"));
    assert!(!sound("macro_rules! m { () => {};; }"));
    assert!(!sound("macro_rules! m { () => \"text\" }"));
    assert!(!sound("macro_rules! m { () => { '\"' } x }"));
    assert!(!sound("mod a { fn f() { macro_rules! m { broken } } }"));
    assert!(!sound("macro_rules! m { () => {} } mod a { macro_rules! n { broken } }"));
    // What stands in a macro's own tokens is no definition.
    assert!(sound("m! { macro_rules! n { broken } } macro_rules! o { () => {} }"));
    assert!(sound("macro_rules! m { ($($t:tt)*) => { macro_rules! n { $($t)* } } }"));
}

#[test]
fn what_literals_hold_is_no_syntax() {
    let kept = |literal: &str| lay_out(&format!("const X: Y = {literal};"));
    for word in [
        "Item::Verbatim(TokenStream [",
        "Expr::Verbatim(TokenStream [x",
        ". } }, dot_token: ",
        ")), mac: Macro { path: Path { leading_colon: None, segments: [PathSegment { ident: Ident(macro_rules), arguments: PathArguments::None }] }",
    ] {
        assert!(kept(&format!("\"{word}\"")).is_ok());
        assert!(kept(&format!("\"\\\"{word}\"")).is_ok());
        assert!(kept(&format!("r\"\\{word}\"")).is_ok());
        assert!(kept(&format!("br##\"\"#{word}\"##")).is_ok());
        assert!(kept(&format!("('\"', '\\'', \"{word}\", b'\\x22', c\"{word}\")")).is_ok());
        assert!(lay_out(&format!("/// {word}\nstruct S;")).is_ok());
        assert!(lay_out(&format!("m!(\"{word}\", '\"', 'a, \"{word}\");")).is_ok());
        let broken = format!("const X: Y = (\"{word}\", '\"'); static Z = 1;");
        assert!(lay_out(&broken).is_err());
    }
    assert_eq!(lay_bare("a \"b\\\"c\" r#\"d\"e\"# '[' '=' '\\'' f").into_iter().collect::<String>(),
        "a \"\" r#\"\"# '' '=' '\\'' f");
}

#[test]
fn strings_are_written_as_literals() {
    assert_eq!(string_literal("it's plain"), "\"it's plain\"");
    assert_eq!(string_literal("a\"b\\c\n"), "\"a\\\"b\\\\c\\n\"");
    assert_eq!(string_literal("a\0b"), "\"a\\0b\"");
    // Behind a digit, the short form would read as something else.
    assert_eq!(string_literal("a\x001"), "\"a\\x001\"");
    assert_eq!(
        sidecar_path(FdsEmbedding::Sidecar { file_name: "\x007", mode: IncludeMode::OutDir }),
        Some("concat!(env!(\"OUT_DIR\"), \"/\\x007\")".to_string())
    );
    assert_eq!(cfg_block("x", Some("a\"b")), "#[cfg(feature = \"a\\\"b\")] x");
}

#[test]
fn an_empty_module_tree_is_its_header() {
    let tree = generate_module_tree(&Vec::new(), IncludeMode::Relative(""), false);
    assert_eq!(tree, "// @generated by buffa-codegen. DO NOT EDIT.\n\n");
}

#[test]
fn keywords_make_module_identifiers() {
    assert_eq!(escape_mod_ident("foo"), "foo");
    assert_eq!(escape_mod_ident("type"), "r#type");
    assert_eq!(escape_mod_ident("super"), "super_");
    assert_eq!(escape_mod_ident("Self"), "Self_");
}

fn generated(name: &str, package: &str, kind: GeneratedFileKind) -> GeneratedFile {
    GeneratedFile {
        name: name.to_string(),
        package: package.to_string(),
        kind,
        content: format!("// {name}\n"),
    }
}

#[test]
fn companions_are_pulled_in_by_their_stitcher() {
    let mut files = vec![
        generated("a.rs", "a", GeneratedFileKind::Owned),
        generated("a.mod.rs", "a", GeneratedFileKind::PackageMod),
        generated("b.mod.rs", "b", GeneratedFileKind::PackageMod),
    ];
    apply_companions(
        &mut files,
        vec![
            generated("a.__svc.rs", "a", GeneratedFileKind::Companion),
            generated("c.__svc.rs", "c", GeneratedFileKind::Companion),
        ],
    );
    let names: Vec<&str> = files.iter().map(|f| f.name.as_str()).collect();
    assert_eq!(names, ["a.rs", "a.mod.rs", "b.mod.rs", "a.__svc.rs", "c.__svc.rs"]);
    assert_eq!(files[0].content, "// a.rs\n");
    assert_eq!(files[1].content, "// a.mod.rs\ninclude!(\"a.__svc.rs\");\n");
    assert_eq!(files[2].content, "// b.mod.rs\n");
    assert_eq!(files[3].content, "// a.__svc.rs\n");
}

#[test]
fn a_string_type_is_the_default_or_a_custom_path() {
    assert_eq!(StringRepr::String.type_path("::S").unwrap(), "::S");
    // The path comes back as its tokens are written.
    assert_eq!(
        StringRepr::Custom("ecow::EcoString".to_string()).type_path("::S").unwrap(),
        "ecow :: EcoString"
    );
    assert!(StringRepr::String.is_default());
    assert!(matches!(
        StringRepr::Custom("not a type".to_string()).type_path("::S"),
        Err(CodeGenError::InvalidTypePath(p)) if p == "not a type"
    ));
}

#[test]
fn a_bytes_type_is_a_vector_or_bytes_or_a_custom_path() {
    assert_eq!(BytesRepr::Vec.type_path("::V").unwrap(), "::V<u8>");
    assert_eq!(BytesRepr::Bytes.type_path("::V").unwrap(), "::buffa::bytes::Bytes");
    assert_eq!(BytesRepr::Custom("my::B".to_string()).type_path("::V").unwrap(), "my :: B");
    assert!(!BytesRepr::Bytes.is_default());
}

#[test]
fn a_custom_map_is_a_plain_path() {
    assert_eq!(MapRepr::HashMap.type_path("K", "V", "::H").unwrap(), "::H<K, V>");
    assert_eq!(
        MapRepr::Custom("my::Map".to_string()).type_path("K", "V", "::H").unwrap(),
        "my :: Map<K, V>"
    );
    for (path, detail) in [
        ("my::Map<K, V>", " (map custom path must not include `<K, V>`; the key and value are appended automatically)"),
        ("&str", " (map custom path must be a plain type path)"),
        ("my::Map<*>", " (map custom path takes no `<K, V>` parameters and no `*` placeholder)"),
    ] {
        match MapRepr::Custom(path.to_string()).type_path("K", "V", "::H") {
            Err(CodeGenError::InvalidTypePath(p)) => assert_eq!(p, format!("{path}{detail}")),
            other => panic!("{path}: {other:?}"),
        }
    }
}

#[test]
fn a_pointer_template_wraps_the_message() {
    assert_eq!(
        PointerRepr::Box.pointer_type("Foo").unwrap(),
        "::buffa::alloc::boxed::Box<Foo>"
    );
    assert_eq!(
        PointerRepr::Box.pointer_new("Foo", "x").unwrap(),
        "::buffa::alloc::boxed::Box::new(x)"
    );
    assert_eq!(
        PointerRepr::Custom("my::P<*>".to_string()).pointer_type("Foo").unwrap(),
        "my :: P < Foo >"
    );
    assert_eq!(
        PointerRepr::Inline.type_path("::MF", "Foo").unwrap(),
        "::MF<Foo, ::buffa::Inline<Foo>>"
    );
    assert_eq!(PointerRepr::Box.some_path("Foo").unwrap(), "::buffa::MessageField::<Foo>");
    assert_eq!(
        PointerRepr::Custom("my::P<*>".to_string()).pointer_new("Foo", "x").unwrap(),
        "<my :: P < Foo > as ::buffa::ProtoBox<Foo>>::new(x)"
    );
    assert!(matches!(
        PointerRepr::Custom("my::P".to_string()).pointer_type("Foo"),
        Err(CodeGenError::MissingWildcard(p)) if p == "my::P"
    ));
    assert!(matches!(
        PointerRepr::Custom("<*".to_string()).pointer_type("Foo"),
        Err(CodeGenError::InvalidTypePath(p)) if p == "<* (as <Foo)"
    ));
}

#[test]
fn a_collection_template_holds_the_element() {
    assert_eq!(RepeatedRepr::Vec.type_path("u32", "::V").unwrap(), "::V<u32>");
    assert_eq!(
        RepeatedRepr::Custom("small::Vec<[*; 4]>".to_string()).type_path("u32", "::V").unwrap(),
        "small :: Vec < [u32 ; 4] >"
    );
    assert!(matches!(
        RepeatedRepr::Custom("small::Vec".to_string()).type_path("u32", "::V"),
        Err(CodeGenError::MissingListPlaceholder(p)) if p == "small::Vec"
    ));
}

#[test]
fn what_a_path_was_read_as_decides() {
    let read = |segments| Some(TypeSyntax { tokens: "T".to_string(), segments });
    assert_eq!(custom_type_from(read(None), "t").unwrap(), "T");
    assert!(custom_type_from(None, "t").is_err());
    assert_eq!(custom_map_from(read(Some(vec![PathArgs::Bare])), "t").unwrap(), "T");
    assert!(custom_map_from(read(Some(vec![PathArgs::Bare, PathArgs::AngleBracketed])), "t").is_err());
    assert!(custom_map_from(read(Some(vec![PathArgs::Parenthesized])), "t").is_err());
    assert_eq!(wildcard_type_from(read(None), "P<*>", "M").unwrap(), "T");
    assert!(wildcard_type_from(read(None), "P", "M").is_err());
    assert_eq!(list_type_from(read(None), "V<*>").unwrap(), "T");
    assert!(list_type_from(read(None), "V").is_err());
}

#[test]
fn errors_say_what_is_wrong() {
    let cases = [
        (CodeGenError::MissingField("name"), "missing required descriptor field: name"),
        (
            CodeGenError::FileNotFound("a.proto".to_string()),
            "file_to_generate 'a.proto' not found in descriptor set",
        ),
        (CodeGenError::Other("no".to_string()), "codegen error: no"),
        (
            CodeGenError::ReservedModuleName {
                name: "__buffa".to_string(),
                location: "package 'a.__buffa'".to_string(),
            },
            "reserved name '__buffa' at package 'a.__buffa': this name is reserved for buffa's generated ancillary types (views, oneof enums, extensions). Rename the proto element.",
        ),
        (
            CodeGenError::SharedCorpusContextMismatch { what: "files" },
            "shared_corpus_context was built from different files than this generate() call; build it from the same files and oneof/pointer-repr config as every call that uses it",
        ),
        (
            CodeGenError::InvalidTypeNamePrefix { prefix: "x".to_string() },
            "invalid type_name_prefix 'x': must be empty or PascalCase (start with an ASCII uppercase letter, followed by ASCII letters and digits only)",
        ),
    ];
    for (error, message) in cases {
        assert_eq!(error.message(), message);
    }
}

#[test]
fn warnings_say_where_they_are() {
    let warning = |message_name: &str| CodeGenWarning::ExcludedPackageFieldRef {
        file_name: "a.proto".to_string(),
        message_name: message_name.to_string(),
        field_name: "f".to_string(),
        ref_package: "dep".to_string(),
        type_fqn: ".dep.T".to_string(),
    };
    assert!(warning("M").message().starts_with(
        "field `a.proto: M.f` references `.dep.T`, which is not being generated"
    ));
    assert!(warning("").message().starts_with("field `a.proto: f` references"));
    assert!(CodeGenWarning::LazyViewsRequireViews
        .message()
        .starts_with("lazy_views requires generate_views"));
    assert_eq!(
        CodeGenWarning::OwnedViewAccessorSuppressed {
            wrapper_name: "FooOwnedView".to_string(),
            field_name: "view".to_string(),
        }
        .message(),
        "`FooOwnedView`: accessor for field `view` suppressed (collides with a reserved wrapper method); use `.view().view` instead"
    );
}

#[test]
fn code_goes_behind_crate_features() {
    assert_eq!(cfg_block("fn f() {}", None), "fn f() {}");
    assert_eq!(cfg_block("fn f() {}", Some("json")), "#[cfg(feature = \"json\")] fn f() {}");
    assert_eq!(
        cfg_block_any("fn f() {}", Some("json"), Some("text")),
        "#[cfg(any(feature = \"json\", feature = \"text\"))] fn f() {}"
    );
    assert_eq!(
        cfg_block_any("fn f() {}", None, Some("text")),
        "#[cfg(feature = \"text\")] fn f() {}"
    );
}

#[test]
fn reflection_modes_set_their_options() {
    let mut config = CodeGenConfig::default();
    ReflectMode::VTable.apply(&mut config);
    assert!(config.generate_reflection && config.generate_reflection_vtable);
    ReflectMode::Bridge.apply(&mut config);
    assert!(config.generate_reflection && !config.generate_reflection_vtable);
    ReflectMode::Off.apply(&mut config);
    assert!(!config.generate_reflection && !config.generate_reflection_vtable);
}

#[test]
fn overrides_go_by_their_names() {
    let rule = FeatureOverride::EnumType(EnumTypeOverride::Open);
    assert_eq!(rule.feature_name(), "enum_type");
    assert_eq!(rule.value_name(), "OPEN");
    let mut config = CodeGenConfig::default();
    assert!(!config.has_enum_type_overrides());
    config.feature_overrides.push((".a".to_string(), rule));
    assert!(config.has_enum_type_overrides());
}

#[test]
fn reflection_can_be_gated_alone() {
    let mut config = CodeGenConfig::default();
    config.gate_reflect_on_crate_feature = true;
    assert_eq!(config.reflect_feature_gate(), None);
    config.generate_reflection = true;
    assert_eq!(config.reflect_feature_gate(), Some("reflect"));
    assert!(config.feature_gates().views.is_none());
}

#[test]
fn gates_are_in_use_for_what_is_generated_and_gated() {
    let mut config = CodeGenConfig::default();
    config.generate_json = true;
    assert!(config.feature_gates().json.is_none());
    config.gate_impls_on_crate_features = true;
    assert_eq!(config.feature_gates().json, Some("json"));
    assert!(config.feature_gates().text.is_none());
    assert!(config.feature_gates().validate().is_ok());
    config.feature_gate_names.json = "no spaces".to_string();
    assert_eq!(config.feature_gates().validate(), Err(("json", "no spaces")));
}

#[test]
fn a_type_name_prefix_is_pascal_case() {
    let mut config = CodeGenConfig::default();
    config.type_name_prefix = "Proto".to_string();
    assert!(config.validate_type_name_prefix().is_ok());
    assert_eq!(config.prefixed_type_name("Foo"), "ProtoFoo");
    config.type_name_prefix = "proto".to_string();
    assert!(matches!(
        config.validate_type_name_prefix(),
        Err(CodeGenError::InvalidTypeNamePrefix { prefix }) if prefix == "proto"
    ));
}

#[test]
fn a_file_is_laid_out_under_its_header() {
    assert_eq!(
        format_tokens("pub   struct Foo  { x : u32 }", "a.proto").unwrap(),
        "// @generated by buffa-codegen. DO NOT EDIT.\n// source: a.proto\n\npub struct Foo {\n    x: u32,\n}\n"
    );
    assert_eq!(
        format_tokens("", "").unwrap(),
        "// @generated by buffa-codegen. DO NOT EDIT.\n\n"
    );
}

#[test]
fn code_that_does_not_parse_is_refused() {
    assert!(matches!(format_tokens("pub struct", ""), Err(CodeGenError::InvalidSyntax(_))));
}

#[test]
fn code_that_cannot_be_laid_out_is_refused() {
    let said = "the generated code holds syntax that cannot be laid out".to_string();
    // A static without a type is kept as raw tokens.
    assert_eq!(lay_out("static X = 1;"), Err(said.clone()));
    assert_eq!(lay_out("macro_rules! m { broken }"), Err(said.clone()));
    assert_eq!(lay_out("fn f(box x: u8) {}"), Err(said.clone()));
    assert_eq!(lay_out("type X = dyn* Tr;"), Err(said.clone()));
    assert_eq!(lay_out("fn f() { builtin # g(x) }"), Err(said.clone()));
    assert_eq!(lay_out("mod a { fn f() { macro_rules! m { broken } } }"), Err(said.clone()));
    // With the name of this length, the layout would be a column too narrow.
    let wide = format!("type A<const N: f64 = {{ 1. .a() }}> = {};", "T".repeat(52));
    assert_eq!(lay_out(&wide), Err(said.clone()));
    assert_eq!(lay_out("fn f() { 1. .a; }"), Err(said.clone()));
    assert_eq!(lay_out("fn f() { 1_0. .await; }"), Err(said));
    // Only a dot behind the literal matters, and only a definition.
    assert!(lay_out("const X: [f64; 2] = [1., 2.];").is_ok());
    assert!(lay_out("fn f() { (1.).a() + 1.0.b() + x.0.c }").is_ok());
    assert!(lay_out("struct S { macro_rules: u8 } fn f() { macro_rules! { x } }").is_ok());
    assert!(lay_out("fn macro_rules() { macro_rules::m! {} }").is_ok());
    assert!(lay_out("path::macro_rules! m { broken }").is_ok());
    assert_eq!(
        lay_out("macro_rules! m { () => { 1 } ; ($x : expr) => { $x } }").unwrap(),
        "macro_rules! m {\n    () => {\n        1\n    };\n    ($x:expr) => {\n        $x\n    };\n}\n"
    );
    // A lone semicolon is raw too, and empty.
    assert!(lay_out("fn f() { ; }").is_ok());
}

#[test]
fn the_shared_root_is_reached_by_an_absolute_path() {
    assert!(validate_shared_root_path("::my_protos::__buffa_fds").is_ok());
    assert!(validate_shared_root_path("crate").is_ok());
    assert!(validate_shared_root_path("crate::gen::fds").is_ok());
    for bad in ["gen::fds", "::", "::a::<u8>", "::a::self", "crate::crate", "::a::b::"] {
        assert!(
            matches!(validate_shared_root_path(bad), Err(CodeGenError::Other(_))),
            "{bad}"
        );
    }
}

#[test]
fn a_sidecar_is_pulled_in_by_its_path() {
    assert_eq!(sidecar_path(FdsEmbedding::Inline), None);
    assert_eq!(
        sidecar_path(FdsEmbedding::Sidecar {
            file_name: "fds.bin",
            mode: IncludeMode::Relative("gen/"),
        })
        .as_deref(),
        Some("\"gen/fds.bin\"")
    );
    assert_eq!(
        sidecar_path(FdsEmbedding::Sidecar { file_name: "fds.bin", mode: IncludeMode::OutDir })
            .as_deref(),
        Some("concat!(env!(\"OUT_DIR\"), \"/fds.bin\")")
    );
}

#[test]
fn the_shared_root_module_is_laid_out() {
    assert_eq!(
        shared_descriptor_root_module("pub mod __buffa_fds {}", Some("reflect")).unwrap(),
        "#[cfg(feature = \"reflect\")]\npub mod __buffa_fds {}\n"
    );
}

#[test]
fn messages_quote_text_as_rust_does() {
    let said = match validate_shared_root_path("::a\"b\n") {
        Err(CodeGenError::Other(said)) => said,
        other => panic!("{other:?}"),
    };
    assert!(said.contains("\"::a\\\"b\\n\""), "{said}");
}

#[test]
fn text_is_searched_and_split() {
    assert_eq!(text::split("a.b..c", "."), ["a", "b", "", "c"]);
    assert_eq!(text::split("", "."), [""]);
    assert_eq!(text::split_once("k=v=w", "="), Some(("k", "v=w")));
    assert_eq!(text::trim(" \u{2003}a b\t\n"), "a b");
    assert!(text::contains(&text::to_chars("abcab"), "cab"));
    assert!(!text::contains(&text::to_chars("abcab"), "cb"));
    assert!(text::always_continues(&text::to_chars("ab ab"), "a", "ab"));
    assert!(!text::always_continues(&text::to_chars("ab a"), "a", "ab"));
    assert_eq!(text::to_decimal(0), "0");
    assert_eq!(text::to_decimal(90210), "90210");
    assert_eq!(text::parse_usize("+0042"), Some(42));
    assert_eq!(text::parse_usize("99999999999999999999999"), None);
    assert!(text::less("a", "ab"));
    assert!(text::less("Z", "a"));
    assert!(!text::less("a", "a"));
}
