use buffa::codegen::config::{CodeGenConfig, EnumTypeOverride, FeatureOverride};
use buffa::codegen::content::{
    generate_proto_content, plan_file, ExtensionOutput, FileOutput, MessageOutput,
    ReexportCandidate, RegistryPaths,
};
use buffa::codegen::corpus::{CorpusState, SharedCorpusContext};
use buffa::codegen::custom_elements::custom_elem_impls;
use buffa::codegen::descriptor::{
    DescriptorProto, EnumDescriptorProto, FieldDescriptorProto, FieldType, FileDescriptorProto,
    MapEntry,
};
use buffa::codegen::descriptor_set::{encode_descriptor_set, strip_field};
use buffa::codegen::errors::CodeGenError;
use buffa::codegen::extern_paths::{effective_extern_paths, effective_file_extern_paths};
use buffa::codegen::files::{GeneratedFile, GeneratedFileKind};
use buffa::codegen::generate::{
    generate, generate_with_diagnostics, is_backend_of, plan_generation, PackageOutput,
};
use buffa::codegen::repr::{BytesRepr, PointerRepr, StringRepr};
use buffa::codegen::root_names::{import_reserved_names, root_occupied_names, surviving_root_reexports};
use buffa::codegen::shared_root::validate_shared_root_name;
use buffa::codegen::stitch::{allow_lints_attr, PackagePieces};
use buffa::codegen::validate::validate_file;
use buffa::codegen::warning::CodeGenWarning;
use buffa::encoding::{encode_varint, Tag, WireType};
use buffa::DecodeError;

use std::sync::Arc;

fn some(s: &str) -> Option<String> {
    Some(s.to_string())
}

fn strings(list: &[&str]) -> Vec<String> {
    list.iter().map(|s| s.to_string()).collect()
}

fn file(name: &str, package: &str) -> FileDescriptorProto {
    FileDescriptorProto {
        name: some(name),
        package: some(package),
        message_type: Vec::new(),
        enum_type: Vec::new(),
        extension: Vec::new(),
        encoded: name.as_bytes().to_vec(),
    }
}

fn message(name: &str) -> DescriptorProto {
    DescriptorProto {
        name: some(name),
        module_name: name.to_lowercase(),
        nested_module_name: name.to_lowercase(),
        field: Vec::new(),
        extension: Vec::new(),
        nested_type: Vec::new(),
        enum_type: Vec::new(),
        map_entry: false,
    }
}

fn field(name: &str, type_ref: Option<&str>) -> FieldDescriptorProto {
    FieldDescriptorProto {
        name: some(name),
        type_ref: type_ref.map(|t| t.to_string()),
        repeated: false,
        field_type: FieldType::Other,
        map_entry: None,
    }
}

fn code_of(file: &FileDescriptorProto) -> FileOutput {
    FileOutput {
        enums: file
            .enum_type
            .iter()
            .map(|e| format!("pub enum {} {{}}", e.name.as_deref().unwrap()))
            .collect(),
        messages: file
            .message_type
            .iter()
            .map(|m| {
                let name = m.name.as_deref().unwrap();
                MessageOutput {
                    owned_top: format!("pub struct {name};"),
                    owned_mod: String::new(),
                    oneof_tree: String::new(),
                    view_tree: format!("pub struct {name}View;"),
                    lazy_view_tree: String::new(),
                    view_oneof_tree: String::new(),
                    reg: RegistryPaths::default(),
                }
            })
            .collect(),
        extensions: ExtensionOutput {
            tokens: String::new(),
            json: Vec::new(),
            text: Vec::new(),
            const_idents: file
                .extension
                .iter()
                .map(|e| e.name.as_deref().unwrap().to_uppercase())
                .collect(),
        },
    }
}

fn no_pieces() -> PackagePieces {
    PackagePieces {
        use_block: String::new(),
        embedded_pool: String::new(),
        shared_pool: String::new(),
        reflect_reexports: String::new(),
    }
}

/// The code of every planned package.
fn backend(
    files: &Vec<FileDescriptorProto>,
    requested: &Vec<String>,
    config: &CodeGenConfig,
) -> Vec<PackageOutput> {
    match plan_generation(files, requested, config, &Vec::new()) {
        Ok(plan) => plan
            .packages
            .iter()
            .map(|p| PackageOutput {
                outputs: p.files.iter().map(|f| Ok(code_of(f))).collect(),
                pieces: no_pieces(),
                warnings: Vec::new(),
            })
            .collect(),
        Err(_) => Vec::new(),
    }
}

fn run(
    files: &Vec<FileDescriptorProto>,
    requested: &[&str],
    config: &CodeGenConfig,
) -> Result<(Vec<GeneratedFile>, Vec<CodeGenWarning>), CodeGenError> {
    let requested = strings(requested);
    let backend = backend(files, &requested, config);
    generate_with_diagnostics(files, &requested, config, &Vec::new(), backend)
}

fn names(files: &[GeneratedFile]) -> Vec<&str> {
    files.iter().map(|f| f.name.as_str()).collect()
}

#[test]
fn a_package_goes_to_content_files_and_a_stitcher() {
    let mut a = file("dir/a.proto", "pkg");
    a.message_type.push(message("Foo"));
    let files = vec![a];
    let (out, warnings) = run(&files, &["dir/a.proto"], &CodeGenConfig::default()).unwrap();
    assert!(warnings.is_empty());
    assert_eq!(names(&out), ["dir.a.rs", "dir.a.__view.rs", "pkg.mod.rs"]);
    assert_eq!(out[0].kind, GeneratedFileKind::Owned);
    assert_eq!(out[1].kind, GeneratedFileKind::View);
    assert_eq!(out[2].kind, GeneratedFileKind::PackageMod);
    assert_eq!(
        out[0].content,
        "// @generated by buffa-codegen. DO NOT EDIT.\n// source: dir/a.proto\n\npub struct Foo;\n"
    );
    let flat: String = out[2].content.split_whitespace().collect();
    assert!(flat.contains("include!(\"dir.a.rs\");"), "{flat}");
    assert!(
        flat.contains("pubmod__buffa{#[allow(unused_imports)]usesuper::*;pubmodview{#[allow(unused_imports)]usesuper::*;include!(\"dir.a.__view.rs\");}}"),
        "{flat}"
    );
    assert!(flat.contains("pubuseself::__buffa::view::FooView;"), "{flat}");
    assert!(flat.contains("pubuseself::__buffa::view::FooOwnedView;"), "{flat}");
}

#[test]
fn a_package_can_go_to_one_file() {
    let mut a = file("a.proto", "pkg");
    a.message_type.push(message("Foo"));
    let mut b = file("b.proto", "pkg");
    b.enum_type.push(EnumDescriptorProto { name: some("Bar") });
    let files = vec![b, a];
    let mut config = CodeGenConfig::default();
    config.file_per_package = true;
    config.generate_views = false;
    let (out, _) = run(&files, &["a.proto", "b.proto"], &config).unwrap();
    assert_eq!(names(&out), ["pkg.rs"]);
    // Files come in the order in which they were asked for. Without views there
    // is nothing for the reserved module.
    assert_eq!(
        out[0].content,
        "// @generated by buffa-codegen. DO NOT EDIT.\n\npub struct Foo;\npub enum Bar {}\n"
    );
}

#[test]
fn packages_come_in_the_order_of_their_names() {
    let files = vec![file("z.proto", "z"), file("a.proto", "a"), file("m.proto", "")];
    let (out, _) = run(&files, &["z.proto", "m.proto", "a.proto"], &CodeGenConfig::default()).unwrap();
    assert_eq!(names(&out), ["__buffa.mod.rs", "a.mod.rs", "z.mod.rs"]);
    let (again, _) = run(&files, &["a.proto", "z.proto", "m.proto"], &CodeGenConfig::default()).unwrap();
    assert_eq!(names(&again), names(&out));
}

#[test]
fn a_file_that_is_not_there_is_reported() {
    let files = vec![file("a.proto", "a")];
    assert!(matches!(
        run(&files, &["a.proto", "gone.proto"], &CodeGenConfig::default()),
        Err(CodeGenError::FileNotFound(f)) if f == "gone.proto"
    ));
}

#[test]
fn options_that_need_each_other_are_checked() {
    let files = vec![file("a.proto", "a")];
    let fails = |config: &CodeGenConfig, with: &str| {
        match run(&files, &["a.proto"], config) {
            Err(CodeGenError::Other(e)) => assert!(e.starts_with(with), "{e}"),
            other => panic!("{other:?}"),
        }
    };
    let mut config = CodeGenConfig::default();
    config.generate_reflection_vtable = true;
    fails(&config, "generate_reflection_vtable requires generate_reflection");
    let mut config = CodeGenConfig::default();
    config.shared_descriptor_pool = true;
    fails(&config, "shared_descriptor_pool requires generate_reflection");
    let mut config = CodeGenConfig::default();
    config.shared_descriptor_pool_root = some("::root");
    fails(&config, "shared_descriptor_pool_root requires shared_descriptor_pool");
    config.generate_reflection = true;
    config.shared_descriptor_pool = true;
    config.shared_descriptor_pool_root = some("root");
    fails(&config, "shared_descriptor_pool_root must be an absolute");
    let mut config = CodeGenConfig::default();
    config.idiomatic_imports = true;
    fails(&config, "idiomatic_imports requires file_per_package");
    let mut config = CodeGenConfig::default();
    config.generate_json = true;
    config.gate_impls_on_crate_features = true;
    config.feature_gate_names.json = "a\"b".to_string();
    fails(&config, "invalid json feature-gate name \"a\\\"b\": a Cargo feature name");
    let mut config = CodeGenConfig::default();
    config.exclude_packages = strings(&["ok", "a..b"]);
    fails(&config, "exclude_package \"a..b\": 'exclude_package' requires");
}

#[test]
fn to_exclude_is_not_to_ask() {
    let mut kept = file("c.proto", "c");
    kept.message_type.push(message("Kept"));
    let files = vec![file("a.proto", "a"), kept, file("b.proto", "a.b"), file("d.proto", "d")];
    let mut config = CodeGenConfig::default();
    config.exclude_packages = strings(&["a", "nowhere"]);
    let all = ["d.proto", "a.proto", "b.proto", "c.proto"];
    let (out, warnings) = run(&files, &all, &config).unwrap();
    let (other, silent) =
        run(&files, &["d.proto", "c.proto"], &CodeGenConfig::default()).unwrap();
    let shown = |files: &[GeneratedFile]| {
        files
            .iter()
            .map(|f| (f.name.clone(), f.package.clone(), f.content.clone()))
            .collect::<Vec<_>>()
    };
    assert_eq!(out.len(), 4);
    assert_eq!(shown(&out), shown(&other));
    assert_eq!((warnings.len(), silent.len()), (1, 0));
}

#[test]
fn a_backend_is_held_against_its_plan() {
    let mut one = file("a.proto", "a");
    one.message_type.push(message("M"));
    let files = vec![one, file("b.proto", "b")];
    let requested = strings(&["a.proto", "b.proto"]);
    let config = CodeGenConfig::default();
    let plan = plan_generation(&files, &requested, &config, &Vec::new()).unwrap();
    let mut given = backend(&files, &requested, &config);
    assert!(is_backend_of(&plan, &given));
    if let Ok(output) = &mut given[0].outputs[0] {
        output.messages.clear();
    }
    assert!(!is_backend_of(&plan, &given), "a message is missing");
    given[0].outputs[0] = Err(CodeGenError::Other("broken".to_string()));
    assert!(is_backend_of(&plan, &given), "an error stands for its file");
    given[0].outputs.clear();
    assert!(!is_backend_of(&plan, &given), "a file is missing");
    assert!(!is_backend_of(&plan, &Vec::new()), "the packages are missing");
}

#[test]
fn excluded_packages_are_left_out() {
    let files = vec![file("a.proto", "a"), file("b.proto", "a.b"), file("c.proto", "c")];
    let mut config = CodeGenConfig::default();
    config.exclude_packages = strings(&[".a", "nowhere"]);
    let (out, warnings) = run(&files, &["a.proto", "b.proto", "c.proto"], &config).unwrap();
    assert_eq!(names(&out), ["c.mod.rs"]);
    assert_eq!(warnings.len(), 1);
    assert!(matches!(
        &warnings[0],
        CodeGenWarning::ExcludePackageMatchedNothing { package } if package == "nowhere"
    ));
}

#[test]
fn references_that_lead_nowhere_are_warned_of_once() {
    let mut a = file("a.proto", "a");
    let mut msg = message("M");
    msg.field.push(field("x", Some(".dep.T")));
    msg.field.push(field("again", Some(".dep.T")));
    msg.field.push(field("own", Some(".a.M")));
    msg.field.push(field("wkt", Some(".google.protobuf.Any")));
    let mut inner = message("Inner");
    inner.field.push(field("u", Some(".dep.U")));
    msg.nested_type.push(inner);
    a.message_type.push(msg);
    let mut dep = file("dep.proto", "dep");
    dep.message_type.push(message("T"));
    dep.message_type.push(message("U"));
    let mut any = file("google/protobuf/any.proto", "google.protobuf");
    any.message_type.push(message("Any"));
    let files = vec![a, dep, any];
    let (_, warnings) = run(&files, &["a.proto"], &CodeGenConfig::default()).unwrap();
    let found: Vec<(String, String, String, String)> = warnings
        .into_iter()
        .map(|w| match w {
            CodeGenWarning::ExcludedPackageFieldRef {
                message_name, field_name, ref_package, type_fqn, ..
            } => (message_name, field_name, ref_package, type_fqn),
            other => panic!("{other:?}"),
        })
        .collect();
    let quad = |a: &str, b: &str, c: &str, d: &str| {
        (a.to_string(), b.to_string(), c.to_string(), d.to_string())
    };
    assert_eq!(
        found,
        [quad("M", "x", "dep", ".dep.T"), quad("M.Inner", "u", "dep", ".dep.U")]
    );
    let mut config = CodeGenConfig::default();
    config.extern_paths.push((".dep".to_string(), "::dep".to_string()));
    let (_, warnings) = run(&files, &["a.proto"], &config).unwrap();
    assert!(warnings.is_empty());
}

#[test]
fn the_values_of_a_map_are_looked_at_through_its_entry() {
    let mut a = file("a.proto", "a");
    let mut msg = message("M");
    let mut prices = field("prices", Some(".a.M.PricesEntry"));
    prices.repeated = true;
    prices.map_entry = Some(MapEntry {
        key: Some(FieldType::Str),
        value: Some(FieldType::Other),
        value_type: some(".dep.T"),
        complete: true,
    });
    msg.field.push(prices);
    let mut entry = message("PricesEntry");
    entry.map_entry = true;
    entry.field.push(field("value", Some(".dep.T")));
    msg.nested_type.push(entry);
    a.message_type.push(msg);
    let mut dep = file("dep.proto", "dep");
    dep.message_type.push(message("T"));
    let files = vec![a, dep];
    let (_, warnings) = run(&files, &["a.proto"], &CodeGenConfig::default()).unwrap();
    assert_eq!(warnings.len(), 1);
    assert!(matches!(
        &warnings[0],
        CodeGenWarning::ExcludedPackageFieldRef { field_name, message_name, .. }
            if field_name == "prices" && message_name == "M"
    ));
}

#[test]
fn overrides_that_match_nothing_and_lazy_views_without_views_are_warned_of() {
    let files = vec![file("a.proto", "a")];
    let requested = strings(&["a.proto"]);
    let mut config = CodeGenConfig::default();
    config.lazy_views = true;
    config.generate_views = false;
    let unmatched = vec![(
        ".x.Y".to_string(),
        FeatureOverride::EnumType(EnumTypeOverride::Open),
    )];
    let code = backend(&files, &requested, &config);
    let (_, warnings) =
        generate_with_diagnostics(&files, &requested, &config, &unmatched, code).unwrap();
    assert_eq!(warnings.len(), 2);
    assert!(matches!(
        &warnings[0],
        CodeGenWarning::FeatureOverrideMatchedNothing { rule, feature: "enum_type", value: "OPEN" }
            if rule == ".x.Y"
    ));
    assert!(matches!(&warnings[1], CodeGenWarning::LazyViewsRequireViews));
}

#[test]
fn generators_add_their_own_warnings_and_errors() {
    let files = vec![file("a.proto", "a")];
    let requested = strings(&["a.proto"]);
    let config = CodeGenConfig::default();
    let mut code = backend(&files, &requested, &config);
    code[0].warnings.push(CodeGenWarning::LazyViewsRequireViews);
    let (_, warnings) =
        generate_with_diagnostics(&files, &requested, &config, &Vec::new(), code).unwrap();
    assert_eq!(warnings.len(), 1);
    let mut code = backend(&files, &requested, &config);
    code[0].outputs[0] = Err(CodeGenError::MissingField("field.type"));
    assert!(matches!(
        generate(&files, &requested, &config, &Vec::new(), code),
        Err(CodeGenError::MissingField("field.type"))
    ));
}

#[test]
fn generate_drops_the_warnings() {
    let files = vec![file("a.proto", "a")];
    let requested = strings(&["a.proto"]);
    let config = CodeGenConfig::default();
    let code = backend(&files, &requested, &config);
    let out = generate(&files, &requested, &config, &Vec::new(), code).unwrap();
    assert_eq!(names(&out), ["a.mod.rs"]);
}

#[test]
fn code_that_does_not_parse_stops_generation() {
    let files = vec![file("a.proto", "a")];
    let requested = strings(&["a.proto"]);
    let config = CodeGenConfig::default();
    let mut code = backend(&files, &requested, &config);
    code[0].pieces.use_block = "use".to_string();
    assert!(matches!(
        generate(&files, &requested, &config, &Vec::new(), code),
        Err(CodeGenError::InvalidSyntax(_))
    ));
}

#[test]
fn reflection_comes_from_the_shared_pool_or_an_embedded_one() {
    let files = vec![file("a.proto", "a")];
    let requested = strings(&["a.proto"]);
    let mut config = CodeGenConfig::default();
    config.generate_reflection = true;
    let with_pieces = |config: &CodeGenConfig| {
        let mut code = backend(&files, &requested, config);
        code[0].pieces = PackagePieces {
            use_block: String::new(),
            embedded_pool: "pub mod reflect { pub const EMBEDDED: u8 = 1; }".to_string(),
            shared_pool: "pub mod reflect { pub const SHARED: u8 = 1; }".to_string(),
            reflect_reexports: "pub use self::__buffa::reflect::descriptor_pool;".to_string(),
        };
        generate(&files, &requested, config, &Vec::new(), code).unwrap()
    };
    let embedded = with_pieces(&config);
    assert!(embedded[0].content.contains("EMBEDDED"));
    assert!(embedded[0].content.contains("descriptor_pool"));
    config.shared_descriptor_pool = true;
    let shared = with_pieces(&config);
    assert!(shared[0].content.contains("SHARED"));
    assert!(!shared[0].content.contains("EMBEDDED"));
    // Without reflection neither is there.
    let off = with_pieces(&CodeGenConfig::default());
    assert!(!off[0].content.contains("reflect"));
}

#[test]
fn the_shared_root_is_reserved_in_this_tree() {
    let files = vec![file("a.proto", "a.__buffa_fds")];
    let requested = strings(&["a.proto"]);
    assert!(matches!(
        validate_shared_root_name(&files, &requested),
        Err(CodeGenError::ReservedModuleName { name, .. }) if name == "__buffa_fds"
    ));
    assert!(validate_shared_root_name(&files, &Vec::new()).is_ok());
    let mut config = CodeGenConfig::default();
    config.generate_reflection = true;
    config.shared_descriptor_pool = true;
    assert!(run(&files, &["a.proto"], &config).is_err());
    config.shared_descriptor_pool_root = some("::elsewhere");
    assert!(run(&files, &["a.proto"], &config).is_ok());
}

#[test]
fn types_are_registered_where_there_are_any() {
    let mut a = file("a.proto", "a");
    a.message_type.push(message("Foo"));
    let files = vec![a];
    let requested = strings(&["a.proto"]);
    let mut config = CodeGenConfig::default();
    config.generate_json = true;
    config.gate_impls_on_crate_features = true;
    let registered = |config: &CodeGenConfig| {
        let mut code = backend(&files, &requested, config);
        match &mut code[0].outputs[0] {
            Ok(output) => {
                output.messages[0].reg.json_any.push("__FOO_JSON_ANY".to_string());
                output.messages[0].reg.json_ext.push("X_JSON".to_string());
            }
            Err(e) => panic!("{e:?}"),
        }
        let out = generate(&files, &requested, config, &Vec::new(), code).unwrap();
        let flat: String = out.last().unwrap().content.split_whitespace().collect();
        flat
    };
    let flat = registered(&config);
    assert!(
        flat.contains("#[cfg(feature=\"json\")]///Registerthispackage's`Any`typeentriesandextensionentries.#[allow(unused_variables)]pubfnregister_types(reg:&mut::buffa::type_registry::TypeRegistry){#[cfg(feature=\"json\")]reg.register_json_any(super::__FOO_JSON_ANY);#[cfg(feature=\"json\")]reg.register_json_ext(super::foo::X_JSON);}"),
        "{flat}"
    );
    assert!(flat.contains("pubuseself::__buffa::register_types;"), "{flat}");
    config.emit_register_fn = false;
    assert!(!registered(&config).contains("register_types"));
}

#[test]
fn custom_impls_go_to_the_first_package_alone() {
    let mut files = Vec::new();
    for (name, package) in [("b.proto", "b"), ("a.proto", "a")] {
        let mut f = file(name, package);
        let mut msg = message("M");
        let mut names = field("names", None);
        names.repeated = true;
        names.field_type = FieldType::Str;
        msg.field.push(names);
        f.message_type.push(msg);
        files.push(f);
    }
    let mut config = CodeGenConfig::default();
    config.generate_reflection = true;
    config.generate_reflection_vtable = true;
    config.string_fields.push((".".to_string(), StringRepr::Custom("my::S".to_string())));
    let (out, _) = run(&files, &["b.proto", "a.proto"], &config).unwrap();
    let holders: Vec<&str> = out
        .iter()
        .filter(|f| f.content.contains("ReflectElement for my::S"))
        .map(|f| f.name.as_str())
        .collect();
    assert_eq!(holders, ["a.mod.rs"]);
}

#[test]
fn custom_types_are_collected_from_repeated_fields_and_maps() {
    let mut f = file("a.proto", "a");
    let mut msg = message("M");
    let mut list = field("list", None);
    list.repeated = true;
    list.field_type = FieldType::Bytes;
    let mut map = field("map", None);
    map.repeated = true;
    map.map_entry = Some(MapEntry {
        key: Some(FieldType::Str),
        value: Some(FieldType::Bytes),
        value_type: None,
        complete: true,
    });
    let mut single = field("single", None);
    single.field_type = FieldType::Str;
    msg.field = vec![list, map, single];
    f.message_type.push(msg);
    let files = vec![f];
    let requested = strings(&["a.proto"]);
    let mut config = CodeGenConfig::default();
    config.generate_json = true;
    config.bytes_fields.push((".".to_string(), BytesRepr::Custom("B".to_string())));
    config.string_fields.push((".".to_string(), StringRepr::Custom("S".to_string())));
    let json = custom_elem_impls(&config, &files, &requested).unwrap();
    assert!(json.starts_with("impl ::buffa::json_helpers::ProtoElemJson for B {"), "{json}");
    assert_eq!(json.matches("impl ").count(), 1, "{json}");
    config.generate_reflection_vtable = true;
    let all = custom_elem_impls(&config, &files, &requested).unwrap();
    assert!(all.contains("ReflectElement for B"), "{all}");
    assert!(all.contains("ReflectMapKey for S"), "{all}");
    assert!(!all.contains("ReflectElement for S"), "{all}");
    // The last rule wins.
    config.bytes_fields.push((".a.M.list".to_string(), BytesRepr::Vec));
    config.bytes_fields.push((".a.M.map".to_string(), BytesRepr::Custom("no type".to_string())));
    assert!(matches!(
        custom_elem_impls(&config, &files, &requested),
        Err(CodeGenError::InvalidTypePath(p)) if p == "no type"
    ));
}

#[test]
fn files_with_reserved_names_are_refused() {
    let ok = file("a.proto", "a");
    assert!(validate_file(&ok).is_ok());
    let reserved = file("a.proto", "a.__buffa");
    assert!(matches!(
        validate_file(&reserved),
        Err(CodeGenError::ReservedModuleName { location, .. }) if location == "package 'a.__buffa'"
    ));
    let mut with_enum = file("a.proto", "a");
    with_enum.enum_type.push(EnumDescriptorProto { name: some("__buffa") });
    assert!(matches!(
        validate_file(&with_enum),
        Err(CodeGenError::ReservedModuleName { location, .. }) if location == "enum 'a.__buffa'"
    ));
    let mut with_field = file("a.proto", "a");
    let mut msg = message("M");
    msg.field.push(field("__buffa_x", None));
    with_field.message_type.push(msg);
    assert!(matches!(
        validate_file(&with_field),
        Err(CodeGenError::ReservedFieldName { message_name, field_name })
            if message_name == "a.M" && field_name == "__buffa_x"
    ));
    let mut siblings = file("a.proto", "a");
    siblings.message_type.push(message("Foo"));
    siblings.message_type.push(message("FOO"));
    assert!(matches!(
        validate_file(&siblings),
        Err(CodeGenError::ModuleNameConflict { scope, name_a, name_b, module_name })
            if scope == "a" && name_a == "Foo" && name_b == "FOO" && module_name == "foo"
    ));
}

#[test]
fn content_is_put_together_by_kind() {
    let mut f = file("dir/a.proto", "pkg");
    let mut msg = message("Foo");
    msg.nested_module_name = "foo_".to_string();
    f.message_type.push(msg);
    f.extension.push(field("ext", None));
    let config = CodeGenConfig::default();
    let plan = plan_file(&config, "pkg", &f);
    assert_eq!(plan.messages[0].rust_name, "Foo");
    assert_eq!(plan.messages[0].proto_fqn, "pkg.Foo");
    let mut output = code_of(&f);
    output.messages[0].owned_mod = "pub struct Bar;".to_string();
    output.extensions.tokens = "pub const EXT: u8 = 0;".to_string();
    output.extensions.json.push("EXT_JSON".to_string());
    let mut reg = RegistryPaths::new();
    let content = generate_proto_content(&config, &f, Ok(output), &mut reg).unwrap();
    assert_eq!(content.stem, "dir.a");
    assert_eq!(
        content.owned,
        "pub struct Foo;\n#[doc = \"Nested items of `Foo`. The module name carries a trailing `_` to avoid a collision with another module in this scope (a sub-package or sibling message of the same name). See buffa#135.\"] pub mod foo_ { #[allow(unused_imports)] use super::*; pub struct Bar; }\n"
    );
    assert_eq!(content.view, "pub struct FooView;\n");
    assert_eq!(content.ext, "pub const EXT: u8 = 0;\n");
    let offered: Vec<&str> = content.root_reexports.iter().map(|c| c.name.as_str()).collect();
    assert_eq!(offered, ["FooView", "FooOwnedView", "EXT"]);
    assert_eq!(reg.json_ext, ["__buffa::ext::EXT_JSON"]);
}

#[test]
fn names_at_the_root_are_taken_once() {
    let mut f = file("a.proto", "a");
    f.message_type.push(message("Foo"));
    f.message_type.push(message("FooView"));
    let files = vec![&f];
    let mut config = CodeGenConfig::default();
    let candidate = |name: &str| ReexportCandidate {
        name: name.to_string(),
        tokens: format!("pub use self::x::{name};"),
    };
    let out = surviving_root_reexports(
        &config,
        &files,
        &RegistryPaths::new(),
        vec![
            candidate("FooView"),
            candidate("FooOwnedView"),
            candidate("TWICE"),
            candidate("TWICE"),
            candidate("__buffa"),
        ],
    );
    assert_eq!(out, "pub use self::x::FooOwnedView;\n");
    let taken = root_occupied_names(&config, &files);
    assert!(taken.contains("Foo") && taken.contains("foo") && taken.contains("__buffa"));
    assert!(!taken.contains("descriptor_pool") && !taken.contains("Bar"));
    config.generate_reflection = true;
    config.type_name_prefix = "P".to_string();
    let taken = root_occupied_names(&config, &files);
    assert!(taken.contains("descriptor_pool") && taken.contains("FILE_DESCRIPTOR_SET_BYTES"));
    assert!(taken.contains("PFoo") && !taken.contains("Foo"));
    let reserved = import_reserved_names(&config, &files, &vec![candidate("Offered")]);
    assert!(reserved.contains("Offered") && reserved.contains("register_types"));
    assert!(reserved.contains("PFoo") && !reserved.contains("Bar"));
}

#[test]
fn mappings_in_force_come_with_the_well_known_types() {
    let files = vec![file("a.proto", "a"), file("google/protobuf/any.proto", "google.protobuf")];
    let mut config = CodeGenConfig::default();
    let pair = |a: &str, b: &str| (a.to_string(), b.to_string());
    assert_eq!(
        effective_extern_paths(&files, &strings(&["a.proto"]), &config),
        [pair(".google.protobuf", "::buffa_types::google::protobuf")]
    );
    assert!(effective_extern_paths(&files, &strings(&["google/protobuf/any.proto"]), &config).is_empty());
    assert_eq!(
        effective_file_extern_paths(&strings(&["a.proto"]), &config),
        [
            pair("google/protobuf/descriptor.proto", "::buffa_descriptor::generated::descriptor"),
            pair("google/protobuf/compiler/plugin.proto", "::buffa_descriptor::generated::compiler"),
        ]
    );
    config.extern_paths.push(pair(".google.protobuf", "::mine"));
    assert_eq!(
        effective_extern_paths(&files, &strings(&["a.proto"]), &config),
        [pair(".google.protobuf", "::mine")]
    );
    assert!(effective_file_extern_paths(&strings(&["a.proto"]), &config).is_empty());
}

fn no_state() -> CorpusState {
    CorpusState {
        unboxed_oneof_variants: strings(&["a.M.x"]),
        inlined_message_fields: Vec::new(),
        acyclic_message_fields: Vec::new(),
        comment_map: Vec::new(),
    }
}

#[test]
fn a_corpus_context_fits_its_own_corpus_alone() {
    let corpus = Arc::new(vec![file("a.proto", "a")]);
    let mut config = CodeGenConfig::default();
    config.pointer_fields.push((".a".to_string(), PointerRepr::Custom("P<*>".to_string())));
    let shared = SharedCorpusContext::new(corpus.clone(), &config, no_state());
    assert!(shared.check(&corpus, &config).is_ok());
    assert_eq!(shared.state().unboxed_oneof_variants, ["a.M.x"]);
    assert_eq!(
        format!("{shared:?}"),
        "SharedCorpusContext { files: 1, unboxed_oneof_variants: 1, inlined_message_fields: 0, acyclic_message_fields: 0, comments: 0 }"
    );
    assert_eq!(
        format!("{shared:#?}"),
        "SharedCorpusContext {\n    files: 1,\n    unboxed_oneof_variants: 1,\n    inlined_message_fields: 0,\n    acyclic_message_fields: 0,\n    comments: 0,\n}"
    );
    assert_eq!((shared.sizes().files, shared.sizes().comments), (1, 0));
    let what = |files: &Vec<FileDescriptorProto>, config: &CodeGenConfig| {
        match shared.check(files, config) {
            Err(CodeGenError::SharedCorpusContextMismatch { what }) => what,
            other => panic!("{other:?}"),
        }
    };
    let mut other = vec![file("a.proto", "a")];
    other[0].encoded.push(0);
    assert_eq!(what(&other, &config), "files");
    let mut oneofs = config.clone();
    oneofs.unboxed_oneof_fields.push(".a".to_string());
    assert_eq!(what(&corpus, &oneofs), "unboxed_oneof_fields");
    let mut pointers = config.clone();
    pointers.pointer_fields[0].1 = PointerRepr::Box;
    assert_eq!(what(&corpus, &pointers), "pointer_fields");
    // Generation checks the context that it is given.
    pointers.shared_corpus_context = Some(shared.clone());
    assert!(matches!(
        run(&corpus, &["a.proto"], &pointers),
        Err(CodeGenError::SharedCorpusContextMismatch { what: "pointer_fields" })
    ));
}

/// A file descriptor with a name and source info.
fn encoded_file(name: &str) -> Vec<u8> {
    let mut out = Vec::new();
    Tag::new(1, WireType::LengthDelimited).encode(&mut out);
    encode_varint(name.len() as u64, &mut out);
    out.extend_from_slice(name.as_bytes());
    Tag::new(9, WireType::LengthDelimited).encode(&mut out);
    encode_varint(3, &mut out);
    out.extend_from_slice(&[0x0A, 0x01, 0x00]);
    Tag::new(12, WireType::LengthDelimited).encode(&mut out);
    encode_varint(6, &mut out);
    out.extend_from_slice(b"proto3");
    out
}

#[test]
fn a_descriptor_set_holds_files_without_source_info() {
    let mut a = file("a.proto", "a");
    a.encoded = encoded_file("a.proto");
    let mut stripped = vec![0x0A, 7];
    stripped.extend_from_slice(b"a.proto");
    stripped.extend_from_slice(&[0x62, 6]);
    stripped.extend_from_slice(b"proto3");
    assert_eq!(strip_field(&a.encoded, 9).unwrap(), stripped);
    assert_eq!(strip_field(&stripped, 9).unwrap(), stripped);
    let mut set = vec![0x0A, stripped.len() as u8];
    set.extend_from_slice(&stripped);
    assert_eq!(encode_descriptor_set(&vec![a]).unwrap(), set);
    assert_eq!(encode_descriptor_set(&Vec::new()).unwrap(), Vec::<u8>::new());
}

#[test]
fn a_file_that_is_no_message_is_refused() {
    let mut a = file("a.proto", "a");
    a.encoded = vec![0x0A, 7, 1];
    assert_eq!(encode_descriptor_set(&vec![a]), Err(DecodeError::UnexpectedEof));
}

#[test]
fn the_lint_attribute_lists_the_lints() {
    let attr = allow_lints_attr();
    assert!(attr.starts_with("#[allow(non_camel_case_types, dead_code, "), "{attr}");
    assert!(attr.ends_with("clippy::module_inception)]"), "{attr}");
}
