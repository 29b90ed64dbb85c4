use buffa::codegen::packages::{
    normalize_exclude_package, package_is_excluded, package_to_filename, package_to_mod_filename,
    proto_path_to_stem,
};

fn ex(list: &[&str]) -> Vec<String> {
    list.iter().map(|s| s.to_string()).collect()
}

#[test]
fn exact_match_is_excluded() {
    assert!(package_is_excluded("buf.validate", &ex(&["buf.validate"])));
}

#[test]
fn subpackage_matches_on_component_boundary() {
    assert!(package_is_excluded("gnostic.openapi.v3", &ex(&["gnostic"])));
    assert!(package_is_excluded(
        "buf.validate.priv",
        &ex(&["buf.validate"])
    ));
}

#[test]
fn prefix_without_boundary_does_not_match() {
    assert!(!package_is_excluded(
        "buf.validatex",
        &ex(&["buf.validate"])
    ));
    assert!(!package_is_excluded("gnostics", &ex(&["gnostic"])));
}

#[test]
fn unrelated_package_is_kept() {
    assert!(!package_is_excluded(
        "example.user.v1",
        &ex(&["buf.validate", "gnostic"])
    ));
}

#[test]
fn empty_exclude_list_keeps_everything() {
    assert!(!package_is_excluded("buf.validate", &ex(&[])));
}

#[test]
fn empty_entry_matches_only_the_unnamed_package() {
    assert!(package_is_excluded("", &ex(&[""])));
    assert!(!package_is_excluded("foo", &ex(&[""])));
}

#[test]
fn normalize_strips_dot_and_rejects_malformed() {
    assert_eq!(
        normalize_exclude_package(".buf.validate").as_deref(),
        Ok("buf.validate")
    );
    assert_eq!(
        normalize_exclude_package("gnostic").as_deref(),
        Ok("gnostic")
    );
    assert!(normalize_exclude_package("").is_err());
    assert!(normalize_exclude_package(".").is_err());
    assert!(normalize_exclude_package("  ").is_err());
    assert!(normalize_exclude_package("buf.validate.").is_err());
    assert!(normalize_exclude_package("buf..validate").is_err());
}

#[test]
fn normalize_says_what_is_wrong_with_an_entry() {
    assert_eq!(
        normalize_exclude_package("a..b").unwrap_err(),
        "'exclude_package' requires a non-empty proto package with no empty components, e.g. exclude_package=.buf.validate"
    );
}

#[test]
fn normalizing_twice_changes_nothing_but_white_space_behind_a_dot() {
    let once = normalize_exclude_package("  .buf.validate ").unwrap();
    assert_eq!(once, "buf.validate");
    assert_eq!(normalize_exclude_package(&once).unwrap(), once);
    // White space that a leading dot hides comes off the second time.
    let once = normalize_exclude_package(". foo").unwrap();
    assert_eq!(once, " foo");
    assert_eq!(normalize_exclude_package(&once).unwrap(), "foo");
}

#[test]
fn exclusion_goes_down_the_tree() {
    assert!(package_is_excluded("a.b.c", &ex(&["a"])));
    assert!(package_is_excluded("a.b.c", &ex(&["a.b"])));
    assert!(!package_is_excluded("a", &ex(&["a.b"])));
}

#[test]
fn packages_have_files_of_their_own() {
    assert_eq!(package_to_mod_filename("google.protobuf"), "google.protobuf.mod.rs");
    assert_eq!(package_to_mod_filename(""), "__buffa.mod.rs");
    assert_eq!(package_to_filename("google.protobuf"), "google.protobuf.rs");
    assert_eq!(package_to_filename(""), "__buffa.rs");
}

#[test]
fn proto_paths_become_stems() {
    assert_eq!(proto_path_to_stem("google/protobuf/any.proto"), "google.protobuf.any");
    assert_eq!(proto_path_to_stem("plain"), "plain");
}
