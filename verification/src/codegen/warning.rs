//! What generation warns of.
use vstd::prelude::*;
use vstd::string::*;
use crate::codegen::text;
use crate::codegen::text::{join, push_text};

verus! {

/// Proto values that would all convert onto one identifier.
#[derive(Debug, Clone)]
#[non_exhaustive]
pub struct AliasConflict {
    /// The identifier.
    pub camel_target: String,
    /// The proto values.
    pub proto_values: Vec<String>,
}

/// Something that generation warns of. It goes on all the same.
#[derive(Debug, Clone)]
#[non_exhaustive]
pub enum CodeGenWarning {
    /// An enum's CamelCase aliases were left out.
    IdiomaticAliasesSuppressed {
        /// The enum.
        enum_name: String,
        /// Values that convert onto the same identifier.
        conflicts: Vec<AliasConflict>,
        /// Values that convert to no valid identifier.
        invalid: Vec<String>,
    },
    /// An accessor was left out of an owned view, because its name is taken.
    OwnedViewAccessorSuppressed {
        /// The owned view.
        wrapper_name: String,
        /// The field.
        field_name: String,
    },
    /// Lazy views were asked for without views.
    LazyViewsRequireViews,
    /// Field names that would collide were told apart.
    IdiomaticFieldNamesAdjusted {
        /// The message.
        message_name: String,
        /// Each such name, and what it became.
        assignments: Vec<(String, String)>,
    },
    /// A field refers to a type that is not generated and not mapped to another
    /// crate.
    ExcludedPackageFieldRef {
        /// The file that the field is in.
        file_name: String,
        /// The message that the field is in; empty for a file-level extension.
        message_name: String,
        /// The field.
        field_name: String,
        /// The package of the type.
        ref_package: String,
        /// The type, with a leading dot.
        type_fqn: String,
    },
    /// An exclusion entry matched no package.
    ExcludePackageMatchedNothing {
        /// The entry.
        package: String,
    },
    /// A feature override matched nothing.
    FeatureOverrideMatchedNothing {
        /// The override's path.
        rule: String,
        /// The feature.
        feature: &'static str,
        /// The value.
        value: &'static str,
    },
}

/// A conflict, as text.
pub struct ConflictText {
    /// The identifier.
    pub camel_target: Seq<char>,
    /// The proto values.
    pub proto_values: Seq<Seq<char>>,
}

/// A warning, with its strings as text.
pub enum WarningText {
    /// An enum's CamelCase aliases were left out.
    IdiomaticAliasesSuppressed {
        /// The enum.
        enum_name: Seq<char>,
        /// Values that convert onto the same identifier.
        conflicts: Seq<ConflictText>,
        /// Values that convert to no valid identifier.
        invalid: Seq<Seq<char>>,
    },
    /// An accessor was left out of an owned view.
    OwnedViewAccessorSuppressed {
        /// The owned view.
        wrapper_name: Seq<char>,
        /// The field.
        field_name: Seq<char>,
    },
    /// Lazy views were asked for without views.
    LazyViewsRequireViews,
    /// Field names that would collide were told apart.
    IdiomaticFieldNamesAdjusted {
        /// The message.
        message_name: Seq<char>,
        /// Each such name, and what it became.
        assignments: Seq<(Seq<char>, Seq<char>)>,
    },
    /// A field refers to a type that is not generated and not mapped.
    ExcludedPackageFieldRef {
        /// The file that the field is in.
        file_name: Seq<char>,
        /// The message that the field is in.
        message_name: Seq<char>,
        /// The field.
        field_name: Seq<char>,
        /// The package of the type.
        ref_package: Seq<char>,
        /// The type.
        type_fqn: Seq<char>,
    },
    /// An exclusion entry matched no package.
    ExcludePackageMatchedNothing {
        /// The entry.
        package: Seq<char>,
    },
    /// A feature override matched nothing.
    FeatureOverrideMatchedNothing {
        /// The override's path.
        rule: Seq<char>,
        /// The feature.
        feature: Seq<char>,
        /// The value.
        value: Seq<char>,
    },
}

impl View for AliasConflict {
    type V = ConflictText;

    open spec fn view(&self) -> ConflictText {
        ConflictText {
            camel_target: self.camel_target@,
            proto_values: text::texts(self.proto_values@),
        }
    }
}

impl View for CodeGenWarning {
    type V = WarningText;

    open spec fn view(&self) -> WarningText {
        match self {
            CodeGenWarning::IdiomaticAliasesSuppressed { enum_name, conflicts, invalid } => {
                WarningText::IdiomaticAliasesSuppressed {
                    enum_name: enum_name@,
                    conflicts: conflicts@.map_values(|c: AliasConflict| c@),
                    invalid: text::texts(invalid@),
                }
            },
            CodeGenWarning::OwnedViewAccessorSuppressed { wrapper_name, field_name } => {
                WarningText::OwnedViewAccessorSuppressed {
                    wrapper_name: wrapper_name@,
                    field_name: field_name@,
                }
            },
            CodeGenWarning::LazyViewsRequireViews => WarningText::LazyViewsRequireViews,
            CodeGenWarning::IdiomaticFieldNamesAdjusted { message_name, assignments } => {
                WarningText::IdiomaticFieldNamesAdjusted {
                    message_name: message_name@,
                    assignments: pair_texts(assignments@),
                }
            },
            CodeGenWarning::ExcludedPackageFieldRef {
                file_name,
                message_name,
                field_name,
                ref_package,
                type_fqn,
            } => WarningText::ExcludedPackageFieldRef {
                file_name: file_name@,
                message_name: message_name@,
                field_name: field_name@,
                ref_package: ref_package@,
                type_fqn: type_fqn@,
            },
            CodeGenWarning::ExcludePackageMatchedNothing { package } => {
                WarningText::ExcludePackageMatchedNothing { package: package@ }
            },
            CodeGenWarning::FeatureOverrideMatchedNothing { rule, feature, value } => {
                WarningText::FeatureOverrideMatchedNothing {
                    rule: rule@,
                    feature: feature@,
                    value: value@,
                }
            },
        }
    }
}

/// Pairs of strings, as text.
pub open spec fn pair_texts(pairs: Seq<(String, String)>) -> Seq<(Seq<char>, Seq<char>)> {
    pairs.map_values(|p: (String, String)| (p.0@, p.1@))
}

/// Warnings, as text.
pub open spec fn warning_texts(warnings: Seq<CodeGenWarning>) -> Seq<WarningText> {
    warnings.map_values(|w: CodeGenWarning| w@)
}

/// Why an enum's aliases were left out.
pub open spec fn cause_text(any_conflict: bool, any_invalid: bool) -> Seq<char> {
    if any_conflict && !any_invalid {
        "naming conflict"@
    } else if !any_conflict && any_invalid {
        "invalid identifier"@
    } else {
        "naming conflict / invalid identifier"@
    }
}

/// One conflict in words.
pub open spec fn conflict_text(conflict: ConflictText) -> Seq<char> {
    text::joined(conflict.proto_values, ", "@) + " → "@ + conflict.camel_target
}

/// Everything that stands in the way of an enum's aliases, one part each.
pub open spec fn obstacles(conflicts: Seq<ConflictText>, invalid: Seq<Seq<char>>) -> Seq<
    Seq<char>,
> {
    conflicts.map_values(|c: ConflictText| conflict_text(c)) + invalid.map_values(
        |n: Seq<char>| n + " → invalid identifier"@,
    )
}

/// Where a reference is.
pub open spec fn location_text(
    file_name: Seq<char>,
    message_name: Seq<char>,
    field_name: Seq<char>,
) -> Seq<char> {
    if message_name.len() == 0 {
        file_name + ": "@ + field_name
    } else {
        file_name + ": "@ + message_name + "."@ + field_name
    }
}

/// One adjusted name in words.
pub open spec fn assignment_text(names: (Seq<char>, Seq<char>)) -> Seq<char> {
    "`"@ + names.0 + "` → `"@ + names.1 + "`"@
}

/// A warning in words.
pub open spec fn warning_text(warning: WarningText) -> Seq<char> {
    match warning {
        WarningText::IdiomaticAliasesSuppressed { enum_name, conflicts, invalid } => {
            let parts = obstacles(conflicts, invalid);
            let base = "enum `"@ + enum_name + "`: idiomatic CamelCase aliases suppressed ("@
                + cause_text(conflicts.len() > 0, invalid.len() > 0) + ")"@;
            if parts.len() > 0 {
                base + ": "@ + text::joined(parts, "; "@)
            } else {
                base
            }
        },
        WarningText::OwnedViewAccessorSuppressed { wrapper_name, field_name } => {
            "`"@ + wrapper_name + "`: accessor for field `"@ + field_name
                + "` suppressed (collides with a reserved wrapper method); use `.view()."@
                + field_name + "` instead"@
        },
        WarningText::LazyViewsRequireViews => {
            "lazy_views requires generate_views (the lazy family reuses the eager view-oneof enums and sub-view types); no lazy views were generated — enable generate_views (buffa-build: `.generate_views(true)`, the default; plugin: `views=true`)"@
        },
        WarningText::IdiomaticFieldNamesAdjusted { message_name, assignments } => {
            "message `"@ + message_name
                + "`: idiomatic snake_case field names collide; adjusted: "@ + text::joined(
                assignments.map_values(|a: (Seq<char>, Seq<char>)| assignment_text(a)),
                ", "@,
            ) + " (wire/JSON/text names are unaffected)"@
        },
        WarningText::ExcludedPackageFieldRef {
            file_name,
            message_name,
            field_name,
            ref_package,
            type_fqn,
        } => {
            "field `"@ + location_text(file_name, message_name, field_name) + "` references `"@
                + type_fqn
                + "`, which is not being generated and has no extern_path mapping; the generated code will contain a dangling type path — map the type or its package `"@
                + ref_package
                + "` to the crate that defines it (buffa-build: `.extern_path(\""@ + type_fqn
                + "\", \"::your_crate::Type\")` or `.extern_path(\"."@ + ref_package
                + "\", \"::your_crate\")`; plugin: `extern_path="@ + type_fqn
                + "=::your_crate::Type` or `extern_path=."@ + ref_package
                + "=::your_crate`), or include the defining .proto file in the generate set (buffa-build: `.files(&[…])` or drop `.exclude_package(…)`; plugin: drop `exclude_package=`)"@
        },
        WarningText::ExcludePackageMatchedNothing { package } => {
            "exclude_package entry \""@ + package
                + "\" matched no proto package in the descriptor set — check for a typo or a stale entry (exact match or dotted-prefix: \"buf.validate\" covers buf.validate and buf.validate.priv, not buf.validatex)"@
        },
        WarningText::FeatureOverrideMatchedNothing { rule, feature, value } => {
            "feature override '"@ + rule + "' ("@ + feature + " = "@ + value
                + ") matched nothing in the compiled set; the affected paths keep their default semantics — check the path against the fully-qualified proto names"@
        },
    }
}

/// One part for each thing that stands in the way of an enum's aliases.
fn obstacle_parts(conflicts: &Vec<AliasConflict>, invalid: &Vec<String>) -> (parts: Vec<String>)
    ensures
        text::texts(parts@) == obstacles(
            conflicts@.map_values(|c: AliasConflict| c@),
            text::texts(invalid@),
        ),
{
    let ghost all = obstacles(
        conflicts@.map_values(|c: AliasConflict| c@),
        text::texts(invalid@),
    );
    let mut parts: Vec<String> = Vec::new();
    let mut i: usize = 0;
    while i < conflicts.len()
        invariant
            i <= conflicts@.len(),
            all == obstacles(
                conflicts@.map_values(|c: AliasConflict| c@),
                text::texts(invalid@),
            ),
            text::texts(parts@) == all.take(i as int),
        decreases conflicts@.len() - i,
    {
        let mut part: String = join(&conflicts[i].proto_values, ", ");
        part.append(" → ");
        part.append(conflicts[i].camel_target.as_str());
        assert(part@ == all[i as int]);
        push_text(&mut parts, part);
        assert(text::texts(parts@) =~= all.take(i as int + 1));
        i = i + 1;
    }
    let mut j: usize = 0;
    while j < invalid.len()
        invariant
            j <= invalid@.len(),
            i == conflicts@.len(),
            all == obstacles(
                conflicts@.map_values(|c: AliasConflict| c@),
                text::texts(invalid@),
            ),
            text::texts(parts@) == all.take(i + j),
        decreases invalid@.len() - j,
    {
        let mut part: String = invalid[j].clone();
        part.append(" → invalid identifier");
        assert(part@ == all[i + j]);
        push_text(&mut parts, part);
        assert(text::texts(parts@) =~= all.take(i + j + 1));
        j = j + 1;
    }
    assert(all.take(all.len() as int) =~= all);
    parts
}

/// One part for each adjusted name.
fn assignment_parts(assignments: &Vec<(String, String)>) -> (parts: Vec<String>)
    ensures
        text::texts(parts@) == pair_texts(assignments@).map_values(
            |a: (Seq<char>, Seq<char>)| assignment_text(a),
        ),
{
    let ghost all = pair_texts(assignments@).map_values(
        |a: (Seq<char>, Seq<char>)| assignment_text(a),
    );
    let mut parts: Vec<String> = Vec::new();
    let mut i: usize = 0;
    while i < assignments.len()
        invariant
            i <= assignments@.len(),
            all == pair_texts(assignments@).map_values(
                |a: (Seq<char>, Seq<char>)| assignment_text(a),
            ),
            text::texts(parts@) == all.take(i as int),
        decreases assignments@.len() - i,
    {
        let mut part: String = "`".to_owned();
        part.append(assignments[i].0.as_str());
        part.append("` → `");
        part.append(assignments[i].1.as_str());
        part.append("`");
        assert(part@ == all[i as int]);
        push_text(&mut parts, part);
        assert(text::texts(parts@) =~= all.take(i as int + 1));
        i = i + 1;
    }
    assert(all.take(all.len() as int) =~= all);
    parts
}

impl CodeGenWarning {
    /// The warning in words.
    pub fn message(&self) -> (r: String)
        ensures
            r@ == warning_text(self@),
    {
        match self {
            CodeGenWarning::IdiomaticAliasesSuppressed { enum_name, conflicts, invalid } => {
                let cause: &str = if conflicts.len() > 0 && invalid.len() == 0 {
                    "naming conflict"
                } else if conflicts.len() == 0 && invalid.len() > 0 {
                    "invalid identifier"
                } else {
                    "naming conflict / invalid identifier"
                };
                let mut r: String = "enum `".to_owned();
                r.append(enum_name.as_str());
                r.append("`: idiomatic CamelCase aliases suppressed (");
                r.append(cause);
                r.append(")");
                let parts: Vec<String> = obstacle_parts(conflicts, invalid);
                assert(text::texts(parts@).len() == parts@.len());
                if parts.len() > 0 {
                    r.append(": ");
                    r.append(join(&parts, "; ").as_str());
                }
                r
            },
            CodeGenWarning::OwnedViewAccessorSuppressed { wrapper_name, field_name } => {
                let mut r: String = "`".to_owned();
                r.append(wrapper_name.as_str());
                r.append("`: accessor for field `");
                r.append(field_name.as_str());
                r.append(
                    "` suppressed (collides with a reserved wrapper method); use `.view().",
                );
                r.append(field_name.as_str());
                r.append("` instead");
                r
            },
            CodeGenWarning::LazyViewsRequireViews => {
                "lazy_views requires generate_views (the lazy family reuses the eager view-oneof enums and sub-view types); no lazy views were generated — enable generate_views (buffa-build: `.generate_views(true)`, the default; plugin: `views=true`)".to_owned()
            },
            CodeGenWarning::IdiomaticFieldNamesAdjusted { message_name, assignments } => {
                let parts: Vec<String> = assignment_parts(assignments);
                let mut r: String = "message `".to_owned();
                r.append(message_name.as_str());
                r.append("`: idiomatic snake_case field names collide; adjusted: ");
                r.append(join(&parts, ", ").as_str());
                r.append(" (wire/JSON/text names are unaffected)");
                r
            },
            CodeGenWarning::ExcludedPackageFieldRef {
                file_name,
                message_name,
                field_name,
                ref_package,
                type_fqn,
            } => {
                let mut location: String = file_name.clone();
                location.append(": ");
                if !message_name.as_str().is_empty() {
                    location.append(message_name.as_str());
                    location.append(".");
                }
                location.append(field_name.as_str());
                let mut r: String = "field `".to_owned();
                r.append(location.as_str());
                r.append("` references `");
                r.append(type_fqn.as_str());
                r.append(
                    "`, which is not being generated and has no extern_path mapping; the generated code will contain a dangling type path — map the type or its package `",
                );
                r.append(ref_package.as_str());
                r.append("` to the crate that defines it (buffa-build: `.extern_path(\"");
                r.append(type_fqn.as_str());
                r.append("\", \"::your_crate::Type\")` or `.extern_path(\".");
                r.append(ref_package.as_str());
                r.append("\", \"::your_crate\")`; plugin: `extern_path=");
                r.append(type_fqn.as_str());
                r.append("=::your_crate::Type` or `extern_path=.");
                r.append(ref_package.as_str());
                r.append(
                    "=::your_crate`), or include the defining .proto file in the generate set (buffa-build: `.files(&[…])` or drop `.exclude_package(…)`; plugin: drop `exclude_package=`)",
                );
                r
            },
            CodeGenWarning::ExcludePackageMatchedNothing { package } => {
                let mut r: String = "exclude_package entry \"".to_owned();
                r.append(package.as_str());
                r.append(
                    "\" matched no proto package in the descriptor set — check for a typo or a stale entry (exact match or dotted-prefix: \"buf.validate\" covers buf.validate and buf.validate.priv, not buf.validatex)",
                );
                r
            },
            CodeGenWarning::FeatureOverrideMatchedNothing { rule, feature, value } => {
                let mut r: String = "feature override '".to_owned();
                r.append(rule.as_str());
                r.append("' (");
                r.append(feature);
                r.append(" = ");
                r.append(value);
                r.append(
                    ") matched nothing in the compiled set; the affected paths keep their default semantics — check the path against the fully-qualified proto names",
                );
                r
            },
        }
    }
}

} // verus!
