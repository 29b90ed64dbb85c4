//! What errors and warnings say.
use vstd::prelude::*;
use vstd::string::*;
use crate::codegen::element_laws::{lemma_holds, lemma_holds_in};
use crate::codegen::errors;
use crate::codegen::errors::ErrorText;
use crate::codegen::text;
use crate::codegen::warning;
use crate::codegen::warning::{ConflictText, WarningText};

verus! {

/// Text says a name, in quotes and behind some words.
pub open spec fn says(message: Seq<char>, words: Seq<char>, name: Seq<char>, close: Seq<char>) -> bool {
    text::holds(message, words + name + close)
}

proof fn lemma_says(
    message: Seq<char>,
    front: Seq<char>,
    words: Seq<char>,
    name: Seq<char>,
    close: Seq<char>,
    back: Seq<char>,
)
    requires
        message == front + (words + name + close) + back,
    ensures
        says(message, words, name, close),
{
    lemma_holds(front, words + name + close, back);
}

/// A warning names what it is about, each thing in its place.
pub proof fn law_a_warning_names_what_it_is_about(w: WarningText)
    ensures
        match w {
            WarningText::IdiomaticAliasesSuppressed { enum_name, conflicts, invalid } => {
                &&& says(warning::warning_text(w), "enum `"@, enum_name, "`"@)
                &&& forall|i: int|
                    0 <= i < conflicts.len() ==> text::holds(
                        warning::warning_text(w),
                        text::joined((#[trigger] conflicts[i]).proto_values, ", "@) + " → "@
                            + conflicts[i].camel_target,
                    )
                &&& forall|i: int|
                    0 <= i < invalid.len() ==> text::holds(
                        warning::warning_text(w),
                        (#[trigger] invalid[i]) + " → invalid identifier"@,
                    )
            },
            WarningText::OwnedViewAccessorSuppressed { wrapper_name, field_name } => {
                &&& says(warning::warning_text(w), "`"@, wrapper_name, "`: accessor"@)
                &&& says(warning::warning_text(w), "for field `"@, field_name, "`"@)
            },
            WarningText::LazyViewsRequireViews => text::holds(
                warning::warning_text(w),
                "lazy_views requires generate_views"@,
            ),
            WarningText::IdiomaticFieldNamesAdjusted { message_name, assignments } => {
                &&& says(warning::warning_text(w), "message `"@, message_name, "`"@)
                &&& forall|i: int|
                    0 <= i < assignments.len() ==> text::holds(
                        warning::warning_text(w),
                        "`"@ + (#[trigger] assignments[i]).0 + "` → `"@ + assignments[i].1 + "`"@,
                    )
            },
            WarningText::ExcludedPackageFieldRef {
                file_name,
                message_name,
                field_name,
                ref_package,
                type_fqn,
            } => {
                &&& says(
                    warning::warning_text(w),
                    "field `"@,
                    file_name + ": "@ + (if message_name.len() == 0 {
                        Seq::empty()
                    } else {
                        message_name + "."@
                    }) + field_name,
                    "`"@,
                )
                &&& says(warning::warning_text(w), "references `"@, type_fqn, "`"@)
                &&& says(warning::warning_text(w), "its package `"@, ref_package, "`"@)
            },
            WarningText::ExcludePackageMatchedNothing { package } => says(
                warning::warning_text(w),
                "exclude_package entry \""@,
                package,
                "\" matched no proto package"@,
            ),
            WarningText::FeatureOverrideMatchedNothing { rule, feature, value } => {
                &&& says(warning::warning_text(w), "feature override '"@, rule, "'"@)
                &&& says(warning::warning_text(w), "("@, feature, " = "@)
                &&& says(warning::warning_text(w), " = "@, value, ")"@)
            },
        },
{
    let t = warning::warning_text(w);
    let none = Seq::<char>::empty();
    match w {
        WarningText::IdiomaticAliasesSuppressed { enum_name, conflicts, invalid } => {
            lemma_aliases(enum_name, conflicts, invalid);
        },
        WarningText::OwnedViewAccessorSuppressed { wrapper_name, field_name } => {
            reveal_strlit("`: accessor for field `");
            reveal_strlit("`: accessor");
            reveal_strlit("for field `");
            reveal_strlit("`");
            reveal_strlit("` suppressed (collides with a reserved wrapper method); use `.view().");
            let tail = "` suppressed (collides with a reserved wrapper method); use `.view()."@;
            let end = field_name + "` instead"@;
            assert(t =~= none + ("`"@ + wrapper_name + "`: accessor"@) + (
            "`: accessor for field `"@.skip("`: accessor"@.len() as int) + field_name + tail
                + end)) by {
                assert("`: accessor for field `"@ =~= "`: accessor"@
                    + "`: accessor for field `"@.skip("`: accessor"@.len() as int));
            }
            lemma_says(
                t,
                none,
                "`"@,
                wrapper_name,
                "`: accessor"@,
                "`: accessor for field `"@.skip("`: accessor"@.len() as int) + field_name + tail
                    + end,
            );
            let n = "`: accessor for field `"@.len() - "for field `"@.len();
            let front = "`"@ + wrapper_name + "`: accessor for field `"@.take(n);
            assert("`: accessor for field `"@ =~= "`: accessor for field `"@.take(n)
                + "for field `"@);
            assert(tail =~= "`"@ + tail.skip(1));
            assert(t =~= front + ("for field `"@ + field_name + "`"@) + (tail.skip(1) + end));
            lemma_says(t, front, "for field `"@, field_name, "`"@, tail.skip(1) + end);
        },
        WarningText::LazyViewsRequireViews => {
            reveal_strlit("lazy_views requires generate_views");
            reveal_strlit(
                "lazy_views requires generate_views (the lazy family reuses the eager view-oneof enums and sub-view types); no lazy views were generated — enable generate_views (buffa-build: `.generate_views(true)`, the default; plugin: `views=true`)",
            );
            let piece = "lazy_views requires generate_views"@;
            assert(t.subrange(0, piece.len() as int) =~= piece);
            assert(text::occurs_at(t, piece, 0));
        },
        WarningText::IdiomaticFieldNamesAdjusted { message_name, assignments } => {
            lemma_assignments(message_name, assignments);
        },
        WarningText::ExcludedPackageFieldRef {
            file_name,
            message_name,
            field_name,
            ref_package,
            type_fqn,
        } => {
            lemma_reference(file_name, message_name, field_name, ref_package, type_fqn);
        },
        WarningText::ExcludePackageMatchedNothing { package } => {
            reveal_strlit("\" matched no proto package");
            reveal_strlit(
                "\" matched no proto package in the descriptor set — check for a typo or a stale entry (exact match or dotted-prefix: \"buf.validate\" covers buf.validate and buf.validate.priv, not buf.validatex)",
            );
            let close = "\" matched no proto package"@;
            let tail = "\" matched no proto package in the descriptor set — check for a typo or a stale entry (exact match or dotted-prefix: \"buf.validate\" covers buf.validate and buf.validate.priv, not buf.validatex)"@;
            let back = tail.skip(close.len() as int);
            assert(tail =~= close + back);
            assert(t =~= none + ("exclude_package entry \""@ + package + close) + back);
            lemma_says(t, none, "exclude_package entry \""@, package, close, back);
        },
        WarningText::FeatureOverrideMatchedNothing { rule, feature, value } => {
            reveal_strlit("' (");
            reveal_strlit("'");
            reveal_strlit("(");
            reveal_strlit(")");
            reveal_strlit(
                ") matched nothing in the compiled set; the affected paths keep their default semantics — check the path against the fully-qualified proto names",
            );
            let tail = ") matched nothing in the compiled set; the affected paths keep their default semantics — check the path against the fully-qualified proto names"@;
            let back = tail.skip(1);
            assert(tail =~= ")"@ + back);
            let rest = " ("@ + feature + " = "@ + value + tail;
            reveal_strlit(" (");
            reveal_strlit("' ");
            assert("' ("@ =~= "'"@ + " ("@);
            assert(t =~= none + ("feature override '"@ + rule + "'"@) + rest);
            lemma_says(t, none, "feature override '"@, rule, "'"@, rest);
            assert("' ("@ =~= "' "@ + "("@);
            let front = "feature override '"@ + rule + "' "@;
            assert(t =~= front + ("("@ + feature + " = "@) + (value + tail));
            lemma_says(t, front, "("@, feature, " = "@, value + tail);
            let head = "feature override '"@ + rule + "' ("@ + feature;
            assert(t =~= head + (" = "@ + value + ")"@) + back);
            lemma_says(t, head, " = "@, value, ")"@, back);
        },
    }
}

/// Joined text holds each of its parts.
proof fn lemma_joined_holds(parts: Seq<Seq<char>>, sep: Seq<char>, i: int)
    requires
        0 <= i < parts.len(),
    ensures
        text::holds(text::joined(parts, sep), parts[i]),
    decreases parts.len(),
{
    let none = Seq::<char>::empty();
    let all = text::joined(parts, sep);
    if parts.len() == 1 {
        lemma_holds(none, parts[0], none);
        assert(none + parts[0] + none =~= all);
    } else if i == parts.len() - 1 {
        let front = text::joined(parts.drop_last(), sep) + sep;
        lemma_holds(front, parts.last(), none);
        assert(front + parts.last() + none =~= all);
    } else {
        let init = parts.drop_last();
        lemma_joined_holds(init, sep, i);
        assert(init[i] == parts[i]);
        lemma_holds_in(none, text::joined(init, sep), sep + parts.last(), parts[i]);
        assert(none + text::joined(init, sep) + (sep + parts.last()) =~= all);
    }
}

proof fn lemma_aliases(
    enum_name: Seq<char>,
    conflicts: Seq<ConflictText>,
    invalid: Seq<Seq<char>>,
)
    ensures
        ({
            let t = warning::warning_text(
                WarningText::IdiomaticAliasesSuppressed { enum_name, conflicts, invalid },
            );
            &&& says(t, "enum `"@, enum_name, "`"@)
            &&& forall|i: int|
                0 <= i < conflicts.len() ==> text::holds(
                    t,
                    text::joined((#[trigger] conflicts[i]).proto_values, ", "@) + " → "@
                        + conflicts[i].camel_target,
                )
            &&& forall|i: int|
                0 <= i < invalid.len() ==> text::holds(
                    t,
                    (#[trigger] invalid[i]) + " → invalid identifier"@,
                )
        }),
{
    let t = warning::warning_text(
        WarningText::IdiomaticAliasesSuppressed { enum_name, conflicts, invalid },
    );
    let none = Seq::<char>::empty();
    let parts = warning::obstacles(conflicts, invalid);
    let middle = "`: idiomatic CamelCase aliases suppressed ("@;
    let base = "enum `"@ + enum_name + middle + warning::cause_text(
        conflicts.len() > 0,
        invalid.len() > 0,
    ) + ")"@;
    let end = if parts.len() > 0 {
        ": "@ + text::joined(parts, "; "@)
    } else {
        none
    };
    assert(t =~= base + end);
    reveal_strlit("`");
    reveal_strlit("`: idiomatic CamelCase aliases suppressed (");
    assert(middle =~= "`"@ + middle.skip(1));
    let back = middle.skip(1) + warning::cause_text(conflicts.len() > 0, invalid.len() > 0)
        + ")"@ + end;
    assert(t =~= none + ("enum `"@ + enum_name + "`"@) + back);
    lemma_says(t, none, "enum `"@, enum_name, "`"@, back);
    assert forall|i: int| 0 <= i < parts.len() implies text::holds(t, #[trigger] parts[i]) by {
        lemma_joined_holds(parts, "; "@, i);
        lemma_holds_in(base + ": "@, text::joined(parts, "; "@), none, parts[i]);
        assert(base + ": "@ + text::joined(parts, "; "@) + none =~= t);
    }
    assert forall|i: int| 0 <= i < conflicts.len() implies text::holds(
        t,
        text::joined((#[trigger] conflicts[i]).proto_values, ", "@) + " → "@
            + conflicts[i].camel_target,
    ) by {
        assert(parts[i] == warning::conflict_text(conflicts[i]));
    }
    assert forall|i: int| 0 <= i < invalid.len() implies text::holds(
        t,
        (#[trigger] invalid[i]) + " → invalid identifier"@,
    ) by {
        assert(parts[conflicts.len() + i] == invalid[i] + " → invalid identifier"@);
    }
}

proof fn lemma_assignments(message_name: Seq<char>, assignments: Seq<(Seq<char>, Seq<char>)>)
    ensures
        ({
            let t = warning::warning_text(
                WarningText::IdiomaticFieldNamesAdjusted { message_name, assignments },
            );
            &&& says(t, "message `"@, message_name, "`"@)
            &&& forall|i: int|
                0 <= i < assignments.len() ==> text::holds(
                    t,
                    "`"@ + (#[trigger] assignments[i]).0 + "` → `"@ + assignments[i].1 + "`"@,
                )
        }),
{
    let t = warning::warning_text(
        WarningText::IdiomaticFieldNamesAdjusted { message_name, assignments },
    );
    let none = Seq::<char>::empty();
    let middle = "`: idiomatic snake_case field names collide; adjusted: "@;
    let parts = assignments.map_values(
        |a: (Seq<char>, Seq<char>)| warning::assignment_text(a),
    );
    let list = text::joined(parts, ", "@);
    let end = " (wire/JSON/text names are unaffected)"@;
    reveal_strlit("`");
    reveal_strlit("`: idiomatic snake_case field names collide; adjusted: ");
    assert(middle =~= "`"@ + middle.skip(1));
    let back = middle.skip(1) + list + end;
    assert(t =~= none + ("message `"@ + message_name + "`"@) + back);
    lemma_says(t, none, "message `"@, message_name, "`"@, back);
    assert forall|i: int| 0 <= i < assignments.len() implies text::holds(
        t,
        "`"@ + (#[trigger] assignments[i]).0 + "` → `"@ + assignments[i].1 + "`"@,
    ) by {
        lemma_joined_holds(parts, ", "@, i);
        assert(parts[i] == warning::assignment_text(assignments[i]));
        lemma_holds_in("message `"@ + message_name + middle, list, end, parts[i]);
    }
}

#[verifier::rlimit(60)]
#[verifier::spinoff_prover]
proof fn lemma_reference(
    file_name: Seq<char>,
    message_name: Seq<char>,
    field_name: Seq<char>,
    ref_package: Seq<char>,
    type_fqn: Seq<char>,
)
    ensures
        ({
            let t = warning::warning_text(
                WarningText::ExcludedPackageFieldRef {
                    file_name,
                    message_name,
                    field_name,
                    ref_package,
                    type_fqn,
                },
            );
            &&& says(
                t,
                "field `"@,
                file_name + ": "@ + (if message_name.len() == 0 {
                    Seq::empty()
                } else {
                    message_name + "."@
                }) + field_name,
                "`"@,
            )
            &&& says(t, "references `"@, type_fqn, "`"@)
            &&& says(t, "its package `"@, ref_package, "`"@)
        }),
{
    let t = warning::warning_text(
        WarningText::ExcludedPackageFieldRef {
            file_name,
            message_name,
            field_name,
            ref_package,
            type_fqn,
        },
    );
    let none = Seq::<char>::empty();
    let place = file_name + ": "@ + (if message_name.len() == 0 {
        Seq::empty()
    } else {
        message_name + "."@
    }) + field_name;
    assert(place =~= warning::location_text(file_name, message_name, field_name));
    let a = "` references `"@;
    let b = "`, which is not being generated and has no extern_path mapping; the generated code will contain a dangling type path — map the type or its package `"@;
    let c = "` to the crate that defines it (buffa-build: `.extern_path(\""@;
    let rest = type_fqn + "\", \"::your_crate::Type\")` or `.extern_path(\"."@ + ref_package
        + "\", \"::your_crate\")`; plugin: `extern_path="@ + type_fqn
        + "=::your_crate::Type` or `extern_path=."@ + ref_package
        + "=::your_crate`), or include the defining .proto file in the generate set (buffa-build: `.files(&[…])` or drop `.exclude_package(…)`; plugin: drop `exclude_package=`)"@;
    assert(t =~= "field `"@ + place + a + type_fqn + b + ref_package + c + rest);
    reveal_strlit("`");
    reveal_strlit("` references `");
    reveal_strlit("references `");
    reveal_strlit("` ");
    reveal_strlit("its package `");
    reveal_strlit("`, which is not being generated and has no extern_path mapping; the generated code will contain a dangling type path — map the type or its package `");
    reveal_strlit("` to the crate that defines it (buffa-build: `.extern_path(\"");
    assert(a =~= "`"@ + a.skip(1));
    assert(a =~= "` "@ + "references `"@);
    let n = b.len() - "its package `"@.len();
    assert(b =~= b.take(n) + "its package `"@);
    assert(b =~= "`"@ + b.skip(1));
    assert(c =~= "`"@ + c.skip(1));
    let back = a.skip(1) + type_fqn + b + ref_package + c + rest;
    assert(t =~= none + ("field `"@ + place + "`"@) + back);
    lemma_says(t, none, "field `"@, place, "`"@, back);
    let front = "field `"@ + place + "` "@;
    let back = b.skip(1) + ref_package + c + rest;
    assert(t =~= front + ("references `"@ + type_fqn + "`"@) + back);
    lemma_says(t, front, "references `"@, type_fqn, "`"@, back);
    let front = "field `"@ + place + a + type_fqn + b.take(n);
    let back = c.skip(1) + rest;
    assert(t =~= front + ("its package `"@ + ref_package + "`"@) + back);
    lemma_says(t, front, "its package `"@, ref_package, "`"@, back);
}

/// An error's words name what it is about, each thing in its place.
pub open spec fn names_it(e: ErrorText) -> bool {
    let t = errors::error_text(e);
    match e {
                ErrorText::MissingField(s) => text::holds(t, "descriptor field: "@ + s),
                ErrorText::InvalidTypePath(s) => says(t, "type path: '"@, s, "'"@),
                ErrorText::MissingWildcard(s) => says(t, "message type: '"@, s, "'"@),
                ErrorText::MissingListPlaceholder(s) => says(
                    t,
                    "element placeholder: '"@,
                    s,
                    "'"@,
                ),
                ErrorText::InvalidSyntax(s) => text::holds(t, "parse as Rust: "@ + s),
                ErrorText::FileNotFound(s) => says(t, "file_to_generate '"@, s, "' not found"@),
                ErrorText::Other(s) => text::holds(t, "codegen error: "@ + s),
                ErrorText::ReservedFieldName { message_name, field_name } => {
                    &&& says(t, "reserved field name '"@, field_name, "'"@)
                    &&& says(t, "in message '"@, message_name, "'"@)
                },
                ErrorText::ModuleNameConflict { scope, name_a, name_b, module_name } => {
                    &&& says(t, "conflict in '"@, scope, "'"@)
                    &&& says(t, "messages '"@, name_a, "'"@)
                    &&& says(t, " and '"@, name_b, "'"@)
                    &&& says(t, "produce module '"@, module_name, "'"@)
                },
                ErrorText::ReservedModuleName { name, location } => {
                    &&& says(t, "reserved name '"@, name, "'"@)
                    &&& says(t, " at "@, location, ":"@)
                },
                ErrorText::SharedCorpusContextMismatch { what } => says(
                    t,
                    "built from different "@,
                    what,
                    " than this generate() call"@,
                ),
                ErrorText::MessageSetNotSupported { message_name } => says(
                    t,
                    "message '"@,
                    message_name,
                    "' uses"@,
                ),
                ErrorText::InvalidCustomAttribute { path, attribute, detail } => {
                    &&& says(t, "for path '"@, path, "'"@)
                    &&& says(t, ": '"@, attribute, "' is not"@)
                    &&& says(t, "attribute ("@, detail, ")"@)
                },
                ErrorText::InvalidTypeNamePrefix { prefix } => says(
                    t,
                    "type_name_prefix '"@,
                    prefix,
                    "'"@,
                ),
    }
}

/// An error names what it is about.
pub proof fn law_an_error_names_what_it_is_about(e: ErrorText)
    ensures
        names_it(e),
{
    match e {
        ErrorText::MissingField(_) => lemma_missing_field(e),
        ErrorText::InvalidTypePath(_) => lemma_invalid_type_path(e),
        ErrorText::MissingWildcard(_) => lemma_missing_wildcard(e),
        ErrorText::MissingListPlaceholder(_) => lemma_missing_list_placeholder(e),
        ErrorText::InvalidSyntax(_) => lemma_invalid_syntax(e),
        ErrorText::FileNotFound(_) => lemma_file_not_found(e),
        ErrorText::Other(_) => lemma_other(e),
        ErrorText::ReservedFieldName { .. } => lemma_reserved_field_name(e),
        ErrorText::ModuleNameConflict { .. } => lemma_module_name_conflict(e),
        ErrorText::ReservedModuleName { .. } => lemma_reserved_module_name(e),
        ErrorText::SharedCorpusContextMismatch { .. } => lemma_shared_corpus_context_mismatch(e),
        ErrorText::MessageSetNotSupported { .. } => lemma_message_set_not_supported(e),
        ErrorText::InvalidCustomAttribute { .. } => lemma_invalid_custom_attribute(e),
        ErrorText::InvalidTypeNamePrefix { .. } => lemma_invalid_type_name_prefix(e),
    }
}

#[verifier::spinoff_prover]
proof fn lemma_missing_field(e: ErrorText)
    requires
        e is MissingField,
    ensures
        names_it(e),
{
    let t = errors::error_text(e);
    let none = Seq::<char>::empty();
    reveal_strlit("'");
    if let ErrorText::MissingField(s) = e {
            reveal_strlit("missing required descriptor field: ");
            reveal_strlit("descriptor field: ");
            let w = "missing required descriptor field: "@;
            let v = "descriptor field: "@;
            assert(w.skip(w.len() - v.len()) =~= v);
            lemma_tail_holds(t, w, v, s);
    }
}

#[verifier::spinoff_prover]
proof fn lemma_invalid_type_path(e: ErrorText)
    requires
        e is InvalidTypePath,
    ensures
        names_it(e),
{
    let t = errors::error_text(e);
    let none = Seq::<char>::empty();
    reveal_strlit("'");
    if let ErrorText::InvalidTypePath(s) = e {
            reveal_strlit("invalid Rust type path: '");
            reveal_strlit("type path: '");
            assert(t =~= none + "invalid Rust type path: '"@ + s + "'"@ + none);
            lemma_tail_says(t, none, "invalid Rust type path: '"@, "type path: '"@, s, "'"@, none);
    }
}

#[verifier::spinoff_prover]
proof fn lemma_missing_wildcard(e: ErrorText)
    requires
        e is MissingWildcard,
    ensures
        names_it(e),
{
    let t = errors::error_text(e);
    let none = Seq::<char>::empty();
    reveal_strlit("'");
    if let ErrorText::MissingWildcard(s) = e {
            reveal_strlit("box_type template must contain a `*` placeholder for the message type: '");
            reveal_strlit("message type: '");
            assert(t =~= none
                + "box_type template must contain a `*` placeholder for the message type: '"@ + s
                + "'"@ + none);
            lemma_tail_says(
                t,
                none,
                "box_type template must contain a `*` placeholder for the message type: '"@,
                "message type: '"@,
                s,
                "'"@,
                none,
            );
    }
}

#[verifier::spinoff_prover]
proof fn lemma_missing_list_placeholder(e: ErrorText)
    requires
        e is MissingListPlaceholder,
    ensures
        names_it(e),
{
    let t = errors::error_text(e);
    let none = Seq::<char>::empty();
    reveal_strlit("'");
    if let ErrorText::MissingListPlaceholder(s) = e {
            reveal_strlit("repeated_type template must contain a `*` element placeholder: '");
            reveal_strlit("element placeholder: '");
            assert(t =~= none
                + "repeated_type template must contain a `*` element placeholder: '"@ + s + "'"@
                + none);
            lemma_tail_says(
                t,
                none,
                "repeated_type template must contain a `*` element placeholder: '"@,
                "element placeholder: '"@,
                s,
                "'"@,
                none,
            );
    }
}

#[verifier::spinoff_prover]
proof fn lemma_invalid_syntax(e: ErrorText)
    requires
        e is InvalidSyntax,
    ensures
        names_it(e),
{
    let t = errors::error_text(e);
    let none = Seq::<char>::empty();
    reveal_strlit("'");
    if let ErrorText::InvalidSyntax(s) = e {
            reveal_strlit("generated code failed to parse as Rust: ");
            reveal_strlit("parse as Rust: ");
            let w = "generated code failed to parse as Rust: "@;
            let v = "parse as Rust: "@;
            assert(w.skip(w.len() - v.len()) =~= v);
            lemma_tail_holds(t, w, v, s);
    }
}

#[verifier::spinoff_prover]
proof fn lemma_file_not_found(e: ErrorText)
    requires
        e is FileNotFound,
    ensures
        names_it(e),
{
    let t = errors::error_text(e);
    let none = Seq::<char>::empty();
    reveal_strlit("'");
    if let ErrorText::FileNotFound(s) = e {
            reveal_strlit("' not found");
            reveal_strlit("' not found in descriptor set");
            let back = "' not found in descriptor set"@.skip("' not found"@.len() as int);
            assert("' not found in descriptor set"@ =~= "' not found"@ + back);
            assert(t =~= none + ("file_to_generate '"@ + s + "' not found"@) + back);
            lemma_says(t, none, "file_to_generate '"@, s, "' not found"@, back);
    }
}

#[verifier::spinoff_prover]
proof fn lemma_other(e: ErrorText)
    requires
        e is Other,
    ensures
        names_it(e),
{
    let t = errors::error_text(e);
    let none = Seq::<char>::empty();
    reveal_strlit("'");
    if let ErrorText::Other(s) = e {
            lemma_holds(none, "codegen error: "@ + s, none);
            assert(none + ("codegen error: "@ + s) + none =~= t);
    }
}

#[verifier::spinoff_prover]
proof fn lemma_reserved_field_name(e: ErrorText)
    requires
        e is ReservedFieldName,
    ensures
        names_it(e),
{
    let t = errors::error_text(e);
    let none = Seq::<char>::empty();
    reveal_strlit("'");
    if let ErrorText::ReservedFieldName { message_name, field_name } = e {
            reveal_strlit("' in message '");
            reveal_strlit("in message '");
            reveal_strlit("' ");
            reveal_strlit("': proto field names starting with '__buffa_' conflict with buffa's internal fields");
            let w = "' in message '"@;
            let x = "': proto field names starting with '__buffa_' conflict with buffa's internal fields"@;
            assert(w =~= "'"@ + w.skip(1));
            assert(x =~= "'"@ + x.skip(1));
            let back = w.skip(1) + message_name + x;
            assert(t =~= none + ("reserved field name '"@ + field_name + "'"@) + back);
            lemma_says(t, none, "reserved field name '"@, field_name, "'"@, back);
            let front = "reserved field name '"@ + field_name;
            assert(t =~= front + w + message_name + "'"@ + x.skip(1));
            lemma_tail_says(t, front, w, "in message '"@, message_name, "'"@, x.skip(1));
    }
}

#[verifier::spinoff_prover]
proof fn lemma_module_name_conflict(e: ErrorText)
    requires
        e is ModuleNameConflict,
    ensures
        names_it(e),
{
    let t = errors::error_text(e);
    let none = Seq::<char>::empty();
    reveal_strlit("'");
    if let ErrorText::ModuleNameConflict { scope, name_a, name_b, module_name } = e {
            reveal_strlit("module name conflict in '");
            reveal_strlit("conflict in '");
            reveal_strlit("': messages '");
            reveal_strlit("messages '");
            reveal_strlit("' and '");
            reveal_strlit(" and '");
            reveal_strlit("' both produce module '");
            reveal_strlit("produce module '");
            let a = "module name conflict in '"@;
            let b = "': messages '"@;
            let c = "' and '"@;
            let d = "' both produce module '"@;
            assert(b =~= "'"@ + b.skip(1));
            assert(c =~= "'"@ + c.skip(1));
            assert(d =~= "'"@ + d.skip(1));
            let back = b.skip(1) + name_a + c + name_b + d + module_name + "'"@;
            assert(t =~= none + a + scope + "'"@ + back);
            lemma_tail_says(t, none, a, "conflict in '"@, scope, "'"@, back);
            let front = a + scope;
            let back = c.skip(1) + name_b + d + module_name + "'"@;
            assert(t =~= front + b + name_a + "'"@ + back);
            lemma_tail_says(t, front, b, "messages '"@, name_a, "'"@, back);
            let front = a + scope + b + name_a;
            let back = d.skip(1) + module_name + "'"@;
            assert(t =~= front + c + name_b + "'"@ + back);
            lemma_tail_says(t, front, c, " and '"@, name_b, "'"@, back);
            let front = a + scope + b + name_a + c + name_b;
            assert(t =~= front + d + module_name + "'"@ + none);
            lemma_tail_says(t, front, d, "produce module '"@, module_name, "'"@, none);
    }
}

#[verifier::spinoff_prover]
proof fn lemma_reserved_module_name(e: ErrorText)
    requires
        e is ReservedModuleName,
    ensures
        names_it(e),
{
    let t = errors::error_text(e);
    let none = Seq::<char>::empty();
    reveal_strlit("'");
    if let ErrorText::ReservedModuleName { name, location } = e {
            reveal_strlit("' at ");
            reveal_strlit(" at ");
            reveal_strlit(":");
            reveal_strlit(": this name is reserved for buffa's generated ancillary types (views, oneof enums, extensions). Rename the proto element.");
            let a = "' at "@;
            let b = ": this name is reserved for buffa's generated ancillary types (views, oneof enums, extensions). Rename the proto element."@;
            assert(a =~= "'"@ + a.skip(1));
            assert(b =~= ":"@ + b.skip(1));
            let back = a.skip(1) + location + b;
            assert(t =~= none + ("reserved name '"@ + name + "'"@) + back);
            lemma_says(t, none, "reserved name '"@, name, "'"@, back);
            let front = "reserved name '"@ + name;
            assert(t =~= front + a + location + ":"@ + b.skip(1));
            lemma_tail_says(t, front, a, " at "@, location, ":"@, b.skip(1));
    }
}

#[verifier::spinoff_prover]
proof fn lemma_shared_corpus_context_mismatch(e: ErrorText)
    requires
        e is SharedCorpusContextMismatch,
    ensures
        names_it(e),
{
    let t = errors::error_text(e);
    let none = Seq::<char>::empty();
    reveal_strlit("'");
    if let ErrorText::SharedCorpusContextMismatch { what } = e {
            reveal_strlit("shared_corpus_context was built from different ");
            reveal_strlit("built from different ");
            reveal_strlit(" than this generate() call");
            reveal_strlit(" than this generate() call; build it from the same files and oneof/pointer-repr config as every call that uses it");
            let a = "shared_corpus_context was built from different "@;
            let close = " than this generate() call"@;
            let b = " than this generate() call; build it from the same files and oneof/pointer-repr config as every call that uses it"@;
            let back = b.skip(close.len() as int);
            assert(b =~= close + back);
            assert(t =~= none + a + what + close + back);
            lemma_tail_says(t, none, a, "built from different "@, what, close, back);
    }
}

#[verifier::spinoff_prover]
proof fn lemma_message_set_not_supported(e: ErrorText)
    requires
        e is MessageSetNotSupported,
    ensures
        names_it(e),
{
    let t = errors::error_text(e);
    let none = Seq::<char>::empty();
    reveal_strlit("'");
    if let ErrorText::MessageSetNotSupported { message_name } = e {
            reveal_strlit("' uses");
            reveal_strlit("' uses `option message_set_wire_format = true` but CodeGenConfig::allow_message_set is false; MessageSet is a legacy wire format — set allow_message_set(true) if this is intentional");
            let b = "' uses `option message_set_wire_format = true` but CodeGenConfig::allow_message_set is false; MessageSet is a legacy wire format — set allow_message_set(true) if this is intentional"@;
            let back = b.skip("' uses"@.len() as int);
            assert(b =~= "' uses"@ + back);
            assert(t =~= none + ("message '"@ + message_name + "' uses"@) + back);
            lemma_says(t, none, "message '"@, message_name, "' uses"@, back);
    }
}

#[verifier::spinoff_prover]
proof fn lemma_invalid_custom_attribute(e: ErrorText)
    requires
        e is InvalidCustomAttribute,
    ensures
        names_it(e),
{
    let t = errors::error_text(e);
    let none = Seq::<char>::empty();
    reveal_strlit("'");
    if let ErrorText::InvalidCustomAttribute { path, attribute, detail } = e {
            reveal_strlit("invalid custom attribute for path '");
            reveal_strlit("for path '");
            reveal_strlit("': '");
            reveal_strlit(": '");
            reveal_strlit("' is not");
            reveal_strlit("' is not a valid Rust attribute (");
            reveal_strlit("attribute (");
            reveal_strlit(")");
            let a = "invalid custom attribute for path '"@;
            let b = "': '"@;
            let c = "' is not a valid Rust attribute ("@;
            assert(b =~= "'"@ + b.skip(1));
            let back = b.skip(1) + attribute + c + detail + ")"@;
            assert(t =~= none + a + path + "'"@ + back);
            lemma_tail_says(t, none, a, "for path '"@, path, "'"@, back);
            let front = a + path;
            let close = "' is not"@;
            assert(c =~= close + c.skip(close.len() as int));
            let back = c.skip(close.len() as int) + detail + ")"@;
            assert(t =~= front + b + attribute + close + back);
            lemma_tail_says(t, front, b, ": '"@, attribute, close, back);
            let front = a + path + b + attribute;
            assert(t =~= front + c + detail + ")"@ + none);
            lemma_tail_says(t, front, c, "attribute ("@, detail, ")"@, none);
    }
}

#[verifier::spinoff_prover]
proof fn lemma_invalid_type_name_prefix(e: ErrorText)
    requires
        e is InvalidTypeNamePrefix,
    ensures
        names_it(e),
{
    let t = errors::error_text(e);
    let none = Seq::<char>::empty();
    reveal_strlit("'");
    if let ErrorText::InvalidTypeNamePrefix { prefix } = e {
            reveal_strlit("invalid type_name_prefix '");
            reveal_strlit("type_name_prefix '");
            reveal_strlit("': must be empty or PascalCase (start with an ASCII uppercase letter, followed by ASCII letters and digits only)");
            let a = "invalid type_name_prefix '"@;
            let b = "': must be empty or PascalCase (start with an ASCII uppercase letter, followed by ASCII letters and digits only)"@;
            assert(b =~= "'"@ + b.skip(1));
            assert(t =~= none + a + prefix + "'"@ + b.skip(1));
            lemma_tail_says(t, none, a, "type_name_prefix '"@, prefix, "'"@, b.skip(1));
    }
}

/// Words that end in other words hold what the others do.
proof fn lemma_tail_holds(
    message: Seq<char>,
    longer: Seq<char>,
    words: Seq<char>,
    name: Seq<char>,
)
    requires
        message == longer + name,
        longer.len() >= words.len(),
        longer.skip(longer.len() - words.len()) =~= words,
    ensures
        text::holds(message, words + name),
{
    let n = longer.len() - words.len();
    let piece = words + name;
    let found = message.subrange(n, n + piece.len());
    assert forall|i: int| 0 <= i < piece.len() implies found[i] == piece[i] by {
        if i < words.len() {
            assert(longer.skip(n)[i] == longer[n + i]);
        }
    }
    assert(found =~= piece);
    assert(text::occurs_at(message, piece, n));
}

/// Words that end in other words say what the others say.
proof fn lemma_tail_says(
    message: Seq<char>,
    front: Seq<char>,
    longer: Seq<char>,
    words: Seq<char>,
    name: Seq<char>,
    close: Seq<char>,
    back: Seq<char>,
)
    requires
        message == front + longer + name + close + back,
        longer.len() >= words.len(),
        longer.skip(longer.len() - words.len()) =~= words,
    ensures
        says(message, words, name, close),
{
    let n = longer.len() - words.len();
    assert(longer =~= longer.take(n) + words);
    let head = front + longer.take(n);
    assert(message =~= head + (words + name + close) + back);
    lemma_says(message, head, words, name, close, back);
}

} // verus!
