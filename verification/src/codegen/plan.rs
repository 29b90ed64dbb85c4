//! What is decided before anything is generated: whether the configuration makes
//! sense, which files are generated, in which packages, and what to warn of.
use vstd::prelude::*;
use vstd::string::*;
use crate::codegen::config;
use crate::codegen::config::{CodeGenConfig, FeatureOverride};
use crate::codegen::descriptor;
use crate::codegen::descriptor::{find_file, FileDescriptorProto};
use crate::codegen::errors::{CodeGenError, ErrorText};
use crate::codegen::packages;
use crate::codegen::packages::{entry_covers, normalize_exclude_package, package_is_excluded};
use crate::codegen::shared_root;
use crate::codegen::shared_root::validate_shared_root_path;
use crate::codegen::text;
use crate::codegen::text::{push_text, quoted};
use crate::codegen::validate;
use crate::codegen::warning;
use crate::codegen::warning::{CodeGenWarning, WarningText};

verus! {

/// What is said of a feature name that Cargo would not take.
pub open spec fn bad_gate_text(kind: Seq<char>, name: Seq<char>) -> Seq<char> {
    "invalid "@ + kind + " feature-gate name "@ + text::debug_text(name)
        + ": a Cargo feature name starts with an ASCII alphanumeric or '_' and contains only alphanumerics, '_', '-', '+', or '.'; an invalid name would leave the emitted #[cfg(feature = ...)] permanently false, silently compiling the gated impls away"@
}

/// What is wrong with where the shared descriptors are said to be.
pub open spec fn pool_root_fault(config: CodeGenConfig) -> Option<ErrorText> {
    match config.shared_descriptor_pool_root {
        None => None,
        Some(root) => if !config.shared_descriptor_pool {
            Some(
                ErrorText::Other(
                    "shared_descriptor_pool_root requires shared_descriptor_pool to be enabled (it overrides the path to the shared root, which only exists in shared-pool mode)"@,
                ),
            )
        } else {
            match shared_root::root_path_fault(root@) {
                Some(e) => Some(ErrorText::Other(e)),
                None => None,
            }
        },
    }
}

/// What is wrong with a configuration, whatever the files are.
pub open spec fn config_fault(config: CodeGenConfig) -> Option<ErrorText> {
    if config.generate_reflection_vtable && !config.generate_reflection {
        Some(
            ErrorText::Other(
                "generate_reflection_vtable requires generate_reflection to be enabled (it provides the descriptor pool the reflect impls resolve against)"@,
            ),
        )
    } else if config.shared_descriptor_pool && !config.generate_reflection {
        Some(
            ErrorText::Other(
                "shared_descriptor_pool requires generate_reflection to be enabled (it deduplicates the embedded reflection descriptor pool)"@,
            ),
        )
    } else if pool_root_fault(config) is Some {
        pool_root_fault(config)
    } else if config.idiomatic_imports && !config.file_per_package {
        Some(
            ErrorText::Other(
                "idiomatic_imports requires file_per_package to be enabled (the multi-file layout include!-merges every proto's content into the shared package root, where emitted `use` directives could collide across files)"@,
            ),
        )
    } else {
        match config::bad_gate(
            config.json_gate(),
            config.views_gate(),
            config.text_gate(),
            config.reflect_gate(),
        ) {
            Some((kind, name)) => Some(ErrorText::Other(bad_gate_text(kind, name))),
            None => if !config::is_type_prefix(config.type_name_prefix@) {
                Some(ErrorText::InvalidTypeNamePrefix { prefix: config.type_name_prefix@ })
            } else {
                None
            },
        }
    }
}

/// Check where the shared descriptors are said to be.
fn check_pool_root(config: &CodeGenConfig) -> (result: Result<(), CodeGenError>)
    ensures
        validate::reports(result, pool_root_fault(*config)),
{
    match &config.shared_descriptor_pool_root {
        None => Ok(()),
        Some(root) => {
            if !config.shared_descriptor_pool {
                return Err(
                    CodeGenError::Other(
                        "shared_descriptor_pool_root requires shared_descriptor_pool to be enabled (it overrides the path to the shared root, which only exists in shared-pool mode)".to_owned(),
                    ),
                );
            }
            validate_shared_root_path(root.as_str())
        },
    }
}

/// Check a configuration, whatever the files are.
pub fn validate_config(config: &CodeGenConfig) -> (result: Result<(), CodeGenError>)
    ensures
        validate::reports(result, config_fault(*config)),
{
    if config.generate_reflection_vtable && !config.generate_reflection {
        return Err(
            CodeGenError::Other(
                "generate_reflection_vtable requires generate_reflection to be enabled (it provides the descriptor pool the reflect impls resolve against)".to_owned(),
            ),
        );
    }
    if config.shared_descriptor_pool && !config.generate_reflection {
        return Err(
            CodeGenError::Other(
                "shared_descriptor_pool requires generate_reflection to be enabled (it deduplicates the embedded reflection descriptor pool)".to_owned(),
            ),
        );
    }
    match check_pool_root(config) {
        Ok(()) => {},
        Err(e) => return Err(e),
    }
    if config.idiomatic_imports && !config.file_per_package {
        return Err(
            CodeGenError::Other(
                "idiomatic_imports requires file_per_package to be enabled (the multi-file layout include!-merges every proto's content into the shared package root, where emitted `use` directives could collide across files)".to_owned(),
            ),
        );
    }
    match config.feature_gates().validate() {
        Ok(()) => {},
        Err((kind, name)) => {
            let mut r: String = "invalid ".to_owned();
            r.append(kind);
            r.append(" feature-gate name ");
            r.append(quoted(name).as_str());
            r.append(
                ": a Cargo feature name starts with an ASCII alphanumeric or '_' and contains only alphanumerics, '_', '-', '+', or '.'; an invalid name would leave the emitted #[cfg(feature = ...)] permanently false, silently compiling the gated impls away",
            );
            return Err(CodeGenError::Other(r));
        },
    }
    config.validate_type_name_prefix()
}

/// The first `k` exclusion entries as they are matched, or what is wrong with the
/// first bad one.
pub open spec fn exclusions(entries: Seq<String>, k: nat) -> Result<Seq<Seq<char>>, ErrorText>
    decreases k,
{
    if k == 0 || k > entries.len() {
        Ok(Seq::empty())
    } else {
        match exclusions(entries, (k - 1) as nat) {
            Err(e) => Err(e),
            Ok(before) => {
                let entry = packages::stripped_entry(entries[k - 1]@);
                if packages::has_no_empty_component(entry) {
                    Ok(before.push(entry))
                } else {
                    Err(
                        ErrorText::Other(
                            "exclude_package "@ + text::debug_text(entries[k - 1]@) + ": "@
                                + packages::bad_entry_text(),
                        ),
                    )
                }
            },
        }
    }
}

/// The first bad entry is the one reported.
proof fn lemma_exclusions_stop(entries: Seq<String>, k: nat, m: nat)
    requires
        k <= m <= entries.len(),
        exclusions(entries, k) is Err,
    ensures
        exclusions(entries, m) == exclusions(entries, k),
    decreases m,
{
    if k < m {
        lemma_exclusions_stop(entries, k, (m - 1) as nat);
    }
}

/// Normalize exclusion entries.
pub(crate) fn normalize_excludes(entries: &Vec<String>) -> (result: Result<Vec<String>, CodeGenError>)
    ensures
        match exclusions(entries@, entries@.len()) {
            Ok(list) => result is Ok && text::texts(result->Ok_0@) == list,
            Err(e) => result is Err && result->Err_0@ == e,
        },
{
    let mut list: Vec<String> = Vec::new();
    let mut i: usize = 0;
    assert(text::texts(list@) =~= Seq::<Seq<char>>::empty());
    while i < entries.len()
        invariant
            i <= entries@.len(),
            exclusions(entries@, i as nat) == Ok::<Seq<Seq<char>>, ErrorText>(text::texts(list@)),
        decreases entries@.len() - i,
    {
        match normalize_exclude_package(entries[i].as_str()) {
            Ok(entry) => push_text(&mut list, entry),
            Err(e) => {
                let mut r: String = "exclude_package ".to_owned();
                r.append(quoted(entries[i].as_str()).as_str());
                r.append(": ");
                r.append(e.as_str());
                proof {
                    lemma_exclusions_stop(entries@, i as nat + 1, entries@.len());
                }
                return Err(CodeGenError::Other(r));
            },
        }
        i = i + 1;
    }
    Ok(list)
}

/// A file is generated: its package is not excluded. A file that is not there is
/// kept, to be reported.
pub open spec fn keeps(
    files: Seq<FileDescriptorProto>,
    name: String,
    excludes: Seq<Seq<char>>,
) -> bool {
    match descriptor::file_from(files, name@, 0) {
        Some(i) => !packages::excluded(files[i].package_text(), excludes),
        None => true,
    }
}

/// Those of the first `k` files that are generated.
pub open spec fn kept(
    files: Seq<FileDescriptorProto>,
    requested: Seq<String>,
    excludes: Seq<Seq<char>>,
    k: nat,
) -> Seq<String>
    decreases k,
{
    if k == 0 || k > requested.len() {
        Seq::empty()
    } else {
        let before = kept(files, requested, excludes, (k - 1) as nat);
        if keeps(files, requested[k - 1], excludes) {
            before.push(requested[k - 1])
        } else {
            before
        }
    }
}

/// Leave out the files of excluded packages.
pub(crate) fn filter_excluded(
    files: &Vec<FileDescriptorProto>,
    requested: &Vec<String>,
    excludes: &Vec<String>,
) -> (out: Vec<String>)
    ensures
        out@ == kept(files@, requested@, text::texts(excludes@), requested@.len()),
{
    let mut out: Vec<String> = Vec::new();
    let mut i: usize = 0;
    while i < requested.len()
        invariant
            i <= requested@.len(),
            out@ == kept(files@, requested@, text::texts(excludes@), i as nat),
        decreases requested@.len() - i,
    {
        let keep: bool = match find_file(files, &requested[i]) {
            Some(at) => !package_is_excluded(files[at].package_name(), excludes),
            None => true,
        };
        if keep {
            out.push(requested[i].clone());
        }
        i = i + 1;
    }
    out
}

/// A file that is generated was asked for, and is in no excluded package.
pub proof fn law_excluded_files_are_left_out(
    files: Seq<FileDescriptorProto>,
    requested: Seq<String>,
    excludes: Seq<Seq<char>>,
    name: String,
)
    ensures
        kept(files, requested, excludes, requested.len()).contains(name) <==> requested.contains(
            name,
        ) && keeps(files, name, excludes),
{
    lemma_kept(files, requested, excludes, requested.len(), name);
    assert(requested.take(requested.len() as int) =~= requested);
}

proof fn lemma_kept(
    files: Seq<FileDescriptorProto>,
    requested: Seq<String>,
    excludes: Seq<Seq<char>>,
    k: nat,
    name: String,
)
    requires
        k <= requested.len(),
    ensures
        kept(files, requested, excludes, k).contains(name) <==> requested.take(
            k as int,
        ).contains(name) && keeps(files, name, excludes),
    decreases k,
{
    if k > 0 {
        lemma_kept(files, requested, excludes, (k - 1) as nat, name);
        let before = kept(files, requested, excludes, (k - 1) as nat);
        let front = requested.take(k - 1);
        let all = requested.take(k as int);
        let last = requested[k - 1];
        assert(all =~= front.push(last));
        assert(all.contains(name) <==> front.contains(name) || name == last) by {
            if front.contains(name) {
                let i = front.index_of(name);
                assert(all[i] == name);
            }
            if name == last {
                assert(all[k - 1] == name);
            }
        }
        assert(before.push(last).contains(name) <==> before.contains(name) || name == last) by {
            if before.contains(name) {
                let i = before.index_of(name);
                assert(before.push(last)[i] == name);
            }
            assert(before.push(last)[before.len() as int] == last);
        }
    }
}

/// An override that matched nothing, as a warning.
pub open spec fn inert_override(rule: (String, FeatureOverride)) -> WarningText {
    WarningText::FeatureOverrideMatchedNothing {
        rule: rule.0@,
        feature: rule.1.feature_text(),
        value: rule.1.value_text(),
    }
}

/// Some file's package is covered by an exclusion entry.
pub open spec fn entry_matches(files: Seq<FileDescriptorProto>, entry: Seq<char>) -> bool {
    exists|i: int|
        0 <= i < files.len() && packages::covers(entry, (#[trigger] files[i]).package_text())
}

/// The warnings of those of the first `k` exclusion entries that match no file.
pub open spec fn inert_exclusions(
    files: Seq<FileDescriptorProto>,
    excludes: Seq<Seq<char>>,
    k: nat,
) -> Seq<WarningText>
    decreases k,
{
    if k == 0 || k > excludes.len() {
        Seq::empty()
    } else {
        let before = inert_exclusions(files, excludes, (k - 1) as nat);
        if entry_matches(files, excludes[k - 1]) {
            before
        } else {
            before.push(WarningText::ExcludePackageMatchedNothing { package: excludes[k - 1] })
        }
    }
}

/// The warnings that rest on the configuration alone, and on which packages there
/// are.
pub open spec fn config_warnings(
    config: CodeGenConfig,
    files: Seq<FileDescriptorProto>,
    unmatched: Seq<(String, FeatureOverride)>,
    excludes: Seq<Seq<char>>,
) -> Seq<WarningText> {
    unmatched.map_values(|rule: (String, FeatureOverride)| inert_override(rule)) + (
    if config.lazy_views && !config.generate_views {
        seq![WarningText::LazyViewsRequireViews]
    } else {
        Seq::empty()
    }) + inert_exclusions(files, excludes, excludes.len())
}

/// Whether some file's package is covered by an exclusion entry.
fn matches_some_file(files: &Vec<FileDescriptorProto>, entry: &str) -> (r: bool)
    ensures
        r == entry_matches(files@, entry@),
{
    let mut i: usize = 0;
    while i < files.len()
        invariant
            i <= files@.len(),
            forall|j: int|
                0 <= j < i ==> !packages::covers(entry@, (#[trigger] files@[j]).package_text()),
        decreases files@.len() - i,
    {
        if entry_covers(entry, files[i].package_name()) {
            return true;
        }
        i = i + 1;
    }
    false
}

/// Add a warning to a list.
fn push_warning(list: &mut Vec<CodeGenWarning>, w: CodeGenWarning)
    ensures
        warning::warning_texts(final(list)@) == warning::warning_texts(old(list)@).push(w@),
{
    let ghost added = w@;
    list.push(w);
    assert(warning::warning_texts(list@) =~= warning::warning_texts(old(list)@).push(added));
}

/// Warn of what rests on the configuration alone, and on which packages there
/// are.
pub(crate) fn warn_config(
    config: &CodeGenConfig,
    files: &Vec<FileDescriptorProto>,
    unmatched: &Vec<(String, FeatureOverride)>,
    excludes: &Vec<String>,
) -> (list: Vec<CodeGenWarning>)
    ensures
        warning::warning_texts(list@) == config_warnings(
            *config,
            files@,
            unmatched@,
            text::texts(excludes@),
        ),
{
    let mut list: Vec<CodeGenWarning> = Vec::new();
    let ghost inert = unmatched@.map_values(
        |rule: (String, FeatureOverride)| inert_override(rule),
    );
    let mut i: usize = 0;
    assert(warning::warning_texts(list@) =~= inert.take(0));
    while i < unmatched.len()
        invariant
            i <= unmatched@.len(),
            inert == unmatched@.map_values(
                |rule: (String, FeatureOverride)| inert_override(rule),
            ),
            warning::warning_texts(list@) == inert.take(i as int),
        decreases unmatched@.len() - i,
    {
        push_warning(
            &mut list,
            CodeGenWarning::FeatureOverrideMatchedNothing {
                rule: unmatched[i].0.clone(),
                feature: unmatched[i].1.feature_name(),
                value: unmatched[i].1.value_name(),
            },
        );
        i = i + 1;
        assert(warning::warning_texts(list@) =~= inert.take(i as int));
    }
    assert(inert.take(inert.len() as int) =~= inert);
    let ghost lazy: Seq<WarningText> = if config.lazy_views && !config.generate_views {
        seq![WarningText::LazyViewsRequireViews]
    } else {
        Seq::empty()
    };
    if config.lazy_views && !config.generate_views {
        push_warning(&mut list, CodeGenWarning::LazyViewsRequireViews);
    }
    assert(warning::warning_texts(list@) =~= inert + lazy);
    let ghost entries = text::texts(excludes@);
    let mut j: usize = 0;
    assert(inert + lazy + inert_exclusions(files@, entries, 0) =~= inert + lazy);
    while j < excludes.len()
        invariant
            j <= excludes@.len(),
            entries == text::texts(excludes@),
            warning::warning_texts(list@) == inert + lazy + inert_exclusions(
                files@,
                entries,
                j as nat,
            ),
        decreases excludes@.len() - j,
    {
        assert(entries[j as int] == excludes@[j as int]@);
        if !matches_some_file(files, excludes[j].as_str()) {
            push_warning(
                &mut list,
                CodeGenWarning::ExcludePackageMatchedNothing { package: excludes[j].clone() },
            );
        }
        j = j + 1;
        assert(warning::warning_texts(list@) =~= inert + lazy + inert_exclusions(
            files@,
            entries,
            j as nat,
        ));
    }
    list
}

/// No warning of an exclusion entry is of a reference.
proof fn lemma_inert_exclusions(
    files: Seq<FileDescriptorProto>,
    excludes: Seq<Seq<char>>,
    k: nat,
)
    ensures
        forall|i: int|
            0 <= i < inert_exclusions(files, excludes, k).len() ==> !((#[trigger] inert_exclusions(
                files,
                excludes,
                k,
            )[i]) is ExcludedPackageFieldRef),
    decreases k,
{
    if k > 0 && k <= excludes.len() {
        lemma_inert_exclusions(files, excludes, (k - 1) as nat);
    }
}

/// No warning that rests on the configuration is of a reference.
pub proof fn lemma_config_warnings(
    config: CodeGenConfig,
    files: Seq<FileDescriptorProto>,
    unmatched: Seq<(String, FeatureOverride)>,
    excludes: Seq<Seq<char>>,
)
    ensures
        forall|i: int|
            0 <= i < config_warnings(config, files, unmatched, excludes).len() ==> !((
            #[trigger] config_warnings(config, files, unmatched, excludes)[i])
                is ExcludedPackageFieldRef),
{
    lemma_inert_exclusions(files, excludes, excludes.len());
    let all = config_warnings(config, files, unmatched, excludes);
    let inert = unmatched.map_values(|rule: (String, FeatureOverride)| inert_override(rule));
    let last = inert_exclusions(files, excludes, excludes.len());
    assert forall|i: int| 0 <= i < all.len() implies !((#[trigger] all[i])
        is ExcludedPackageFieldRef) by {
        let n = all.len() - last.len();
        if i >= n {
            assert(all[i] == last[i - n]);
        } else if i < inert.len() {
            assert(all[i] == inert[i]);
        }
    }
}

} // verus!
