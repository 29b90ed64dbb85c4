//! Generation as a whole.
//!
//! [`plan_generation`] decides what is generated. The code of single elements
//! comes from their own generators; [`generate_with_diagnostics`] takes it, one
//! [`PackageOutput`] for each package of the plan, and makes the files.
use vstd::prelude::*;
use vstd::string::*;
use crate::codegen::config::{CodeGenConfig, FeatureOverride};
use crate::codegen::content::FileOutput;
use crate::codegen::custom_elements;
use crate::codegen::custom_elements::custom_elem_impls;
use crate::codegen::descriptor::FileDescriptorProto;
use crate::codegen::errors::{CodeGenError, ErrorText};
use crate::codegen::excluded_refs;
use crate::codegen::files;
use crate::codegen::files::{FileText, GeneratedFile};
use crate::codegen::grouping;
use crate::codegen::grouping::{group_by_package, warn_excluded_refs, PackagePlan};
use crate::codegen::package;
use crate::codegen::package::{are_outputs_of, generate_package};
use crate::codegen::packages;
use crate::codegen::plan;
use crate::codegen::plan::{filter_excluded, normalize_excludes, validate_config, warn_config};
use crate::codegen::shared_root;
use crate::codegen::shared_root::validate_shared_root_name;
use crate::codegen::stitch::PackagePieces;
use crate::codegen::warning;
use crate::codegen::warning::{CodeGenWarning, WarningText};

verus! {

/// What is decided before anything is generated.
#[derive(Debug)]
pub struct GenerationPlan<'a> {
    /// The packages, in order, with their files.
    pub packages: Vec<PackagePlan<'a>>,
    /// What to warn of.
    pub warnings: Vec<CodeGenWarning>,
    /// The impls of custom types. They go to the first package alone: a second
    /// copy would not compile.
    pub custom_elem_impls: String,
}

/// Such decisions, as text.
pub struct PlanText<'a> {
    /// The packages, in order, with their files.
    pub packages: Seq<(Seq<char>, Seq<&'a FileDescriptorProto>)>,
    /// What to warn of.
    pub warnings: Seq<WarningText>,
    /// The impls of custom types.
    pub custom_elem_impls: Seq<char>,
}

impl<'a> View for GenerationPlan<'a> {
    type V = PlanText<'a>;

    open spec fn view(&self) -> PlanText<'a> {
        PlanText {
            packages: grouping::plan_texts(self.packages@),
            warnings: warning::warning_texts(self.warnings@),
            custom_elem_impls: self.custom_elem_impls@,
        }
    }
}

/// What is wrong with the shared corpus context, if there is one.
pub open spec fn corpus_fault(config: CodeGenConfig, files: Seq<FileDescriptorProto>) -> Option<
    ErrorText,
> {
    match config.shared_corpus_context {
        Some(shared) => shared.mismatch(files, config),
        None => None,
    }
}

/// What takes the name of the shared root, where there is such a root in this
/// tree.
pub open spec fn root_fault(
    config: CodeGenConfig,
    files: Seq<FileDescriptorProto>,
    kept: Seq<String>,
) -> Option<ErrorText> {
    if config.shared_descriptor_pool && config.shared_descriptor_pool_root is None {
        shared_root::root_names_fault(files, kept, 0)
    } else {
        None
    }
}

/// What is decided for the files that are left once packages are excluded.
pub open spec fn planned_for<'a>(
    config: CodeGenConfig,
    files: Seq<FileDescriptorProto>,
    kept: Seq<String>,
    warnings: Seq<WarningText>,
) -> Result<PlanText<'a>, ErrorText> {
    match grouping::missing_file(files, kept, 0) {
        Some(name) => Err(ErrorText::FileNotFound(name)),
        None => {
            let packages = grouping::grouped(files, kept);
            match root_fault(config, files, kept) {
                Some(e) => Err(e),
                None => match custom_elements::impls_of(
                    config,
                    custom_elements::files_uses(config, files, kept, kept.len()),
                ) {
                    Err(e) => Err(e),
                    Ok(impls) => Ok(
                        PlanText {
                            packages,
                            warnings: grouping::after_packages(
                                grouping::scan_of(config, files, kept),
                                packages,
                                packages.len(),
                                warnings,
                            ),
                            custom_elem_impls: impls,
                        },
                    ),
                },
            }
        },
    }
}

/// What is decided before anything is generated, or the first error.
pub open spec fn planned<'a>(
    files: Seq<FileDescriptorProto>,
    requested: Seq<String>,
    config: CodeGenConfig,
    unmatched: Seq<(String, FeatureOverride)>,
) -> Result<PlanText<'a>, ErrorText> {
    match plan::config_fault(config) {
        Some(e) => Err(e),
        None => match plan::exclusions(config.exclude_packages@, config.exclude_packages@.len()) {
            Err(e) => Err(e),
            Ok(excludes) => match corpus_fault(config, files) {
                Some(e) => Err(e),
                None => planned_for(
                    config,
                    files,
                    plan::kept(files, requested, excludes, requested.len()),
                    plan::config_warnings(config, files, unmatched, excludes),
                ),
            },
        },
    }
}

/// Decide what is generated.
///
/// `file_descriptors` are all files, with overrides of features applied; the
/// overrides that matched nothing are in `unmatched`. `files_to_generate` are the
/// names of the files that are asked for.
pub fn plan_generation<'a>(
    file_descriptors: &'a Vec<FileDescriptorProto>,
    files_to_generate: &Vec<String>,
    config: &CodeGenConfig,
    unmatched: &Vec<(String, FeatureOverride)>,
) -> (result: Result<GenerationPlan<'a>, CodeGenError>)
    ensures
        match planned(file_descriptors@, files_to_generate@, *config, unmatched@) {
            Err(e) => result is Err && result->Err_0@ == e,
            Ok(plan) => result is Ok && result->Ok_0@ == plan,
        },
{
    match validate_config(config) {
        Ok(()) => {},
        Err(e) => return Err(e),
    }
    let excludes: Vec<String> = match normalize_excludes(&config.exclude_packages) {
        Ok(excludes) => excludes,
        Err(e) => return Err(e),
    };
    let kept: Vec<String> = filter_excluded(file_descriptors, files_to_generate, &excludes);
    match &config.shared_corpus_context {
        Some(shared) => match shared.check(file_descriptors, config) {
            Ok(()) => {},
            Err(e) => return Err(e),
        },
        None => {},
    }
    let mut warnings: Vec<CodeGenWarning> = warn_config(
        config,
        file_descriptors,
        unmatched,
        &excludes,
    );
    let packages: Vec<PackagePlan<'a>> = match group_by_package(file_descriptors, &kept) {
        Ok(packages) => packages,
        Err(e) => return Err(e),
    };
    warn_excluded_refs(config, file_descriptors, &kept, &packages, &mut warnings);
    if config.shared_descriptor_pool && config.shared_descriptor_pool_root.is_none() {
        match validate_shared_root_name(file_descriptors, &kept) {
            Ok(()) => {},
            Err(e) => return Err(e),
        }
    }
    let impls: String = match custom_elem_impls(config, file_descriptors, &kept) {
        Ok(impls) => impls,
        Err(e) => return Err(e),
    };
    Ok(GenerationPlan { packages, warnings, custom_elem_impls: impls })
}

/// The code of a package's elements, from their own generators.
#[derive(Debug)]
pub struct PackageOutput {
    /// The code of each file, or the error that its generators met.
    pub outputs: Vec<Result<FileOutput, CodeGenError>>,
    /// The code that belongs to the package as a whole.
    pub pieces: PackagePieces,
    /// What the generators warned of.
    pub warnings: Vec<CodeGenWarning>,
}

/// There is the code of each package, and in it that of each file.
pub open spec fn backend_fits(plan: PlanText<'_>, backend: Seq<PackageOutput>) -> bool {
    &&& backend.len() == plan.packages.len()
    &&& forall|i: int|
        0 <= i < backend.len() ==> package::outputs_fit(
            plan.packages[i].1,
            (#[trigger] backend[i]).outputs@,
        )
}

/// Whether there is the code of each package, and in it that of each file.
///
/// [`generate_planned`] and [`generate_with_diagnostics`] take a backend only if
/// so.
pub fn is_backend_of(plan: &GenerationPlan<'_>, backend: &Vec<PackageOutput>) -> (r: bool)
    ensures
        r == backend_fits(plan@, backend@),
{
    if backend.len() != plan.packages.len() {
        return false;
    }
    let mut i: usize = 0;
    while i < backend.len()
        invariant
            i <= backend@.len(),
            backend@.len() == plan.packages@.len(),
            forall|k: int|
                0 <= k < i ==> package::outputs_fit(
                    plan@.packages[k].1,
                    (#[trigger] backend@[k]).outputs@,
                ),
        decreases backend@.len() - i,
    {
        assert(plan@.packages[i as int] == (
            plan.packages@[i as int].name@,
            plan.packages@[i as int].files@,
        ));
        if !are_outputs_of(&plan.packages[i].files, &backend[i].outputs) {
            assert(!package::outputs_fit(plan@.packages[i as int].1, backend@[i as int].outputs@));
            return false;
        }
        i = i + 1;
    }
    true
}

/// The impls of custom types that a package gets.
pub open spec fn impls_for(plan: PlanText<'_>, i: int) -> Seq<char> {
    if i == 0 {
        plan.custom_elem_impls
    } else {
        Seq::empty()
    }
}

/// The files of the first `k` packages, or the first error.
pub open spec fn packages_files(
    config: CodeGenConfig,
    plan: PlanText<'_>,
    backend: Seq<PackageOutput>,
    k: nat,
) -> Result<Seq<FileText>, ErrorText>
    decreases k,
{
    if k == 0 || k > plan.packages.len() {
        Ok(Seq::empty())
    } else {
        match packages_files(config, plan, backend, (k - 1) as nat) {
            Err(e) => Err(e),
            Ok(before) => match package::package_files(
                config,
                plan.packages[k - 1].0,
                plan.packages[k - 1].1,
                backend[k - 1].outputs@,
                backend[k - 1].pieces,
                impls_for(plan, k - 1),
            ) {
                Err(e) => Err(e),
                Ok(files) => Ok(before + files),
            },
        }
    }
}

/// What is warned of once the first `k` packages have been generated.
pub open spec fn all_warnings(
    plan: PlanText<'_>,
    backend: Seq<PackageOutput>,
    k: nat,
) -> Seq<WarningText>
    decreases k,
{
    if k == 0 || k > backend.len() {
        plan.warnings
    } else {
        all_warnings(plan, backend, (k - 1) as nat) + warning::warning_texts(
            backend[k - 1].warnings@,
        )
    }
}

/// Everything that generation puts out, or the first error.
pub open spec fn generated(
    files: Seq<FileDescriptorProto>,
    requested: Seq<String>,
    config: CodeGenConfig,
    unmatched: Seq<(String, FeatureOverride)>,
    backend: Seq<PackageOutput>,
) -> Result<(Seq<FileText>, Seq<WarningText>), ErrorText> {
    match planned(files, requested, config, unmatched) {
        Err(e) => Err(e),
        Ok(plan) => match packages_files(config, plan, backend, plan.packages.len()) {
            Err(e) => Err(e),
            Ok(files) => Ok((files, all_warnings(plan, backend, backend.len()))),
        },
    }
}

/// The first error is the result.
proof fn lemma_packages_stop(
    config: CodeGenConfig,
    plan: PlanText<'_>,
    backend: Seq<PackageOutput>,
    k: nat,
    m: nat,
)
    requires
        k <= m <= plan.packages.len(),
        packages_files(config, plan, backend, k) is Err,
    ensures
        packages_files(config, plan, backend, m) == packages_files(config, plan, backend, k),
    decreases m,
{
    if k < m {
        lemma_packages_stop(config, plan, backend, k, (m - 1) as nat);
    }
}

/// Generate the files of a plan, and say what to warn of.
pub fn generate_planned(config: &CodeGenConfig, plan: GenerationPlan<'_>, backend: Vec<PackageOutput>) -> (result:
    Result<(Vec<GeneratedFile>, Vec<CodeGenWarning>), CodeGenError>)
    requires
        backend_fits(plan@, backend@),
    ensures
        match packages_files(*config, plan@, backend@, plan@.packages.len()) {
            Err(e) => result is Err && result->Err_0@ == e,
            Ok(out) => {
                &&& result is Ok
                &&& files::file_texts(result->Ok_0.0@) == out
                &&& warning::warning_texts(result->Ok_0.1@) == all_warnings(
                    plan@,
                    backend@,
                    backend@.len(),
                )
            },
        },
{
    let ghost given = backend@;
    let ghost decided = plan@;
    let mut rest: Vec<PackageOutput> = backend;
    let mut out: Vec<GeneratedFile> = Vec::new();
    let packages: Vec<PackagePlan<'_>> = plan.packages;
    let impls: String = plan.custom_elem_impls;
    let mut warnings: Vec<CodeGenWarning> = plan.warnings;
    let mut i: usize = 0;
    assert(files::file_texts(out@) =~= Seq::<FileText>::empty());
    assert(given.skip(0) =~= given);
    while i < packages.len()
        invariant
            i <= packages@.len(),
            given == backend@,
            decided == plan@,
            decided.packages == grouping::plan_texts(packages@),
            decided.custom_elem_impls == impls@,
            backend_fits(decided, given),
            rest@ == given.skip(i as int),
            packages_files(*config, decided, given, i as nat) == Ok::<Seq<FileText>, ErrorText>(
                files::file_texts(out@),
            ),
            warning::warning_texts(warnings@) == all_warnings(decided, given, i as nat),
        decreases packages@.len() - i,
    {
        let ghost before = out@;
        let ghost warned = warnings@;
        let output: PackageOutput = rest.remove(0);
        assert(output == given[i as int]);
        assert(rest@ =~= given.skip(i as int + 1));
        let package: &PackagePlan<'_> = &packages[i];
        assert(decided.packages[i as int] == (package.name@, package.files@));
        let first: &str = if i == 0 {
            impls.as_str()
        } else {
            ""
        };
        proof {
            reveal_strlit("");
            assert(first@ =~= impls_for(decided, i as int));
        }
        let made = generate_package(
            config,
            package.name.as_str(),
            &package.files,
            output.outputs,
            &output.pieces,
            first,
        );
        match made {
            Ok(made) => {
                let mut made: Vec<GeneratedFile> = made;
                let ghost more = made@;
                out.append(&mut made);
                assert(files::file_texts(out@) =~= files::file_texts(before) + files::file_texts(
                    more,
                ));
            },
            Err(e) => {
                proof {
                    lemma_packages_stop(
                        *config,
                        decided,
                        given,
                        i as nat + 1,
                        decided.packages.len(),
                    );
                }
                return Err(e);
            },
        }
        let mut more: Vec<CodeGenWarning> = output.warnings;
        let ghost added = more@;
        warnings.append(&mut more);
        assert(warning::warning_texts(warnings@) =~= warning::warning_texts(warned)
            + warning::warning_texts(added));
        i = i + 1;
    }
    Ok((out, warnings))
}

/// Generate code for the files that are asked for, and say what to warn of.
///
/// See [`plan_generation`] for the arguments. `backend` holds the code of the
/// planned packages' elements.
pub fn generate_with_diagnostics(
    file_descriptors: &Vec<FileDescriptorProto>,
    files_to_generate: &Vec<String>,
    config: &CodeGenConfig,
    unmatched: &Vec<(String, FeatureOverride)>,
    backend: Vec<PackageOutput>,
) -> (result: Result<(Vec<GeneratedFile>, Vec<CodeGenWarning>), CodeGenError>)
    requires
        planned(file_descriptors@, files_to_generate@, *config, unmatched@) matches Ok(plan)
            ==> backend_fits(plan, backend@),
    ensures
        match generated(
            file_descriptors@,
            files_to_generate@,
            *config,
            unmatched@,
            backend@,
        ) {
            Err(e) => result is Err && result->Err_0@ == e,
            Ok((out, warnings)) => {
                &&& result is Ok
                &&& files::file_texts(result->Ok_0.0@) == out
                &&& warning::warning_texts(result->Ok_0.1@) == warnings
            },
        },
{
    match plan_generation(file_descriptors, files_to_generate, config, unmatched) {
        Ok(plan) => generate_planned(config, plan, backend),
        Err(e) => Err(e),
    }
}

/// Generate code for the files that are asked for, whatever there is to warn of.
pub fn generate(
    file_descriptors: &Vec<FileDescriptorProto>,
    files_to_generate: &Vec<String>,
    config: &CodeGenConfig,
    unmatched: &Vec<(String, FeatureOverride)>,
    backend: Vec<PackageOutput>,
) -> (result: Result<Vec<GeneratedFile>, CodeGenError>)
    requires
        planned(file_descriptors@, files_to_generate@, *config, unmatched@) matches Ok(plan)
            ==> backend_fits(plan, backend@),
    ensures
        match generated(
            file_descriptors@,
            files_to_generate@,
            *config,
            unmatched@,
            backend@,
        ) {
            Err(e) => result is Err && result->Err_0@ == e,
            Ok((out, _)) => result is Ok && files::file_texts(result->Ok_0@) == out,
        },
{
    match generate_with_diagnostics(
        file_descriptors,
        files_to_generate,
        config,
        unmatched,
        backend,
    ) {
        Ok((files, _warnings)) => Ok(files),
        Err(e) => Err(e),
    }
}

/// A plan warns of exactly the references from the files to generate that lead
/// nowhere, and of no file and type twice.
pub proof fn law_plan_warns_of_every_dangling_ref_once<'a>(
    files: Seq<FileDescriptorProto>,
    requested: Seq<String>,
    config: CodeGenConfig,
    unmatched: Seq<(String, FeatureOverride)>,
    excludes: Seq<Seq<char>>,
    plan: PlanText<'a>,
)
    requires
        planned::<'a>(files, requested, config, unmatched) == Ok::<PlanText<'a>, ErrorText>(plan),
        plan::exclusions(config.exclude_packages@, config.exclude_packages@.len()) == Ok::<
            Seq<Seq<char>>,
            ErrorText,
        >(excludes),
    ensures
        excluded_refs::warned_once(plan.warnings),
        forall|f: Seq<char>, fqn: Seq<char>| #[trigger]
            excluded_refs::warned(plan.warnings, f, fqn) <==> excluded_refs::is_dangling(
                grouping::scan_of(
                    config,
                    files,
                    plan::kept(files, requested, excludes, requested.len()),
                ),
                fqn,
            ) && grouping::packages_refer(plan.packages, plan.packages.len(), f, fqn),
{
    let kept = plan::kept(files, requested, excludes, requested.len());
    let before = plan::config_warnings(config, files, unmatched, excludes);
    plan::lemma_config_warnings(config, files, unmatched, excludes);
    assert forall|f: Seq<char>, fqn: Seq<char>| !#[trigger] excluded_refs::warned(
        before,
        f,
        fqn,
    ) by {
        if excluded_refs::warned(before, f, fqn) {
            let i = choose|i: int|
                0 <= i < before.len() && excluded_refs::is_about(#[trigger] before[i], f, fqn);
            assert(before[i] is ExcludedPackageFieldRef);
        }
    }
    assert(excluded_refs::warned_once(before));
    grouping::law_scan_reports_every_dangling_ref_once(
        grouping::scan_of(config, files, kept),
        plan.packages,
        plan.packages.len(),
        before,
    );
}

/// A plan that excludes packages generates no file of theirs: every planned file
/// was asked for, and the package of each is its own and is not excluded.
pub proof fn law_plan_leaves_excluded_packages_out<'a>(
    files: Seq<FileDescriptorProto>,
    requested: Seq<String>,
    config: CodeGenConfig,
    unmatched: Seq<(String, FeatureOverride)>,
    excludes: Seq<Seq<char>>,
    plan: PlanText<'a>,
    i: int,
    j: int,
)
    requires
        planned::<'a>(files, requested, config, unmatched) == Ok::<PlanText<'a>, ErrorText>(plan),
        plan::exclusions(config.exclude_packages@, config.exclude_packages@.len()) == Ok::<
            Seq<Seq<char>>,
            ErrorText,
        >(excludes),
        0 <= i < plan.packages.len(),
        0 <= j < plan.packages[i].1.len(),
    ensures
        plan.packages[i].1[j].package_text() == plan.packages[i].0,
        !packages::excluded(plan.packages[i].0, excludes),
{
    let kept = plan::kept(files, requested, excludes, requested.len());
    let name = plan.packages[i].0;
    assert(plan.packages[i] == grouping::grouped(files, kept)[i]);
    grouping::lemma_group_member(files, kept, name, kept.len(), j);
    let k = choose|k: int|
        0 <= k < kept.len() && plan.packages[i].1[j] == &grouping::file_at(
            files,
            #[trigger] kept[k],
        );
    assert(kept.contains(kept[k]));
    plan::law_excluded_files_are_left_out(files, requested, excludes, kept[k]);
    grouping::lemma_none_missing(files, kept, 0);
}

} // verus!
