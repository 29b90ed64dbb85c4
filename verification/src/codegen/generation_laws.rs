//! What generation as a whole puts out, and of what.
use vstd::prelude::*;
use vstd::string::*;
use crate::codegen::config::CodeGenConfig;
use crate::codegen::content::{CandidateText, RegistryText};
use crate::codegen::content_laws;
use crate::codegen::descriptor;
use crate::codegen::descriptor::{DescriptorProto, EnumDescriptorProto, FileDescriptorProto};
use crate::codegen::errors::ErrorText;
use crate::codegen::files;
use crate::codegen::files::{FileText, GeneratedFileKind};
use crate::codegen::generate;
use crate::codegen::generate::{PackageOutput, PlanText};
use crate::codegen::grouping;
use crate::codegen::package;
use crate::codegen::package_laws;
use crate::codegen::plan;
use crate::codegen::root_names;
use crate::codegen::text;
use crate::codegen::warning;
use crate::codegen::warning::WarningText;

verus! {

/// What the package at `i` goes to. The impls of custom types go to the first
/// package, and to no other.
pub open spec fn files_of_package(
    config: CodeGenConfig,
    plan: PlanText<'_>,
    backend: Seq<PackageOutput>,
    i: int,
) -> Result<Seq<FileText>, ErrorText> {
    package::package_files(
        config,
        plan.packages[i].0,
        plan.packages[i].1,
        backend[i].outputs@,
        backend[i].pieces,
        if i == 0 {
            plan.custom_elem_impls
        } else {
            Seq::empty()
        },
    )
}

proof fn lemma_packages(
    config: CodeGenConfig,
    plan: PlanText<'_>,
    backend: Seq<PackageOutput>,
    k: nat,
)
    requires
        k <= plan.packages.len(),
    ensures
        match generate::packages_files(config, plan, backend, k) {
            Ok(out) => {
                &&& forall|i: int| 0 <= i < k ==> #[trigger] files_of_package(
                    config,
                    plan,
                    backend,
                    i,
                ) is Ok
                &&& out == Seq::new(
                    k,
                    |i: int| files_of_package(config, plan, backend, i)->Ok_0,
                ).flatten_alt()
            },
            Err(e) => exists|i: int|
                {
                    &&& 0 <= i < k
                    &&& (#[trigger] files_of_package(config, plan, backend, i)) == Err::<
                        Seq<FileText>,
                        ErrorText,
                    >(e)
                    &&& forall|j: int| 0 <= j < i ==> #[trigger] files_of_package(
                        config,
                        plan,
                        backend,
                        j,
                    ) is Ok
                },
        },
    decreases k,
{
    let all = Seq::new(k, |i: int| files_of_package(config, plan, backend, i)->Ok_0);
    if k == 0 {
        assert(all =~= Seq::<Seq<FileText>>::empty());
    } else {
        lemma_packages(config, plan, backend, (k - 1) as nat);
        assert(all.drop_last() =~= Seq::new(
            (k - 1) as nat,
            |i: int| files_of_package(config, plan, backend, i)->Ok_0,
        ));
        assert(generate::impls_for(plan, k - 1) =~= if k == 1 {
            plan.custom_elem_impls
        } else {
            Seq::empty()
        });
        let last = files_of_package(config, plan, backend, k - 1);
        if generate::packages_files(config, plan, backend, (k - 1) as nat) is Ok {
            if last is Err {
                assert(files_of_package(config, plan, backend, k - 1) == Err::<
                    Seq<FileText>,
                    ErrorText,
                >(last->Err_0));
            }
        }
    }
}

/// The output is what each package of the plan goes to, package by package; or the
/// error of the first package that fails.
pub proof fn law_output_is_that_of_each_package(
    config: CodeGenConfig,
    plan: PlanText<'_>,
    backend: Seq<PackageOutput>,
)
    ensures
        match generate::packages_files(config, plan, backend, plan.packages.len()) {
            Ok(out) => {
                &&& forall|i: int| 0 <= i < plan.packages.len() ==> #[trigger] files_of_package(
                    config,
                    plan,
                    backend,
                    i,
                ) is Ok
                &&& out == Seq::new(
                    plan.packages.len(),
                    |i: int| files_of_package(config, plan, backend, i)->Ok_0,
                ).flatten_alt()
            },
            Err(e) => exists|i: int|
                {
                    &&& 0 <= i < plan.packages.len()
                    &&& (#[trigger] files_of_package(config, plan, backend, i)) == Err::<
                        Seq<FileText>,
                        ErrorText,
                    >(e)
                    &&& forall|j: int| 0 <= j < i ==> #[trigger] files_of_package(
                        config,
                        plan,
                        backend,
                        j,
                    ) is Ok
                },
        },
{
    lemma_packages(config, plan, backend, plan.packages.len());
}

proof fn lemma_no_stitcher(all: Seq<FileText>)
    requires
        forall|i: int| 0 <= i < all.len() ==> package_laws::is_content((#[trigger] all[i]).kind),
    ensures
        package_laws::of_kind(all, GeneratedFileKind::PackageMod) == Seq::<FileText>::empty(),
    decreases all.len(),
{
    reveal(Seq::filter);
    if all.len() > 0 {
        let init = all.drop_last();
        assert forall|i: int| 0 <= i < init.len() implies package_laws::is_content(
            (#[trigger] init[i]).kind,
        ) by {
            assert(init[i] == all[i]);
        }
        assert(all[all.len() - 1] == all.last());
        lemma_no_stitcher(init);
    }
    assert(package_laws::of_kind(all, GeneratedFileKind::PackageMod) =~= Seq::<FileText>::empty());
}

/// Every package of the plan has exactly one stitcher in the output, in the order of
/// the plan.
pub proof fn law_every_package_has_one_stitcher(
    config: CodeGenConfig,
    plan: PlanText<'_>,
    backend: Seq<PackageOutput>,
    k: nat,
    out: Seq<FileText>,
)
    requires
        generate::backend_fits(plan, backend),
        k <= plan.packages.len(),
        generate::packages_files(config, plan, backend, k) == Ok::<Seq<FileText>, ErrorText>(out),
    ensures
        package_laws::of_kind(out, GeneratedFileKind::PackageMod).map_values(
            |f: FileText| f.package,
        ) == plan.packages.take(k as int).map_values(
            |p: (Seq<char>, Seq<&FileDescriptorProto>)| p.0,
        ),
    decreases k,
{
    let stitchers = package_laws::of_kind(out, GeneratedFileKind::PackageMod);
    let package_of = |f: FileText| f.package;
    let name_of = |p: (Seq<char>, Seq<&FileDescriptorProto>)| p.0;
    if k == 0 {
        reveal(Seq::filter);
        assert(stitchers =~= Seq::<FileText>::empty());
        assert(stitchers.map_values(package_of) =~= plan.packages.take(0).map_values(name_of));
    } else {
        lemma_packages(config, plan, backend, k);
        let before = generate::packages_files(config, plan, backend, (k - 1) as nat)->Ok_0;
        law_every_package_has_one_stitcher(config, plan, backend, (k - 1) as nat, before);
        let (name, members) = plan.packages[k - 1];
        let outputs = backend[k - 1].outputs@;
        let own = files_of_package(config, plan, backend, k - 1)->Ok_0;
        assert(generate::impls_for(plan, k - 1) =~= if k == 1 {
            plan.custom_elem_impls
        } else {
            Seq::empty()
        });
        assert(out == before + own);
        package_laws::law_package_ends_in_its_stitcher(
            config,
            name,
            members,
            outputs,
            backend[k - 1].pieces,
            if k == 1 {
                plan.custom_elem_impls
            } else {
                Seq::empty()
            },
            own,
        );
        let p = package::progress(config, name, members, outputs, members.len())->Ok_0;
        if config.file_per_package {
            package_laws::law_one_file_holds_all_code(
                config,
                name,
                members,
                outputs,
                members.len(),
                p,
                GeneratedFileKind::Owned,
            );
        } else {
            package_laws::law_every_content_file_is_pulled_in_once(
                config,
                name,
                members,
                outputs,
                members.len(),
                p,
                GeneratedFileKind::Owned,
            );
        }
        lemma_no_stitcher(p.files);
        let is = |f: FileText| f.kind == GeneratedFileKind::PackageMod;
        reveal(Seq::filter);
        assert(own.drop_last() == p.files);
        assert(own.filter(is) =~= seq![own.last()]);
        Seq::filter_distributes_over_add(before, own, is);
        assert(plan.packages.take(k as int).map_values(name_of) =~= plan.packages.take(
            k - 1,
        ).map_values(name_of).push(name));
        assert(stitchers.map_values(package_of) =~= plan.packages.take(k as int).map_values(
            name_of,
        ));
    }
}

/// What is warned of is what the plan warns of, and then what the generators of each
/// package do, package by package.
pub proof fn law_no_warning_is_lost(plan: PlanText<'_>, backend: Seq<PackageOutput>)
    ensures
        generate::all_warnings(plan, backend, backend.len()) == plan.warnings + backend.map_values(
            |b: PackageOutput| warning::warning_texts(b.warnings@),
        ).flatten_alt(),
{
    lemma_warnings(plan, backend, backend.len());
    assert(backend.take(backend.len() as int) =~= backend);
}

proof fn lemma_warnings(plan: PlanText<'_>, backend: Seq<PackageOutput>, k: nat)
    requires
        k <= backend.len(),
    ensures
        generate::all_warnings(plan, backend, k) == plan.warnings + backend.take(
            k as int,
        ).map_values(|b: PackageOutput| warning::warning_texts(b.warnings@)).flatten_alt(),
    decreases k,
{
    let f = |b: PackageOutput| warning::warning_texts(b.warnings@);
    let all = backend.take(k as int).map_values(f);
    if k == 0 {
        assert(all =~= Seq::<Seq<WarningText>>::empty());
        assert(plan.warnings + all.flatten_alt() =~= plan.warnings);
    } else {
        lemma_warnings(plan, backend, (k - 1) as nat);
        assert(all.drop_last() =~= backend.take(k - 1).map_values(f));
        assert(generate::all_warnings(plan, backend, k) =~= plan.warnings + all.flatten_alt());
    }
}

/// An exclusion entry covers a package: it is the package, or what stands before one
/// of the dots in it.
pub open spec fn covers(entry: Seq<char>, package: Seq<char>) -> bool {
    ||| package == entry
    ||| entry.len() < package.len() && package.take(entry.len() as int) == entry
        && package[entry.len() as int] == '.'
}

/// A requested file is generated: it is not there, which is reported later, or no
/// entry covers its package.
pub open spec fn is_kept(
    all: Seq<FileDescriptorProto>,
    name: String,
    excludes: Seq<Seq<char>>,
) -> bool {
    match descriptor::file_from(all, name@, 0) {
        None => true,
        Some(i) => forall|e: int|
            0 <= e < excludes.len() ==> !covers(
                #[trigger] excludes[e],
                match all[i].package {
                    Some(p) => p@,
                    None => Seq::empty(),
                },
            ),
    }
}

/// The files that are generated are those of the requested ones that no entry
/// excludes, in the order in which they were requested, and as often.
pub proof fn law_kept_files_are_the_others(
    all: Seq<FileDescriptorProto>,
    requested: Seq<String>,
    excludes: Seq<Seq<char>>,
)
    ensures
        plan::kept(all, requested, excludes, requested.len()) == requested.filter(
            |name: String| is_kept(all, name, excludes),
        ),
{
    lemma_kept(all, requested, excludes, requested.len());
    assert(requested.take(requested.len() as int) =~= requested);
}

proof fn lemma_kept(
    all: Seq<FileDescriptorProto>,
    requested: Seq<String>,
    excludes: Seq<Seq<char>>,
    k: nat,
)
    requires
        k <= requested.len(),
    ensures
        plan::kept(all, requested, excludes, k) == requested.take(k as int).filter(
            |name: String| is_kept(all, name, excludes),
        ),
    decreases k,
{
    reveal(Seq::filter);
    let keep = |name: String| is_kept(all, name, excludes);
    if k == 0 {
        assert(requested.take(0).filter(keep) =~= Seq::<String>::empty());
    } else {
        lemma_kept(all, requested, excludes, (k - 1) as nat);
        let front = requested.take(k as int);
        let name = requested[k - 1];
        assert(front.drop_last() =~= requested.take(k - 1));
        assert(front.last() == name);
        assert(plan::keeps(all, name, excludes) == is_kept(all, name, excludes)) by {
            if let Some(i) = descriptor::file_from(all, name@, 0) {
                reveal_strlit("");
                let package = match all[i].package {
                    Some(p) => p@,
                    None => Seq::<char>::empty(),
                };
                assert(""@ =~= Seq::<char>::empty());
                assert(all[i].package_text() =~= package);
                assert forall|e: int| 0 <= e < excludes.len() implies
                    crate::codegen::packages::covers(#[trigger] excludes[e], package) == covers(
                    excludes[e],
                    package,
                ) by {
                    lemma_covers(excludes[e], package);
                }
            }
        }
    }
}

proof fn lemma_covers(entry: Seq<char>, package: Seq<char>)
    ensures
        crate::codegen::packages::covers(entry, package) == covers(entry, package),
{
    reveal_strlit(".");
    let front = entry + "."@;
    if text::begins(package, front) {
        assert(package.subrange(0, front.len() as int) == front);
        assert(package[entry.len() as int] == package.subrange(
            0,
            front.len() as int,
        )[entry.len() as int]);
        assert(package.take(entry.len() as int) =~= entry) by {
            assert forall|k: int| 0 <= k < entry.len() implies package[k] == entry[k] by {
                assert(package.subrange(0, front.len() as int)[k] == front[k]);
            }
        }
    }
    if entry.len() < package.len() && package.take(entry.len() as int) == entry
        && package[entry.len() as int] == '.' {
        assert(package.subrange(0, front.len() as int) =~= front) by {
            assert forall|k: int| 0 <= k < entry.len() implies package[k] == entry[k] by {
                assert(package.take(entry.len() as int)[k] == entry[k]);
            }
        }
    }
}

/// The exclusion entries are matched as they were written, without white space around
/// them and without a leading dot; and none of them is dropped.
pub proof fn law_every_entry_is_matched(entries: Seq<String>, list: Seq<Seq<char>>)
    requires
        plan::exclusions(entries, entries.len()) == Ok::<Seq<Seq<char>>, ErrorText>(list),
    ensures
        list.len() == entries.len(),
        forall|i: int|
            0 <= i < entries.len() ==> {
                let trimmed = text::trimmed((#[trigger] entries[i])@);
                &&& list[i] == if trimmed.len() > 0 && trimmed[0] == '.' {
                    trimmed.skip(1)
                } else {
                    trimmed
                }
                &&& list[i].len() > 0
            },
{
    lemma_entries(entries, entries.len(), list);
}

proof fn lemma_entries(entries: Seq<String>, k: nat, list: Seq<Seq<char>>)
    requires
        k <= entries.len(),
        plan::exclusions(entries, k) == Ok::<Seq<Seq<char>>, ErrorText>(list),
    ensures
        list.len() == k,
        forall|i: int|
            0 <= i < k ==> {
                let trimmed = text::trimmed((#[trigger] entries[i])@);
                &&& list[i] == if trimmed.len() > 0 && trimmed[0] == '.' {
                    trimmed.skip(1)
                } else {
                    trimmed
                }
                &&& list[i].len() > 0
            },
    decreases k,
{
    if k > 0 {
        reveal_strlit(".");
        let before = plan::exclusions(entries, (k - 1) as nat)->Ok_0;
        lemma_entries(entries, (k - 1) as nat, before);
        let trimmed = text::trimmed(entries[k - 1]@);
        assert(text::begins(trimmed, "."@) <==> trimmed.len() > 0 && trimmed[0] == '.') by {
            if text::begins(trimmed, "."@) {
                assert(trimmed.subrange(0, 1)[0] == trimmed[0]);
            }
            if trimmed.len() > 0 && trimmed[0] == '.' {
                assert(trimmed.subrange(0, 1) =~= "."@);
            }
        }
        let entry = list[k - 1];
        assert(entry.len() > 0) by {
            if entry.len() == 0 {
                text::lemma_find_from(entry, "."@, 0);
                assert(text::pieces(entry, "."@)[0].len() == 0);
            }
        }
    }
}

/// An entry that covers the package of no file is warned of, and no other is.
pub proof fn law_entries_without_a_package_are_warned_of(
    all: Seq<FileDescriptorProto>,
    excludes: Seq<Seq<char>>,
)
    ensures
        plan::inert_exclusions(all, excludes, excludes.len()) == excludes.filter(
            |entry: Seq<char>|
                forall|i: int|
                    0 <= i < all.len() ==> !covers(entry, (#[trigger] all[i]).package_text()),
        ).map_values(
            |entry: Seq<char>| WarningText::ExcludePackageMatchedNothing { package: entry },
        ),
{
    lemma_inert(all, excludes, excludes.len());
    assert(excludes.take(excludes.len() as int) =~= excludes);
}

proof fn lemma_inert(all: Seq<FileDescriptorProto>, excludes: Seq<Seq<char>>, k: nat)
    requires
        k <= excludes.len(),
    ensures
        plan::inert_exclusions(all, excludes, k) == excludes.take(k as int).filter(
            |entry: Seq<char>|
                forall|i: int|
                    0 <= i < all.len() ==> !covers(entry, (#[trigger] all[i]).package_text()),
        ).map_values(
            |entry: Seq<char>| WarningText::ExcludePackageMatchedNothing { package: entry },
        ),
    decreases k,
{
    reveal(Seq::filter);
    let none = |entry: Seq<char>|
        forall|i: int|
            0 <= i < all.len() ==> !covers(entry, (#[trigger] all[i]).package_text());
    let warn = |entry: Seq<char>| WarningText::ExcludePackageMatchedNothing { package: entry };
    let front = excludes.take(k as int);
    if k == 0 {
        assert(front.filter(none).map_values(warn) =~= Seq::<WarningText>::empty());
    } else {
        lemma_inert(all, excludes, (k - 1) as nat);
        let entry = excludes[k - 1];
        assert(front.drop_last() =~= excludes.take(k - 1));
        assert(front.last() == entry);
        assert(plan::entry_matches(all, entry) == !none(entry)) by {
            assert forall|i: int| 0 <= i < all.len() implies crate::codegen::packages::covers(
                entry,
                (#[trigger] all[i]).package_text(),
            ) == covers(entry, all[i].package_text()) by {
                lemma_covers(entry, all[i].package_text());
            }
            if plan::entry_matches(all, entry) {
                let i = choose|i: int|
                    0 <= i < all.len() && crate::codegen::packages::covers(
                        entry,
                        (#[trigger] all[i]).package_text(),
                    );
                assert(covers(entry, all[i].package_text()));
            }
        }
        let before = excludes.take(k - 1).filter(none);
        if none(entry) {
            assert(front.filter(none) =~= before.push(entry));
            assert(before.push(entry).map_values(warn) =~= before.map_values(warn).push(
                warn(entry),
            ));
        }
    }
}

/// A package has those of the requested files that are in it, in the order in which
/// they were requested, and as often.
pub proof fn law_a_package_has_its_files(
    all: Seq<FileDescriptorProto>,
    requested: Seq<String>,
    name: Seq<char>,
)
    ensures
        grouping::files_in(all, requested, name, requested.len()) == requested.filter(
            |r: String| grouping::file_at(all, r).package_text() == name,
        ).map_values(|r: String| &grouping::file_at(all, r)),
{
    lemma_files_in(all, requested, name, requested.len());
    assert(requested.take(requested.len() as int) =~= requested);
}

proof fn lemma_files_in(
    all: Seq<FileDescriptorProto>,
    requested: Seq<String>,
    name: Seq<char>,
    k: nat,
)
    requires
        k <= requested.len(),
    ensures
        grouping::files_in(all, requested, name, k) == requested.take(k as int).filter(
            |r: String| grouping::file_at(all, r).package_text() == name,
        ).map_values(|r: String| &grouping::file_at(all, r)),
    decreases k,
{
    reveal(Seq::filter);
    let mine = |r: String| grouping::file_at(all, r).package_text() == name;
    let found = |r: String| &grouping::file_at(all, r);
    let front = requested.take(k as int);
    if k == 0 {
        assert(front.filter(mine).map_values(found) =~= Seq::<&FileDescriptorProto>::empty());
    } else {
        lemma_files_in(all, requested, name, (k - 1) as nat);
        assert(front.drop_last() =~= requested.take(k - 1));
        assert(front.last() == requested[k - 1]);
        let before = requested.take(k - 1).filter(mine);
        if mine(requested[k - 1]) {
            assert(front.filter(mine) =~= before.push(requested[k - 1]));
            assert(before.push(requested[k - 1]).map_values(found) =~= before.map_values(
                found,
            ).push(found(requested[k - 1])));
        }
    }
}

/// The lines that pull the companions of a package in.
pub open spec fn companion_lines(companions: Seq<FileText>, name: Seq<char>) -> Seq<char> {
    companions.filter(|c: FileText| c.package == name).map_values(
        |c: FileText| "include!(\""@ + c.name + "\");\n"@,
    ).flatten_alt()
}

/// A file is the first stitcher of its package.
pub open spec fn is_first_stitcher(all: Seq<FileText>, i: int) -> bool {
    &&& 0 <= i < all.len()
    &&& all[i].kind == GeneratedFileKind::PackageMod
    &&& forall|j: int|
        0 <= j < i ==> !((#[trigger] all[j]).kind == GeneratedFileKind::PackageMod
            && all[j].package == all[i].package)
}

proof fn lemma_stitcher_from(all: Seq<FileText>, name: Seq<char>, k: int)
    requires
        0 <= k,
    ensures
        match files::stitcher_from(all, name, k) {
            Some(i) => k <= i < all.len() && all[i].kind == GeneratedFileKind::PackageMod
                && all[i].package == name && forall|j: int|
                k <= j < i ==> !((#[trigger] all[j]).kind == GeneratedFileKind::PackageMod
                    && all[j].package == name),
            None => forall|j: int|
                k <= j < all.len() ==> !((#[trigger] all[j]).kind == GeneratedFileKind::PackageMod
                    && all[j].package == name),
        },
    decreases all.len() - k,
{
    if k < all.len() {
        lemma_stitcher_from(all, name, k + 1);
    }
}

/// Each companion is pulled in once, by the stitcher of its own package, in the order
/// in which they came and behind what the stitcher held; no other file changes.
pub proof fn law_companions_are_pulled_in_by_their_stitcher(
    all: Seq<FileText>,
    companions: Seq<FileText>,
    i: int,
)
    requires
        0 <= i < all.len(),
    ensures
        ({
            let after = files::with_companions(all, companions);
            &&& after.len() == all.len()
            &&& after[i].name == all[i].name
            &&& after[i].package == all[i].package
            &&& after[i].kind == all[i].kind
            &&& after[i].content == if is_first_stitcher(all, i) {
                all[i].content + companion_lines(companions, all[i].package)
            } else {
                all[i].content
            }
        }),
    decreases companions.len(),
{
    reveal(Seq::filter);
    let name = all[i].package;
    let own = |c: FileText| c.package == name;
    let line = |c: FileText| "include!(\""@ + c.name + "\");\n"@;
    if companions.len() == 0 {
        assert(companions.filter(own).map_values(line) =~= Seq::<Seq<char>>::empty());
        assert(all[i].content + companion_lines(companions, name) =~= all[i].content);
    } else {
        let init = companions.drop_last();
        let c = companions.last();
        let before = files::with_companions(all, init);
        law_companions_are_pulled_in_by_their_stitcher(all, init, i);
        assert forall|j: int| 0 <= j < all.len() implies (#[trigger] before[j]).kind == all[j].kind
            && before[j].package == all[j].package by {
            law_companions_are_pulled_in_by_their_stitcher(all, init, j);
        }
        lemma_stitcher_from(before, c.package, 0);
        let at = files::stitcher_from(before, c.package, 0);
        assert(is_first_stitcher(all, i) && c.package == name <==> at == Some(i)) by {
            if at == Some(i) {
                assert forall|j: int| 0 <= j < i implies !((#[trigger] all[j]).kind
                    == GeneratedFileKind::PackageMod && all[j].package == all[i].package) by {
                    assert(before[j].kind == all[j].kind);
                }
            }
            if is_first_stitcher(all, i) && c.package == name {
                assert(before[i].kind == all[i].kind);
                if let Some(j) = at {
                    assert(before[j].kind == all[j].kind);
                }
            }
        }
        let lines = companions.filter(own).map_values(line);
        if c.package == name {
            let mine = init.filter(own);
            assert(companions.filter(own) =~= mine.push(c));
            assert(mine.push(c).map_values(line) =~= mine.map_values(line).push(line(c)));
            assert(lines.drop_last() =~= mine.map_values(line));
            assert(companion_lines(companions, name) == companion_lines(init, name) + line(c));
            let x = all[i].content;
            let y = companion_lines(init, name);
            assert(x + (y + line(c)) =~= x + y + line(c));
        }
    }
}

/// A message or an enum of one of a package's files takes a name at the root of the
/// package: by its type, or by the module of what is nested in it.
pub open spec fn takes_name(
    config: CodeGenConfig,
    members: Seq<&FileDescriptorProto>,
    n: Seq<char>,
) -> bool {
    ||| exists|f: int, m: int|
        0 <= f < members.len() && 0 <= m < members[f].message_type@.len() && (n
            == config.type_name_prefix@ + descriptor::text_or(
            (#[trigger] members[f].message_type@[m]).name,
            ""@,
        ) || n == members[f].message_type@[m].nested_module_name@)
    ||| exists|f: int, e: int|
        0 <= f < members.len() && 0 <= e < members[f].enum_type@.len() && n
            == config.type_name_prefix@ + descriptor::text_or(
            (#[trigger] members[f].enum_type@[e]).name,
            ""@,
        )
}

/// A candidate can be re-exported: nothing else at the root of the package has its
/// name, and no other candidate has.
pub open spec fn is_free(
    config: CodeGenConfig,
    members: Seq<&FileDescriptorProto>,
    candidates: Seq<CandidateText>,
    i: int,
) -> bool {
    let n = candidates[i].name;
    &&& n != "__buffa"@
    &&& !takes_name(config, members, n)
    &&& config.generate_reflection ==> n != "descriptor_pool"@ && n
        != "FILE_DESCRIPTOR_SET_BYTES"@
    &&& forall|j: int| 0 <= j < candidates.len() && j != i ==> (#[trigger] candidates[j]).name != n
}

proof fn lemma_occupied(
    config: CodeGenConfig,
    members: Seq<&FileDescriptorProto>,
    k: nat,
    n: Seq<char>,
)
    requires
        k <= members.len(),
    ensures
        root_names::files_occupy(config, members, k, n) <==> takes_name(
            config,
            members.take(k as int),
            n,
        ),
    decreases k,
{
    let front = members.take(k as int);
    if k > 0 {
        lemma_occupied(config, members, (k - 1) as nat, n);
        let before = members.take(k - 1);
        let file = *members[k - 1];
        lemma_messages_occupy(config, file.message_type@, file.message_type@.len(), n);
        lemma_enums_occupy(config, file.enum_type@, file.enum_type@.len(), n);
        if takes_name(config, before, n) {
            if exists|f: int, m: int|
                0 <= f < before.len() && 0 <= m < before[f].message_type@.len() && (n
                    == config.type_name_prefix@ + descriptor::text_or(
                    (#[trigger] before[f].message_type@[m]).name,
                    ""@,
                ) || n == before[f].message_type@[m].nested_module_name@) {
                let (f, m) = choose|f: int, m: int|
                    0 <= f < before.len() && 0 <= m < before[f].message_type@.len() && (n
                        == config.type_name_prefix@ + descriptor::text_or(
                        (#[trigger] before[f].message_type@[m]).name,
                        ""@,
                    ) || n == before[f].message_type@[m].nested_module_name@);
                assert(front[f].message_type@[m] == before[f].message_type@[m]);
            } else {
                let (f, e) = choose|f: int, e: int|
                    0 <= f < before.len() && 0 <= e < before[f].enum_type@.len() && n
                        == config.type_name_prefix@ + descriptor::text_or(
                        (#[trigger] before[f].enum_type@[e]).name,
                        ""@,
                    );
                assert(front[f].enum_type@[e] == before[f].enum_type@[e]);
            }
        }
        if root_names::messages_occupy(config, file.message_type@, file.message_type@.len(), n) {
            let m = choose|m: int|
                0 <= m < file.message_type@.len() && (n == config.type_name_prefix@
                    + descriptor::text_or((#[trigger] file.message_type@[m]).name, ""@) || n
                    == file.message_type@[m].nested_module_name@);
            assert(front[k - 1].message_type@[m] == file.message_type@[m]);
        }
        if root_names::enums_occupy(config, file.enum_type@, file.enum_type@.len(), n) {
            let e = choose|e: int|
                0 <= e < file.enum_type@.len() && n == config.type_name_prefix@
                    + descriptor::text_or((#[trigger] file.enum_type@[e]).name, ""@);
            assert(front[k - 1].enum_type@[e] == file.enum_type@[e]);
        }
        if takes_name(config, front, n) {
            if exists|f: int, m: int|
                0 <= f < front.len() && 0 <= m < front[f].message_type@.len() && (n
                    == config.type_name_prefix@ + descriptor::text_or(
                    (#[trigger] front[f].message_type@[m]).name,
                    ""@,
                ) || n == front[f].message_type@[m].nested_module_name@) {
                let (f, m) = choose|f: int, m: int|
                    0 <= f < front.len() && 0 <= m < front[f].message_type@.len() && (n
                        == config.type_name_prefix@ + descriptor::text_or(
                        (#[trigger] front[f].message_type@[m]).name,
                        ""@,
                    ) || n == front[f].message_type@[m].nested_module_name@);
                if f < k - 1 {
                    assert(before[f].message_type@[m] == front[f].message_type@[m]);
                } else {
                    assert(file.message_type@[m] == front[f].message_type@[m]);
                }
            } else {
                let (f, e) = choose|f: int, e: int|
                    0 <= f < front.len() && 0 <= e < front[f].enum_type@.len() && n
                        == config.type_name_prefix@ + descriptor::text_or(
                        (#[trigger] front[f].enum_type@[e]).name,
                        ""@,
                    );
                if f < k - 1 {
                    assert(before[f].enum_type@[e] == front[f].enum_type@[e]);
                } else {
                    assert(file.enum_type@[e] == front[f].enum_type@[e]);
                }
            }
        }
    }
}

proof fn lemma_messages_occupy(
    config: CodeGenConfig,
    messages: Seq<DescriptorProto>,
    k: nat,
    n: Seq<char>,
)
    requires
        k <= messages.len(),
    ensures
        root_names::messages_occupy(config, messages, k, n) <==> exists|m: int|
            0 <= m < k && (n == config.type_name_prefix@ + descriptor::text_or(
                (#[trigger] messages[m]).name,
                ""@,
            ) || n == messages[m].nested_module_name@),
    decreases k,
{
    if k > 0 {
        lemma_messages_occupy(config, messages, (k - 1) as nat, n);
    }
}

proof fn lemma_enums_occupy(
    config: CodeGenConfig,
    enums: Seq<EnumDescriptorProto>,
    k: nat,
    n: Seq<char>,
)
    requires
        k <= enums.len(),
    ensures
        root_names::enums_occupy(config, enums, k, n) <==> exists|e: int|
            0 <= e < k && n == config.type_name_prefix@ + descriptor::text_or(
                (#[trigger] enums[e]).name,
                ""@,
            ),
    decreases k,
{
    if k > 0 {
        lemma_enums_occupy(config, enums, (k - 1) as nat, n);
    }
}

/// The code of each candidate that can be re-exported, and nothing for the others.
pub open spec fn free_codes(
    config: CodeGenConfig,
    members: Seq<&FileDescriptorProto>,
    candidates: Seq<CandidateText>,
) -> Seq<Seq<char>> {
    Seq::new(
        candidates.len(),
        |i: int|
            if is_free(config, members, candidates, i) {
                candidates[i].tokens
            } else {
                Seq::empty()
            },
    )
}

/// Every candidate that can be re-exported is, in the order in which they came, and no
/// other.
pub proof fn law_free_names_are_reexported(
    config: CodeGenConfig,
    members: Seq<&FileDescriptorProto>,
    candidates: Seq<CandidateText>,
)
    ensures
        root_names::survivors(config, members, candidates, candidates.len())
            == content_laws::each_on_a_line(free_codes(config, members, candidates)),
{
    let all = free_codes(config, members, candidates);
    lemma_survivors(config, members, candidates, candidates.len());
    assert(all.take(candidates.len() as int) =~= all);
}

proof fn lemma_survivors(
    config: CodeGenConfig,
    members: Seq<&FileDescriptorProto>,
    candidates: Seq<CandidateText>,
    k: nat,
)
    requires
        k <= candidates.len(),
    ensures
        root_names::survivors(config, members, candidates, k) == content_laws::each_on_a_line(
            free_codes(config, members, candidates).take(k as int),
        ),
    decreases k,
{
    let all = free_codes(config, members, candidates);
    if k == 0 {
        assert(all.take(0) =~= Seq::<Seq<char>>::empty());
        content_laws::lemma_no_lines();
    } else {
        lemma_survivors(config, members, candidates, (k - 1) as nat);
        lemma_occupied(config, members, members.len(), candidates[k - 1].name);
        assert(members.take(members.len() as int) =~= members);
        assert(root_names::survives(config, members, candidates, k - 1) == is_free(
            config,
            members,
            candidates,
            k - 1,
        ));
        assert(all.take(k as int) =~= all.take(k - 1).push(all[k - 1]));
        content_laws::lemma_one_more_line(all.take(k - 1), all[k - 1]);
    }
}

/// The registering function could be re-exported too, where there is one.
pub proof fn law_the_registering_function_could_be_reexported(
    config: CodeGenConfig,
    reg: RegistryText,
    candidates: Seq<CandidateText>,
)
    ensures
        ({
            let all = root_names::all_candidates(config, reg, candidates);
            if config.emit_register_fn && reg.json_any.len() + reg.json_ext.len()
                + reg.text_any.len() + reg.text_ext.len() > 0 {
                &&& all.len() == candidates.len() + 1
                &&& all.drop_last() == candidates
                &&& all.last().name == "register_types"@
            } else {
                all == candidates
            }
        }),
{
    let all = root_names::all_candidates(config, reg, candidates);
    if all.len() > candidates.len() {
        assert(all.drop_last() =~= candidates);
    }
}

} // verus!
