//! The requested files by package, and the references among them that lead
//! nowhere.
use vstd::prelude::*;
use vstd::string::*;
use crate::codegen::config::CodeGenConfig;
use crate::codegen::descriptor;
use crate::codegen::descriptor::{find_file, str_or, DescriptorProto, FileDescriptorProto};
use crate::codegen::errors::{CodeGenError, ErrorText};
use crate::codegen::excluded_refs;
use crate::codegen::excluded_refs::{
    collect_fqns_in_file, warn_excluded_refs_field, warn_excluded_refs_msg, ExcludedRefScan,
    ScanText,
};
use crate::codegen::extern_paths;
use crate::codegen::extern_paths::{effective_extern_paths, effective_file_extern_paths};
use crate::codegen::names;
use crate::codegen::names::{NameMap, NameSet};
use crate::codegen::text;
use crate::codegen::warning;
use crate::codegen::warning::{CodeGenWarning, WarningText};

verus! {

/// The first requested file, from the one at `i` on, that is not there.
pub open spec fn missing_file(
    files: Seq<FileDescriptorProto>,
    requested: Seq<String>,
    i: int,
) -> Option<Seq<char>>
    decreases requested.len() - i,
{
    if i < 0 || i >= requested.len() {
        None
    } else if descriptor::file_from(files, requested[i]@, 0) is None {
        Some(requested[i]@)
    } else {
        missing_file(files, requested, i + 1)
    }
}

/// The file that goes by a name.
pub open spec fn file_at(files: Seq<FileDescriptorProto>, name: String) -> FileDescriptorProto {
    files[descriptor::file_from(files, name@, 0)->Some_0]
}

/// Some requested file is in this package.
pub open spec fn has_package(
    files: Seq<FileDescriptorProto>,
    requested: Seq<String>,
    package: Seq<char>,
) -> bool {
    exists|i: int|
        0 <= i < requested.len() && file_at(files, #[trigger] requested[i]).package_text()
            == package
}

/// `packages` is every package that a requested file is in, in order.
pub open spec fn are_packages(
    packages: Seq<Seq<char>>,
    files: Seq<FileDescriptorProto>,
    requested: Seq<String>,
) -> bool {
    &&& names::ascending(packages)
    &&& forall|package: Seq<char>| #[trigger]
        packages.contains(package) <==> has_package(files, requested, package)
}

/// Every package that a requested file is in, in order.
pub open spec fn package_names(files: Seq<FileDescriptorProto>, requested: Seq<String>) -> Seq<
    Seq<char>,
> {
    choose|packages: Seq<Seq<char>>| are_packages(packages, files, requested)
}

/// Those of the first `k` requested files that are in a package, in the order in
/// which they were requested.
pub open spec fn files_in<'a>(
    files: Seq<FileDescriptorProto>,
    requested: Seq<String>,
    package: Seq<char>,
    k: nat,
) -> Seq<&'a FileDescriptorProto>
    decreases k,
{
    if k == 0 || k > requested.len() {
        Seq::empty()
    } else {
        let before = files_in(files, requested, package, (k - 1) as nat);
        let file = file_at(files, requested[k - 1]);
        if file.package_text() == package {
            before.push(&file)
        } else {
            before
        }
    }
}

/// A package to generate, with its files.
#[derive(Debug)]
pub struct PackagePlan<'a> {
    /// The package.
    pub name: String,
    /// The files.
    pub files: Vec<&'a FileDescriptorProto>,
}

/// Packages with their files.
pub open spec fn plan_texts<'a>(packages: Seq<PackagePlan<'a>>) -> Seq<
    (Seq<char>, Seq<&'a FileDescriptorProto>),
> {
    packages.map_values(|p: PackagePlan<'a>| (p.name@, p.files@))
}

/// The requested files by package: the packages in order, and in each the files
/// in the order in which they were requested.
pub open spec fn grouped<'a>(files: Seq<FileDescriptorProto>, requested: Seq<String>) -> Seq<
    (Seq<char>, Seq<&'a FileDescriptorProto>),
> {
    package_names(files, requested).map_values(
        |package: Seq<char>|
            (package, files_in(files, requested, package, requested.len())),
    )
}

/// Check that every requested file is there.
fn check_present(files: &Vec<FileDescriptorProto>, requested: &Vec<String>) -> (result: Result<
    (),
    CodeGenError,
>)
    ensures
        match missing_file(files@, requested@, 0) {
            Some(name) => result is Err && result->Err_0@ == ErrorText::FileNotFound(name),
            None => result is Ok && all_present(files@, requested@),
        },
{
    let mut i: usize = 0;
    while i < requested.len()
        invariant
            i <= requested@.len(),
            missing_file(files@, requested@, 0) == missing_file(files@, requested@, i as int),
            forall|j: int|
                0 <= j < i ==> descriptor::file_from(files@, (#[trigger] requested@[j])@, 0)
                    is Some,
        decreases requested@.len() - i,
    {
        if find_file(files, &requested[i]).is_none() {
            return Err(CodeGenError::FileNotFound(requested[i].clone()));
        }
        i = i + 1;
    }
    Ok(())
}

/// Every requested file is there.
pub open spec fn all_present(files: Seq<FileDescriptorProto>, requested: Seq<String>) -> bool {
    forall|j: int|
        0 <= j < requested.len() ==> descriptor::file_from(
            files,
            (#[trigger] requested[j])@,
            0,
        ) is Some
}

/// The file that goes by a name.
fn present_file<'a>(files: &'a Vec<FileDescriptorProto>, name: &String) -> (file:
    &'a FileDescriptorProto)
    requires
        descriptor::file_from(files@, name@, 0) is Some,
    ensures
        *file == file_at(files@, *name),
{
    match find_file(files, name) {
        Some(at) => &files[at],
        None => &files[0],
    }
}

/// The packages that requested files are in.
fn find_packages(files: &Vec<FileDescriptorProto>, requested: &Vec<String>) -> (packages: NameMap<
    (),
>)
    requires
        all_present(files@, requested@),
    ensures
        packages.wf(),
        packages.keys() == package_names(files@, requested@),
{
    let mut packages: NameMap<()> = NameMap::new();
    let mut i: usize = 0;
    assert forall|package: Seq<char>| !#[trigger] packages.has(package) by {}
    while i < requested.len()
        invariant
            i <= requested@.len(),
            all_present(files@, requested@),
            packages.wf(),
            forall|package: Seq<char>| #[trigger]
                packages.has(package) <==> exists|j: int|
                    0 <= j < i && file_at(files@, #[trigger] requested@[j]).package_text()
                        == package,
        decreases requested@.len() - i,
    {
        let ghost before = packages;
        let file: &FileDescriptorProto = present_file(files, &requested[i]);
        packages.insert_if_absent(file.package_name(), ());
        i = i + 1;
        assert forall|package: Seq<char>| #[trigger] packages.has(package) <==> exists|j: int|
            0 <= j < i && file_at(files@, #[trigger] requested@[j]).package_text() == package by {
            assert(before.has(package) || !before.has(package));
            if file.package_text() == package {
                assert(file_at(files@, requested@[i - 1]).package_text() == package);
            }
        }
    }
    proof {
        let keys = packages.keys();
        assert forall|package: Seq<char>| #[trigger] keys.contains(package) <==> has_package(
            files@,
            requested@,
            package,
        ) by {
            assert(packages.has(package) == keys.contains(package));
            if has_package(files@, requested@, package) {
                let j = choose|j: int|
                    0 <= j < requested@.len() && file_at(
                        files@,
                        #[trigger] requested@[j],
                    ).package_text() == package;
                assert(0 <= j < i);
            }
        }
        assert(are_packages(keys, files@, requested@));
        let other = package_names(files@, requested@);
        assert forall|package: Seq<char>| #[trigger] keys.contains(package) <==> other.contains(
            package,
        ) by {
            assert(other.contains(package) <==> has_package(files@, requested@, package));
        }
        names::lemma_ascending_unique(keys, other);
    }
    packages
}

/// The files of a package.
fn collect_files<'a>(
    files: &'a Vec<FileDescriptorProto>,
    requested: &Vec<String>,
    package: &str,
) -> (out: Vec<&'a FileDescriptorProto>)
    requires
        all_present(files@, requested@),
    ensures
        out@ == files_in(files@, requested@, package@, requested@.len()),
{
    let mut out: Vec<&'a FileDescriptorProto> = Vec::new();
    let mut i: usize = 0;
    while i < requested.len()
        invariant
            i <= requested@.len(),
            all_present(files@, requested@),
            out@ == files_in(files@, requested@, package@, i as nat),
        decreases requested@.len() - i,
    {
        let file: &'a FileDescriptorProto = present_file(files, &requested[i]);
        if text::same(file.package_name(), package) {
            out.push(file);
        }
        i = i + 1;
    }
    out
}

/// Group the requested files by package, in the order of the packages' names.
pub fn group_by_package<'a>(
    files: &'a Vec<FileDescriptorProto>,
    requested: &Vec<String>,
) -> (result: Result<Vec<PackagePlan<'a>>, CodeGenError>)
    ensures
        match missing_file(files@, requested@, 0) {
            Some(name) => result is Err && result->Err_0@ == ErrorText::FileNotFound(name),
            None => result is Ok && plan_texts(result->Ok_0@) == grouped(files@, requested@)
                && all_present(files@, requested@),
        },
{
    match check_present(files, requested) {
        Ok(()) => {},
        Err(e) => return Err(e),
    }
    let packages: NameMap<()> = find_packages(files, requested);
    let ghost all = grouped(files@, requested@);
    let mut out: Vec<PackagePlan<'a>> = Vec::new();
    let mut i: usize = 0;
    assert(plan_texts(out@) =~= all.take(0));
    while i < packages.len()
        invariant
            i <= packages.keys().len(),
            packages.wf(),
            packages.keys() == package_names(files@, requested@),
            all_present(files@, requested@),
            all == grouped(files@, requested@),
            plan_texts(out@) == all.take(i as int),
        decreases packages.keys().len() - i,
    {
        let ghost before = out@;
        let name: &str = packages.key(i);
        let plan = PackagePlan {
            name: name.to_owned(),
            files: collect_files(files, requested, name),
        };
        out.push(plan);
        i = i + 1;
        assert(plan_texts(out@) =~= plan_texts(before).push(all[i - 1]));
        assert(plan_texts(out@) =~= all.take(i as int));
    }
    assert(all.take(all.len() as int) =~= all);
    Ok(out)
}

/// Every requested file is in exactly one group: that of its package.
pub proof fn law_groups_hold_every_file(
    files: Seq<FileDescriptorProto>,
    requested: Seq<String>,
    packages: Seq<Seq<char>>,
    i: int,
)
    requires
        are_packages(packages, files, requested),
        0 <= i < requested.len(),
    ensures
        packages.contains(file_at(files, requested[i]).package_text()),
        files_in(
            files,
            requested,
            file_at(files, requested[i]).package_text(),
            requested.len(),
        ).contains(&file_at(files, requested[i])),
        forall|package: Seq<char>|
            package != file_at(files, requested[i]).package_text() ==> !#[trigger] files_in(
                files,
                requested,
                package,
                requested.len(),
            ).contains(&file_at(files, requested[i])),
{
    let file = file_at(files, requested[i]);
    assert(has_package(files, requested, file.package_text()));
    lemma_files_in(files, requested, file.package_text(), requested.len());
    assert forall|package: Seq<char>| package != file.package_text() implies !#[trigger] files_in(
        files,
        requested,
        package,
        requested.len(),
    ).contains(&file) by {
        lemma_files_in(files, requested, package, requested.len());
    }
}

/// A group holds the files of its package.
proof fn lemma_files_in(
    files: Seq<FileDescriptorProto>,
    requested: Seq<String>,
    package: Seq<char>,
    k: nat,
)
    requires
        k <= requested.len(),
    ensures
        forall|j: int|
            0 <= j < files_in(files, requested, package, k).len() ==> (#[trigger] files_in(
                files,
                requested,
                package,
                k,
            )[j]).package_text() == package,
        forall|i: int|
            0 <= i < k && file_at(files, #[trigger] requested[i]).package_text() == package
                ==> files_in(files, requested, package, k).contains(
                &file_at(files, requested[i]),
            ),
    decreases k,
{
    if k > 0 {
        lemma_files_in(files, requested, package, (k - 1) as nat);
        let before = files_in(files, requested, package, (k - 1) as nat);
        let now = files_in(files, requested, package, k);
        assert forall|i: int|
            0 <= i < k && file_at(files, #[trigger] requested[i]).package_text()
                == package implies now.contains(&file_at(files, requested[i])) by {
            if i == k - 1 {
                assert(now[before.len() as int] == &file_at(files, requested[i]));
            } else {
                let j = before.index_of(&file_at(files, requested[i]));
                assert(now[j] == before[j]);
            }
        }
    }
}

/// The types declared in the requested files.
pub open spec fn declared_in(files: Seq<FileDescriptorProto>, requested: Seq<String>) -> Set<
    Seq<char>,
> {
    Set::new(
        |n: Seq<char>|
            exists|i: int|
                0 <= i < requested.len() && excluded_refs::file_declares(
                    file_at(files, #[trigger] requested[i]),
                    n,
                ),
    )
}

/// The types of files that live in other crates, as far as the files are there.
pub open spec fn declared_elsewhere(
    files: Seq<FileDescriptorProto>,
    paths: Seq<(Seq<char>, Seq<char>)>,
) -> Set<Seq<char>> {
    Set::new(
        |n: Seq<char>|
            exists|i: int|
                {
                    &&& 0 <= i < paths.len()
                    &&& descriptor::file_from(files, (#[trigger] paths[i]).0, 0) is Some
                    &&& excluded_refs::file_declares(
                        files[descriptor::file_from(files, paths[i].0, 0)->Some_0],
                        n,
                    )
                },
    )
}

/// What the search for references that lead nowhere goes by.
pub open spec fn scan_of(
    config: CodeGenConfig,
    files: Seq<FileDescriptorProto>,
    requested: Seq<String>,
) -> ScanText {
    ScanText {
        files,
        extern_paths: extern_paths::extern_paths_in_force(
            files,
            requested,
            config.extern_paths@,
        ),
        declared_in_kept: declared_in(files, requested),
        file_extern_covered: declared_elsewhere(
            files,
            extern_paths::file_extern_paths(requested, config.extern_paths@),
        ),
    }
}

/// The warnings once the first `k` top-level messages have been looked at.
pub open spec fn after_messages(
    scan: ScanText,
    file: Seq<char>,
    messages: Seq<DescriptorProto>,
    k: nat,
    warnings: Seq<WarningText>,
) -> Seq<WarningText>
    decreases k,
{
    if k == 0 || k > messages.len() {
        warnings
    } else {
        excluded_refs::after_message(
            scan,
            file,
            messages[k - 1],
            ""@,
            after_messages(scan, file, messages, (k - 1) as nat, warnings),
        )
    }
}

/// The warnings once a file has been looked at.
pub open spec fn after_file(
    scan: ScanText,
    file: FileDescriptorProto,
    warnings: Seq<WarningText>,
) -> Seq<WarningText> {
    let name = descriptor::text_or(file.name, "?"@);
    excluded_refs::after_extensions(
        scan,
        name,
        ""@,
        file.extension@,
        file.extension@.len(),
        after_messages(scan, name, file.message_type@, file.message_type@.len(), warnings),
    )
}

/// The warnings once the first `k` files have been looked at.
pub open spec fn after_files(
    scan: ScanText,
    files: Seq<&FileDescriptorProto>,
    k: nat,
    warnings: Seq<WarningText>,
) -> Seq<WarningText>
    decreases k,
{
    if k == 0 || k > files.len() {
        warnings
    } else {
        after_file(scan, *files[k - 1], after_files(scan, files, (k - 1) as nat, warnings))
    }
}

/// The warnings once the first `k` packages have been looked at.
pub open spec fn after_packages(
    scan: ScanText,
    packages: Seq<(Seq<char>, Seq<&FileDescriptorProto>)>,
    k: nat,
    warnings: Seq<WarningText>,
) -> Seq<WarningText>
    decreases k,
{
    if k == 0 || k > packages.len() {
        warnings
    } else {
        after_files(
            scan,
            packages[k - 1].1,
            packages[k - 1].1.len(),
            after_packages(scan, packages, (k - 1) as nat, warnings),
        )
    }
}

/// Look at a file.
fn scan_file(
    scan: ExcludedRefScan<'_>,
    file: &FileDescriptorProto,
    warnings: &mut Vec<CodeGenWarning>,
)
    ensures
        warning::warning_texts(final(warnings)@) == after_file(
            scan@,
            *file,
            warning::warning_texts(old(warnings)@),
        ),
{
    let ghost start = warning::warning_texts(warnings@);
    let file_name: &str = str_or(&file.name, "?");
    let mut i: usize = 0;
    while i < file.message_type.len()
        invariant
            i <= file.message_type@.len(),
            warning::warning_texts(warnings@) == after_messages(
                scan@,
                file_name@,
                file.message_type@,
                i as nat,
                start,
            ),
        decreases file.message_type@.len() - i,
    {
        warn_excluded_refs_msg(scan, file_name, &file.message_type[i], "", warnings);
        i = i + 1;
    }
    let ghost with_messages = warning::warning_texts(warnings@);
    let mut j: usize = 0;
    while j < file.extension.len()
        invariant
            j <= file.extension@.len(),
            warning::warning_texts(warnings@) == excluded_refs::after_extensions(
                scan@,
                file_name@,
                ""@,
                file.extension@,
                j as nat,
                with_messages,
            ),
        decreases file.extension@.len() - j,
    {
        warn_excluded_refs_field(scan, file_name, &file.extension[j], "", warnings);
        j = j + 1;
    }
}

/// Look at the files of a package.
fn scan_files(
    scan: ExcludedRefScan<'_>,
    files: &Vec<&FileDescriptorProto>,
    warnings: &mut Vec<CodeGenWarning>,
)
    ensures
        warning::warning_texts(final(warnings)@) == after_files(
            scan@,
            files@,
            files@.len(),
            warning::warning_texts(old(warnings)@),
        ),
{
    let ghost start = warning::warning_texts(warnings@);
    let mut i: usize = 0;
    while i < files.len()
        invariant
            i <= files@.len(),
            warning::warning_texts(warnings@) == after_files(scan@, files@, i as nat, start),
        decreases files@.len() - i,
    {
        scan_file(scan, files[i], warnings);
        i = i + 1;
    }
}

/// The types declared in the requested files.
fn collect_declared(files: &Vec<FileDescriptorProto>, requested: &Vec<String>) -> (out: NameSet)
    requires
        all_present(files@, requested@),
    ensures
        out@ == declared_in(files@, requested@),
{
    let mut out: NameSet = NameSet::new();
    assert(forall|n: Seq<char>| !#[trigger] out.has(n));
    let mut i: usize = 0;
    while i < requested.len()
        invariant
            i <= requested@.len(),
            all_present(files@, requested@),
            out.wf(),
            forall|n: Seq<char>| #[trigger]
                out.has(n) <==> exists|j: int|
                    0 <= j < i && excluded_refs::file_declares(
                        file_at(files@, #[trigger] requested@[j]),
                        n,
                    ),
        decreases requested@.len() - i,
    {
        let ghost before = out;
        let file: &FileDescriptorProto = present_file(files, &requested[i]);
        collect_fqns_in_file(file, &mut out);
        i = i + 1;
        assert forall|n: Seq<char>| #[trigger] out.has(n) <==> exists|j: int|
            0 <= j < i && excluded_refs::file_declares(
                file_at(files@, #[trigger] requested@[j]),
                n,
            ) by {
            assert(before.has(n) || !before.has(n));
            if excluded_refs::file_declares(*file, n) {
                assert(excluded_refs::file_declares(file_at(files@, requested@[i - 1]), n));
            }
        }
    }
    assert(out@ =~= declared_in(files@, requested@));
    out
}

/// The types of files that live in other crates.
fn collect_declared_elsewhere(
    files: &Vec<FileDescriptorProto>,
    paths: &Vec<(String, String)>,
) -> (out: NameSet)
    ensures
        out@ == declared_elsewhere(files@, warning::pair_texts(paths@)),
{
    let ghost pairs = warning::pair_texts(paths@);
    let mut out: NameSet = NameSet::new();
    assert(forall|n: Seq<char>| !#[trigger] out.has(n));
    let mut i: usize = 0;
    while i < paths.len()
        invariant
            i <= paths@.len(),
            pairs == warning::pair_texts(paths@),
            out.wf(),
            forall|n: Seq<char>| #[trigger]
                out.has(n) <==> exists|j: int|
                    {
                        &&& 0 <= j < i
                        &&& descriptor::file_from(files@, (#[trigger] pairs[j]).0, 0) is Some
                        &&& excluded_refs::file_declares(
                            files@[descriptor::file_from(files@, pairs[j].0, 0)->Some_0],
                            n,
                        )
                    },
        decreases paths@.len() - i,
    {
        let ghost before = out;
        let ghost at = descriptor::file_from(files@, paths@[i as int].0@, 0);
        assert(pairs[i as int].0 == paths@[i as int].0@);
        match find_file(files, &paths[i].0) {
            Some(at) => collect_fqns_in_file(&files[at], &mut out),
            None => {},
        }
        i = i + 1;
        assert forall|n: Seq<char>| #[trigger] out.has(n) <==> exists|j: int|
            {
                &&& 0 <= j < i
                &&& descriptor::file_from(files@, (#[trigger] pairs[j]).0, 0) is Some
                &&& excluded_refs::file_declares(
                    files@[descriptor::file_from(files@, pairs[j].0, 0)->Some_0],
                    n,
                )
            } by {
            assert(before.has(n) || !before.has(n));
            if at is Some && excluded_refs::file_declares(files@[at->Some_0], n) {
                assert(descriptor::file_from(files@, pairs[i - 1].0, 0) is Some);
            }
        }
    }
    assert(out@ =~= declared_elsewhere(files@, pairs));
    out
}

/// Warn of every reference from a requested file that leads nowhere: to a type
/// that is neither generated nor mapped to another crate. One warning is given
/// for each file and type.
pub fn warn_excluded_refs(
    config: &CodeGenConfig,
    files: &Vec<FileDescriptorProto>,
    requested: &Vec<String>,
    packages: &Vec<PackagePlan<'_>>,
    warnings: &mut Vec<CodeGenWarning>,
)
    requires
        all_present(files@, requested@),
    ensures
        warning::warning_texts(final(warnings)@) == after_packages(
            scan_of(*config, files@, requested@),
            plan_texts(packages@),
            packages@.len(),
            warning::warning_texts(old(warnings)@),
        ),
{
    let ghost start = warning::warning_texts(warnings@);
    let ghost groups = plan_texts(packages@);
    let extern_paths: Vec<(String, String)> = effective_extern_paths(files, requested, config);
    let file_extern_paths: Vec<(String, String)> = effective_file_extern_paths(requested, config);
    let declared_in_kept: NameSet = collect_declared(files, requested);
    let file_extern_covered: NameSet = collect_declared_elsewhere(files, &file_extern_paths);
    let scan = ExcludedRefScan {
        files,
        extern_paths: &extern_paths,
        declared_in_kept: &declared_in_kept,
        file_extern_covered: &file_extern_covered,
    };
    assert(scan@ == scan_of(*config, files@, requested@));
    let mut i: usize = 0;
    while i < packages.len()
        invariant
            i <= packages@.len(),
            groups == plan_texts(packages@),
            warning::warning_texts(warnings@) == after_packages(scan@, groups, i as nat, start),
        decreases packages@.len() - i,
    {
        assert(groups[i as int].1 == packages@[i as int].files@);
        scan_files(scan, &packages[i].files, warnings);
        i = i + 1;
    }
}

/// One of the first `k` top-level messages refers to a type.
pub open spec fn messages_refer(messages: Seq<DescriptorProto>, k: nat, fqn: Seq<char>) -> bool
    decreases k,
{
    k > 0 && k <= messages.len() && (messages_refer(messages, (k - 1) as nat, fqn)
        || excluded_refs::message_refers(messages[k - 1], fqn))
}

/// A file refers to a type.
pub open spec fn file_refers(file: FileDescriptorProto, fqn: Seq<char>) -> bool {
    ||| messages_refer(file.message_type@, file.message_type@.len(), fqn)
    ||| excluded_refs::extensions_refer(file.extension@, file.extension@.len(), fqn)
}

/// One of the first `k` files goes by the name `name` and refers to a type.
pub open spec fn files_refer(
    files: Seq<&FileDescriptorProto>,
    k: nat,
    name: Seq<char>,
    fqn: Seq<char>,
) -> bool
    decreases k,
{
    k > 0 && k <= files.len() && {
        ||| files_refer(files, (k - 1) as nat, name, fqn)
        ||| descriptor::text_or(files[k - 1].name, "?"@) == name && file_refers(*files[k - 1], fqn)
    }
}

/// A file of one of the first `k` packages goes by the name `name` and refers to
/// a type.
pub open spec fn packages_refer(
    packages: Seq<(Seq<char>, Seq<&FileDescriptorProto>)>,
    k: nat,
    name: Seq<char>,
    fqn: Seq<char>,
) -> bool
    decreases k,
{
    k > 0 && k <= packages.len() && {
        ||| packages_refer(packages, (k - 1) as nat, name, fqn)
        ||| files_refer(packages[k - 1].1, packages[k - 1].1.len(), name, fqn)
    }
}

/// Looking at top-level messages reports the references in them.
proof fn lemma_reports_messages(
    scan: ScanText,
    file: Seq<char>,
    messages: Seq<DescriptorProto>,
    k: nat,
    before: Seq<WarningText>,
)
    requires
        k <= messages.len(),
    ensures
        excluded_refs::reports_refs(
            scan,
            file,
            |fqn: Seq<char>| messages_refer(messages, k, fqn),
            before,
            after_messages(scan, file, messages, k, before),
        ),
    decreases k,
{
    if k > 0 {
        let msg = messages[k - 1];
        let a = after_messages(scan, file, messages, (k - 1) as nat, before);
        let end = excluded_refs::after_message(scan, file, msg, ""@, a);
        let so_far = |fqn: Seq<char>| messages_refer(messages, (k - 1) as nat, fqn);
        let here = |fqn: Seq<char>| excluded_refs::message_refers(msg, fqn);
        let all = |fqn: Seq<char>| messages_refer(messages, k, fqn);
        lemma_reports_messages(scan, file, messages, (k - 1) as nat, before);
        excluded_refs::law_message_scan_reports_its_refs(scan, file, msg, ""@, a);
        excluded_refs::lemma_reports_chain(scan, file, so_far, here, all, before, a, end);
    }
}

/// Looking at a file reports the references in it.
proof fn lemma_reports_file(scan: ScanText, file: FileDescriptorProto, before: Seq<WarningText>)
    ensures
        excluded_refs::reports_refs(
            scan,
            descriptor::text_or(file.name, "?"@),
            |fqn: Seq<char>| file_refers(file, fqn),
            before,
            after_file(scan, file, before),
        ),
{
    let name = descriptor::text_or(file.name, "?"@);
    let a = after_messages(scan, name, file.message_type@, file.message_type@.len(), before);
    let end = after_file(scan, file, before);
    let in_messages = |fqn: Seq<char>|
        messages_refer(file.message_type@, file.message_type@.len(), fqn);
    let in_extensions = |fqn: Seq<char>|
        excluded_refs::extensions_refer(file.extension@, file.extension@.len(), fqn);
    let all = |fqn: Seq<char>| file_refers(file, fqn);
    lemma_reports_messages(scan, name, file.message_type@, file.message_type@.len(), before);
    excluded_refs::lemma_reports_extensions(
        scan,
        name,
        ""@,
        file.extension@,
        file.extension@.len(),
        a,
    );
    excluded_refs::lemma_reports_chain(
        scan,
        name,
        in_messages,
        in_extensions,
        all,
        before,
        a,
        end,
    );
}

/// Looking at files reports the references in them.
proof fn lemma_reports_files(
    scan: ScanText,
    files: Seq<&FileDescriptorProto>,
    k: nat,
    before: Seq<WarningText>,
)
    requires
        k <= files.len(),
    ensures
        forall|f: Seq<char>, fqn: Seq<char>| #[trigger]
            excluded_refs::warned(after_files(scan, files, k, before), f, fqn)
                <==> excluded_refs::warned(before, f, fqn) || (excluded_refs::is_dangling(scan, fqn)
                && files_refer(files, k, f, fqn)),
        excluded_refs::warned_once(before) ==> excluded_refs::warned_once(
            after_files(scan, files, k, before),
        ),
    decreases k,
{
    if k > 0 {
        let a = after_files(scan, files, (k - 1) as nat, before);
        let end = after_files(scan, files, k, before);
        lemma_reports_files(scan, files, (k - 1) as nat, before);
        lemma_reports_file(scan, *files[k - 1], a);
        assert forall|f: Seq<char>, fqn: Seq<char>| #[trigger] excluded_refs::warned(end, f, fqn)
            <==> excluded_refs::warned(before, f, fqn) || (excluded_refs::is_dangling(scan, fqn)
            && files_refer(files, k, f, fqn)) by {
            assert(excluded_refs::warned(a, f, fqn) || !excluded_refs::warned(a, f, fqn));
        }
    }
}

/// The search reports exactly the references that lead nowhere, and no file and
/// type twice.
pub proof fn law_scan_reports_every_dangling_ref_once(
    scan: ScanText,
    packages: Seq<(Seq<char>, Seq<&FileDescriptorProto>)>,
    k: nat,
    before: Seq<WarningText>,
)
    requires
        k <= packages.len(),
    ensures
        forall|f: Seq<char>, fqn: Seq<char>| #[trigger]
            excluded_refs::warned(after_packages(scan, packages, k, before), f, fqn)
                <==> excluded_refs::warned(before, f, fqn) || (excluded_refs::is_dangling(scan, fqn)
                && packages_refer(packages, k, f, fqn)),
        excluded_refs::warned_once(before) ==> excluded_refs::warned_once(
            after_packages(scan, packages, k, before),
        ),
    decreases k,
{
    if k > 0 {
        let a = after_packages(scan, packages, (k - 1) as nat, before);
        let end = after_packages(scan, packages, k, before);
        let files = packages[k - 1].1;
        law_scan_reports_every_dangling_ref_once(scan, packages, (k - 1) as nat, before);
        lemma_reports_files(scan, files, files.len(), a);
        assert forall|f: Seq<char>, fqn: Seq<char>| #[trigger] excluded_refs::warned(end, f, fqn)
            <==> excluded_refs::warned(before, f, fqn) || (excluded_refs::is_dangling(scan, fqn)
            && packages_refer(packages, k, f, fqn)) by {
            assert(excluded_refs::warned(a, f, fqn) || !excluded_refs::warned(a, f, fqn));
        }
    }
}

/// What is in a group was requested, and is in the group's package.
pub proof fn lemma_group_member(
    files: Seq<FileDescriptorProto>,
    requested: Seq<String>,
    package: Seq<char>,
    k: nat,
    j: int,
)
    requires
        k <= requested.len(),
        0 <= j < files_in(files, requested, package, k).len(),
    ensures
        files_in(files, requested, package, k)[j].package_text() == package,
        exists|i: int|
            0 <= i < k && files_in(files, requested, package, k)[j] == &file_at(
                files,
                #[trigger] requested[i],
            ),
    decreases k,
{
    if k > 0 {
        let before = files_in(files, requested, package, (k - 1) as nat);
        if j < before.len() {
            lemma_group_member(files, requested, package, (k - 1) as nat, j);
        } else {
            assert(files_in(files, requested, package, k)[j] == &file_at(
                files,
                requested[k - 1],
            ));
        }
    }
}

/// Where no file is missing, every file is there.
pub proof fn lemma_none_missing(
    files: Seq<FileDescriptorProto>,
    requested: Seq<String>,
    i: int,
)
    requires
        0 <= i,
        missing_file(files, requested, i) is None,
    ensures
        forall|j: int|
            i <= j < requested.len() ==> descriptor::file_from(
                files,
                (#[trigger] requested[j])@,
                0,
            ) is Some,
    decreases requested.len() - i,
{
    if i < requested.len() {
        lemma_none_missing(files, requested, i + 1);
    }
}

/// The packages that requested files are in can always be named, in order.
proof fn lemma_packages_exist(files: Seq<FileDescriptorProto>, requested: Seq<String>)
    ensures
        are_packages(package_names(files, requested), files, requested),
    decreases requested.len(),
{
    if requested.len() == 0 {
        assert(are_packages(Seq::empty(), files, requested));
    } else {
        let init = requested.drop_last();
        let last = file_at(files, requested.last()).package_text();
        lemma_packages_exist(files, init);
        let before = package_names(files, init);
        let packages = names::lemma_ascending_with(before, last);
        assert forall|package: Seq<char>| #[trigger] packages.contains(package) <==> has_package(
            files,
            requested,
            package,
        ) by {
            assert(before.contains(package) <==> has_package(files, init, package));
            if has_package(files, init, package) {
                let i = choose|i: int|
                    0 <= i < init.len() && file_at(files, #[trigger] init[i]).package_text()
                        == package;
                assert(requested[i] == init[i]);
            }
            if has_package(files, requested, package) {
                let i = choose|i: int|
                    0 <= i < requested.len() && file_at(
                        files,
                        #[trigger] requested[i],
                    ).package_text() == package;
                if i < init.len() {
                    assert(init[i] == requested[i]);
                }
            }
            if package == last {
                assert(file_at(files, requested[requested.len() - 1]).package_text() == package);
            }
        }
        assert(are_packages(packages, files, requested));
    }
}

/// Packages are generated in the order of their names, and the order in which
/// files were asked for does not matter to that: two requests for the same files
/// give the same packages in the same order.
pub proof fn law_request_order_does_not_order_packages(
    files: Seq<FileDescriptorProto>,
    a: Seq<String>,
    b: Seq<String>,
)
    requires
        forall|name: String| #[trigger] a.contains(name) <==> b.contains(name),
    ensures
        names::ascending(package_names(files, a)),
        package_names(files, a) == package_names(files, b),
{
    lemma_packages_exist(files, a);
    lemma_packages_exist(files, b);
    assert forall|package: Seq<char>| #[trigger] package_names(files, a).contains(package)
        <==> package_names(files, b).contains(package) by {
        assert(package_names(files, a).contains(package) <==> has_package(files, a, package));
        assert(package_names(files, b).contains(package) <==> has_package(files, b, package));
        if has_package(files, a, package) {
            let i = choose|i: int|
                0 <= i < a.len() && file_at(files, #[trigger] a[i]).package_text() == package;
            assert(a.contains(a[i]));
            assert(b.contains(a[i]));
            let j = b.index_of(a[i]);
            assert(file_at(files, b[j]).package_text() == package);
        }
        if has_package(files, b, package) {
            let i = choose|i: int|
                0 <= i < b.len() && file_at(files, #[trigger] b[i]).package_text() == package;
            assert(b.contains(b[i]));
            assert(a.contains(b[i]));
            let j = a.index_of(b[i]);
            assert(file_at(files, a[j]).package_text() == package);
        }
    }
    names::lemma_ascending_unique(package_names(files, a), package_names(files, b));
}

} // verus!
