//! Types that live in other crates.
use vstd::prelude::*;
use vstd::string::*;
use crate::codegen::config::CodeGenConfig;
use crate::codegen::descriptor::FileDescriptorProto;
use crate::codegen::text;
use crate::codegen::text::{cat, same, starts_with};
use crate::codegen::warning;

verus! {

/// A rule's path covers a name: the name itself, or one below it, with the
/// boundary at a dot; a single dot covers everything.
pub open spec fn path_covers(path: Seq<char>, name: Seq<char>) -> bool {
    path == "."@ || name == path || text::begins(name, path + "."@)
}

/// Whether a rule's path covers a name.
pub fn covers_path(path: &str, name: &str) -> (r: bool)
    ensures
        r == path_covers(path@, name@),
{
    same(path, ".") || same(name, path) || starts_with(name, cat(path, ".").as_str())
}

/// Some mapping covers a name.
pub open spec fn mapped(paths: Seq<(String, String)>, name: Seq<char>) -> bool {
    exists|i: int| 0 <= i < paths.len() && path_covers((#[trigger] paths[i]).0@, name)
}

/// Some mapping covers a name.
pub open spec fn pairs_cover(pairs: Seq<(Seq<char>, Seq<char>)>, name: Seq<char>) -> bool {
    exists|i: int| 0 <= i < pairs.len() && path_covers((#[trigger] pairs[i]).0, name)
}

/// Both ways of looking at mappings agree.
pub proof fn lemma_mapped(paths: Seq<(String, String)>, name: Seq<char>)
    ensures
        mapped(paths, name) == pairs_cover(warning::pair_texts(paths), name),
{
    let pairs = warning::pair_texts(paths);
    if mapped(paths, name) {
        let i = choose|i: int|
            0 <= i < paths.len() && path_covers((#[trigger] paths[i]).0@, name);
        assert(path_covers(pairs[i].0, name));
    }
    if pairs_cover(pairs, name) {
        let i = choose|i: int| 0 <= i < pairs.len() && path_covers((#[trigger] pairs[i]).0, name);
        assert(path_covers(paths[i].0@, name));
    }
}

/// Whether some mapping covers a name, which has a leading dot.
pub fn is_mapped(paths: &Vec<(String, String)>, name: &str) -> (r: bool)
    ensures
        r == mapped(paths@, name@),
{
    let mut i: usize = 0;
    while i < paths.len()
        invariant
            i <= paths@.len(),
            forall|j: int| 0 <= j < i ==> !path_covers((#[trigger] paths@[j]).0@, name@),
        decreases paths@.len() - i,
    {
        if covers_path(paths[i].0.as_str(), name) {
            return true;
        }
        i = i + 1;
    }
    false
}

/// A list of names holds one.
pub open spec fn listed(names: Seq<String>, name: Seq<char>) -> bool {
    exists|i: int| 0 <= i < names.len() && (#[trigger] names[i])@ == name
}

/// Whether a list of names holds one.
pub fn is_listed(names: &Vec<String>, name: &str) -> (r: bool)
    ensures
        r == listed(names@, name@),
{
    let wanted: String = name.to_owned();
    let mut i: usize = 0;
    while i < names.len()
        invariant
            i <= names@.len(),
            wanted@ == name@,
            forall|j: int| 0 <= j < i ==> (#[trigger] names@[j])@ != name@,
        decreases names@.len() - i,
    {
        if names[i] == wanted {
            return true;
        }
        i = i + 1;
    }
    false
}

/// One of the files to generate is in the package of the well-known types.
pub open spec fn generates_well_known(
    files: Seq<FileDescriptorProto>,
    files_to_generate: Seq<String>,
) -> bool {
    exists|i: int|
        {
            &&& 0 <= i < files.len()
            &&& (#[trigger] files[i]).name is Some
            &&& listed(files_to_generate, files[i].name->Some_0@)
            &&& files[i].package is Some
            &&& files[i].package->Some_0@ == "google.protobuf"@
        }
}

/// Some mapping is for exactly this name.
pub open spec fn mapped_exactly(paths: Seq<(String, String)>, name: Seq<char>) -> bool {
    exists|i: int| 0 <= i < paths.len() && (#[trigger] paths[i]).0@ == name
}

/// The mappings in force: the user's own, and one for the well-known types
/// unless the user maps exactly that package or generates it.
pub open spec fn extern_paths_in_force(
    files: Seq<FileDescriptorProto>,
    files_to_generate: Seq<String>,
    user: Seq<(String, String)>,
) -> Seq<(Seq<char>, Seq<char>)> {
    let own = warning::pair_texts(user);
    if mapped_exactly(user, ".google.protobuf"@) || generates_well_known(files, files_to_generate) {
        own
    } else {
        own.push((".google.protobuf"@, "::buffa_types::google::protobuf"@))
    }
}

/// Whether one of the files to generate is in the package of the well-known
/// types.
fn generating_wkts(files: &Vec<FileDescriptorProto>, files_to_generate: &Vec<String>) -> (r: bool)
    ensures
        r == generates_well_known(files@, files_to_generate@),
{
    let wkt: String = "google.protobuf".to_owned();
    let mut i: usize = 0;
    while i < files.len()
        invariant
            i <= files@.len(),
            wkt@ == "google.protobuf"@,
            forall|j: int|
                0 <= j < i ==> !((#[trigger] files@[j]).name is Some && listed(
                    files_to_generate@,
                    files@[j].name->Some_0@,
                ) && files@[j].package is Some && files@[j].package->Some_0@ == "google.protobuf"@),
        decreases files@.len() - i,
    {
        match (&files[i].name, &files[i].package) {
            (Some(name), Some(package)) => {
                if *package == wkt && is_listed(files_to_generate, name.as_str()) {
                    return true;
                }
            },
            _ => {},
        }
        i = i + 1;
    }
    false
}

/// Work out the mappings in force.
pub fn effective_extern_paths(
    files: &Vec<FileDescriptorProto>,
    files_to_generate: &Vec<String>,
    config: &CodeGenConfig,
) -> (paths: Vec<(String, String)>)
    ensures
        warning::pair_texts(paths@) == extern_paths_in_force(
            files@,
            files_to_generate@,
            config.extern_paths@,
        ),
{
    let ghost user = config.extern_paths@;
    let wkt: String = ".google.protobuf".to_owned();
    let mut paths: Vec<(String, String)> = Vec::new();
    let mut has_wkt_mapping: bool = false;
    let mut i: usize = 0;
    while i < config.extern_paths.len()
        invariant
            i <= config.extern_paths@.len(),
            user == config.extern_paths@,
            wkt@ == ".google.protobuf"@,
            paths@ == user.take(i as int),
            has_wkt_mapping == mapped_exactly(user.take(i as int), ".google.protobuf"@),
        decreases config.extern_paths@.len() - i,
    {
        let pair: &(String, String) = &config.extern_paths[i];
        proof {
            let before = user.take(i as int);
            let after = user.take(i as int + 1);
            assert(after[i as int] == *pair);
            if mapped_exactly(before, wkt@) {
                let k = choose|k: int| 0 <= k < before.len() && (#[trigger] before[k]).0@ == wkt@;
                assert(after[k].0@ == wkt@);
            }
            if mapped_exactly(after, wkt@) && pair.0@ != wkt@ {
                let k = choose|k: int| 0 <= k < after.len() && (#[trigger] after[k]).0@ == wkt@;
                assert(before[k].0@ == wkt@);
            }
        }
        if pair.0 == wkt {
            has_wkt_mapping = true;
        }
        paths.push((pair.0.clone(), pair.1.clone()));
        assert(paths@ =~= user.take(i as int + 1));
        i = i + 1;
    }
    assert(user.take(user.len() as int) =~= user);
    if !has_wkt_mapping && !generating_wkts(files, files_to_generate) {
        let ghost own = paths@;
        paths.push((wkt, "::buffa_types::google::protobuf".to_owned()));
        assert(warning::pair_texts(paths@) =~= warning::pair_texts(own).push(
            (".google.protobuf"@, "::buffa_types::google::protobuf"@),
        ));
    }
    paths
}

/// The file of the descriptor types, and its Rust module, unless the user maps
/// its package or generates it.
pub open spec fn file_extern_entry(
    file: Seq<char>,
    package: Seq<char>,
    module: Seq<char>,
    files_to_generate: Seq<String>,
    user: Seq<(String, String)>,
) -> Seq<(Seq<char>, Seq<char>)> {
    if mapped(user, "."@ + package) || listed(files_to_generate, file) {
        Seq::empty()
    } else {
        seq![(file, module)]
    }
}

/// The files whose types live in other crates whatever their package maps to.
///
/// The descriptor types share their package with the well-known types and live
/// elsewhere, so a mapping for the package cannot tell them apart.
pub open spec fn file_extern_paths(files_to_generate: Seq<String>, user: Seq<(String, String)>) -> Seq<
    (Seq<char>, Seq<char>),
> {
    file_extern_entry(
        "google/protobuf/descriptor.proto"@,
        "google.protobuf"@,
        "::buffa_descriptor::generated::descriptor"@,
        files_to_generate,
        user,
    ) + file_extern_entry(
        "google/protobuf/compiler/plugin.proto"@,
        "google.protobuf.compiler"@,
        "::buffa_descriptor::generated::compiler"@,
        files_to_generate,
        user,
    )
}

/// Add a file and its module, unless the user maps its package or generates it.
fn push_file_extern(
    paths: &mut Vec<(String, String)>,
    file: &str,
    package: &str,
    module: &str,
    files_to_generate: &Vec<String>,
    user: &Vec<(String, String)>,
)
    ensures
        warning::pair_texts(final(paths)@) == warning::pair_texts(old(paths)@) + file_extern_entry(
            file@,
            package@,
            module@,
            files_to_generate@,
            user@,
        ),
{
    if is_mapped(user, cat(".", package).as_str()) || is_listed(files_to_generate, file) {
        assert(warning::pair_texts(paths@) + Seq::<(Seq<char>, Seq<char>)>::empty()
            =~= warning::pair_texts(paths@));
        return;
    }
    paths.push((file.to_owned(), module.to_owned()));
    assert(warning::pair_texts(paths@) =~= warning::pair_texts(old(paths)@) + seq![
        (file@, module@),
    ]);
}

/// Work out the files whose types live in other crates.
pub fn effective_file_extern_paths(files_to_generate: &Vec<String>, config: &CodeGenConfig) -> (paths:
    Vec<(String, String)>)
    ensures
        warning::pair_texts(paths@) == file_extern_paths(files_to_generate@, config.extern_paths@),
{
    let mut paths: Vec<(String, String)> = Vec::new();
    assert(warning::pair_texts(paths@) =~= Seq::<(Seq<char>, Seq<char>)>::empty());
    push_file_extern(
        &mut paths,
        "google/protobuf/descriptor.proto",
        "google.protobuf",
        "::buffa_descriptor::generated::descriptor",
        files_to_generate,
        &config.extern_paths,
    );
    push_file_extern(
        &mut paths,
        "google/protobuf/compiler/plugin.proto",
        "google.protobuf.compiler",
        "::buffa_descriptor::generated::compiler",
        files_to_generate,
        &config.extern_paths,
    );
    assert(warning::pair_texts(paths@) =~= file_extern_paths(
        files_to_generate@,
        config.extern_paths@,
    ));
    paths
}

} // verus!
