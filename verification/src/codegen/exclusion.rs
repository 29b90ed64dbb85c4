//! Excluding packages is leaving their files out of what is asked for.
//!
//! An exclusion entry decides which of the files that are asked for are kept, and
//! what is warned of. Nothing else looks at the entries.
use vstd::prelude::*;
use crate::codegen::config::{CodeGenConfig, FeatureOverride};
use crate::codegen::content;
use crate::codegen::content::{CandidateText, FileOutput};
use crate::codegen::custom_elements;
use crate::codegen::custom_elements::CustomElemKind;
use crate::codegen::descriptor;
use crate::codegen::descriptor::{
    DescriptorProto, EnumDescriptorProto, FieldDescriptorProto, FileDescriptorProto,
};
use crate::codegen::errors::{CodeGenError, ErrorText};
use crate::codegen::generate;
use crate::codegen::generate::{PackageOutput, PlanText};
use crate::codegen::package;
use crate::codegen::plan;
use crate::codegen::root_names;

verus! {

/// Two configurations differ in their exclusion entries at most.
pub open spec fn agree(a: CodeGenConfig, b: CodeGenConfig) -> bool {
    a == (CodeGenConfig { exclude_packages: a.exclude_packages, ..b })
}

proof fn lemma_fields_uses(
    a: CodeGenConfig,
    b: CodeGenConfig,
    fqn: Seq<char>,
    fields: Seq<FieldDescriptorProto>,
    k: nat,
)
    requires
        agree(a, b),
    ensures
        custom_elements::fields_uses(a, fqn, fields, k) == custom_elements::fields_uses(
            b,
            fqn,
            fields,
            k,
        ),
    decreases k,
{
    if k > 0 && k <= fields.len() {
        lemma_fields_uses(a, b, fqn, fields, (k - 1) as nat);
    }
}

proof fn lemma_messages_uses(
    a: CodeGenConfig,
    b: CodeGenConfig,
    messages: Seq<DescriptorProto>,
    k: nat,
    scope: Seq<char>,
)
    requires
        agree(a, b),
    ensures
        custom_elements::messages_uses(a, messages, k, scope) == custom_elements::messages_uses(
            b,
            messages,
            k,
            scope,
        ),
    decreases messages, k,
{
    if k > 0 && k <= messages.len() {
        let msg = messages[k - 1];
        let fqn = descriptor::scoped(scope, descriptor::text_or(msg.name, ""@));
        lemma_messages_uses(a, b, messages, (k - 1) as nat, scope);
        lemma_fields_uses(a, b, fqn, msg.field@, msg.field@.len());
        lemma_messages_uses(a, b, msg.nested_type@, msg.nested_type@.len(), fqn);
    }
}

proof fn lemma_files_uses(
    a: CodeGenConfig,
    b: CodeGenConfig,
    files: Seq<FileDescriptorProto>,
    kept: Seq<String>,
    k: nat,
)
    requires
        agree(a, b),
    ensures
        custom_elements::files_uses(a, files, kept, k) == custom_elements::files_uses(
            b,
            files,
            kept,
            k,
        ),
    decreases k,
{
    if k > 0 && k <= kept.len() {
        lemma_files_uses(a, b, files, kept, (k - 1) as nat);
        match descriptor::file_from(files, kept[k - 1]@, 0) {
            Some(i) => {
                lemma_messages_uses(
                    a,
                    b,
                    files[i].message_type@,
                    files[i].message_type@.len(),
                    files[i].package_text(),
                );
            },
            None => {},
        }
    }
}

proof fn lemma_elements_impls(
    a: CodeGenConfig,
    b: CodeGenConfig,
    paths: Seq<Seq<char>>,
    kinds: Seq<CustomElemKind>,
    n: nat,
)
    requires
        agree(a, b),
    ensures
        custom_elements::elements_impls(a, paths, kinds, n) == custom_elements::elements_impls(
            b,
            paths,
            kinds,
            n,
        ),
    decreases n,
{
    if n > 0 && n <= paths.len() {
        lemma_elements_impls(a, b, paths, kinds, (n - 1) as nat);
    }
}

proof fn lemma_keys_impls(
    a: CodeGenConfig,
    b: CodeGenConfig,
    elements: Seq<char>,
    paths: Seq<Seq<char>>,
    n: nat,
)
    requires
        agree(a, b),
    ensures
        custom_elements::keys_impls(a, elements, paths, n) == custom_elements::keys_impls(
            b,
            elements,
            paths,
            n,
        ),
    decreases n,
{
    if n > 0 && n <= paths.len() {
        lemma_keys_impls(a, b, elements, paths, (n - 1) as nat);
    }
}

proof fn lemma_impls_of(a: CodeGenConfig, b: CodeGenConfig, uses: Seq<custom_elements::Use>)
    requires
        agree(a, b),
    ensures
        custom_elements::impls_of(a, uses) == custom_elements::impls_of(b, uses),
{
    let elems = choose|elems: custom_elements::CustomElements| elems.collects(uses);
    let paths = elems.elements.keys();
    let kinds = elems.elements.values();
    let keys = elems.map_keys.keys();
    lemma_elements_impls(a, b, paths, kinds, paths.len());
    match custom_elements::elements_impls(a, paths, kinds, paths.len()) {
        Ok(elements) => lemma_keys_impls(a, b, elements, keys, keys.len()),
        Err(_) => {},
    }
}

proof fn lemma_messages_reexports(
    a: CodeGenConfig,
    b: CodeGenConfig,
    messages: Seq<DescriptorProto>,
    k: nat,
)
    requires
        agree(a, b),
    ensures
        content::messages_reexports(a, messages, k) == content::messages_reexports(b, messages, k),
    decreases k,
{
    if k > 0 && k <= messages.len() {
        lemma_messages_reexports(a, b, messages, (k - 1) as nat);
    }
}

proof fn lemma_progress(
    a: CodeGenConfig,
    b: CodeGenConfig,
    name: Seq<char>,
    files: Seq<&FileDescriptorProto>,
    outputs: Seq<Result<FileOutput, CodeGenError>>,
    k: nat,
)
    requires
        agree(a, b),
    ensures
        package::progress(a, name, files, outputs, k) == package::progress(
            b,
            name,
            files,
            outputs,
            k,
        ),
    decreases k,
{
    if k > 0 && k <= files.len() {
        let file = *files[k - 1];
        lemma_progress(a, b, name, files, outputs, (k - 1) as nat);
        lemma_messages_reexports(a, b, file.message_type@, file.message_type@.len());
    }
}

proof fn lemma_messages_occupy(
    a: CodeGenConfig,
    b: CodeGenConfig,
    messages: Seq<DescriptorProto>,
    k: nat,
    n: Seq<char>,
)
    requires
        agree(a, b),
    ensures
        root_names::messages_occupy(a, messages, k, n) == root_names::messages_occupy(
            b,
            messages,
            k,
            n,
        ),
    decreases k,
{
    if k > 0 && k <= messages.len() {
        lemma_messages_occupy(a, b, messages, (k - 1) as nat, n);
    }
}

proof fn lemma_enums_occupy(
    a: CodeGenConfig,
    b: CodeGenConfig,
    enums: Seq<EnumDescriptorProto>,
    k: nat,
    n: Seq<char>,
)
    requires
        agree(a, b),
    ensures
        root_names::enums_occupy(a, enums, k, n) == root_names::enums_occupy(b, enums, k, n),
    decreases k,
{
    if k > 0 && k <= enums.len() {
        lemma_enums_occupy(a, b, enums, (k - 1) as nat, n);
    }
}

proof fn lemma_files_occupy(
    a: CodeGenConfig,
    b: CodeGenConfig,
    files: Seq<&FileDescriptorProto>,
    k: nat,
    n: Seq<char>,
)
    requires
        agree(a, b),
    ensures
        root_names::files_occupy(a, files, k, n) == root_names::files_occupy(b, files, k, n),
    decreases k,
{
    if k > 0 && k <= files.len() {
        let file = *files[k - 1];
        lemma_files_occupy(a, b, files, (k - 1) as nat, n);
        lemma_messages_occupy(a, b, file.message_type@, file.message_type@.len(), n);
        lemma_enums_occupy(a, b, file.enum_type@, file.enum_type@.len(), n);
    }
}

proof fn lemma_survivors(
    a: CodeGenConfig,
    b: CodeGenConfig,
    files: Seq<&FileDescriptorProto>,
    candidates: Seq<CandidateText>,
    k: nat,
)
    requires
        agree(a, b),
    ensures
        root_names::survivors(a, files, candidates, k) == root_names::survivors(
            b,
            files,
            candidates,
            k,
        ),
    decreases k,
{
    if k > 0 && k <= candidates.len() {
        lemma_survivors(a, b, files, candidates, (k - 1) as nat);
        lemma_files_occupy(a, b, files, files.len(), candidates[k - 1].name);
    }
}

proof fn lemma_package_files(
    a: CodeGenConfig,
    b: CodeGenConfig,
    name: Seq<char>,
    files: Seq<&FileDescriptorProto>,
    output: PackageOutput,
    impls: Seq<char>,
)
    requires
        agree(a, b),
    ensures
        package::package_files(a, name, files, output.outputs@, output.pieces, impls)
            == package::package_files(b, name, files, output.outputs@, output.pieces, impls),
{
    lemma_progress(a, b, name, files, output.outputs@, files.len());
    match package::progress(a, name, files, output.outputs@, files.len()) {
        Ok(done) => {
            let candidates = root_names::all_candidates(a, done.reg, done.candidates);
            lemma_survivors(a, b, files, candidates, candidates.len());
        },
        Err(_) => {},
    }
}

proof fn lemma_packages_files(
    a: CodeGenConfig,
    b: CodeGenConfig,
    x: PlanText<'_>,
    y: PlanText<'_>,
    backend: Seq<PackageOutput>,
    k: nat,
)
    requires
        agree(a, b),
        x.packages == y.packages,
        x.custom_elem_impls == y.custom_elem_impls,
    ensures
        generate::packages_files(a, x, backend, k) == generate::packages_files(b, y, backend, k),
    decreases k,
{
    if k > 0 && k <= x.packages.len() {
        lemma_packages_files(a, b, x, y, backend, (k - 1) as nat);
        lemma_package_files(
            a,
            b,
            x.packages[k - 1].0,
            x.packages[k - 1].1,
            backend[k - 1],
            generate::impls_for(x, k - 1),
        );
    }
}

/// Without exclusion entries everything is kept.
proof fn lemma_all_kept(files: Seq<FileDescriptorProto>, requested: Seq<String>, k: nat)
    requires
        k <= requested.len(),
    ensures
        plan::kept(files, requested, Seq::empty(), k) == requested.take(k as int),
    decreases k,
{
    if k == 0 {
        assert(requested.take(0) =~= Seq::<String>::empty());
    } else {
        lemma_all_kept(files, requested, (k - 1) as nat);
        assert(requested.take(k as int) =~= requested.take(k - 1).push(requested[k - 1]));
    }
}

/// To exclude packages is the same as not to ask for their files: the same files
/// come out, in the same order and with the same content, or the same error.
///
/// `bare` is the configuration without exclusion entries. Only the warnings may
/// differ: without the entries, none is warned of.
pub proof fn law_to_exclude_is_not_to_ask(
    files: Seq<FileDescriptorProto>,
    requested: Seq<String>,
    config: CodeGenConfig,
    bare: CodeGenConfig,
    unmatched: Seq<(String, FeatureOverride)>,
    backend: Seq<PackageOutput>,
    excludes: Seq<Seq<char>>,
)
    requires
        agree(config, bare),
        bare.exclude_packages@.len() == 0,
        plan::exclusions(config.exclude_packages@, config.exclude_packages@.len()) == Ok::<
            Seq<Seq<char>>,
            ErrorText,
        >(excludes),
    ensures
        ({
            let left = plan::kept(files, requested, excludes, requested.len());
            let other = generate::generated(files, left, bare, unmatched, backend);
            match generate::generated(files, requested, config, unmatched, backend) {
                Ok((out, _)) => other is Ok && other->Ok_0.0 == out,
                Err(e) => other is Err && other->Err_0 == e,
            }
        }),
{
    let left = plan::kept(files, requested, excludes, requested.len());
    lemma_all_kept(files, left, left.len());
    assert(left.take(left.len() as int) =~= left);
    assert(plan::exclusions(bare.exclude_packages@, 0) == Ok::<Seq<Seq<char>>, ErrorText>(
        Seq::empty(),
    ));
    lemma_files_uses(config, bare, files, left, left.len());
    lemma_impls_of(
        config,
        bare,
        custom_elements::files_uses(config, files, left, left.len()),
    );
    match (
        generate::planned(files, requested, config, unmatched),
        generate::planned(files, left, bare, unmatched),
    ) {
        (Ok(x), Ok(y)) => lemma_packages_files(config, bare, x, y, backend, x.packages.len()),
        _ => {},
    }
}

} // verus!
