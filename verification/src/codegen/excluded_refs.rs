//! References to types that are neither generated nor mapped to another crate.
//!
//! Such a reference compiles to a path that leads nowhere, in someone else's
//! build. Generation warns of it, once for each type and file.
use vstd::prelude::*;
use vstd::string::*;
use crate::codegen::descriptor;
use crate::codegen::descriptor::{
    scoped_name, str_or, DescriptorProto, EnumDescriptorProto, FieldDescriptorProto,
    FileDescriptorProto,
};
use crate::codegen::extern_paths;
use crate::codegen::extern_paths::is_mapped;
use crate::codegen::names::NameSet;
use crate::codegen::text::{cat, same};
use crate::codegen::warning;
use crate::codegen::warning::{CodeGenWarning, WarningText};

verus! {

/// The full name of an element declared in a message.
pub open spec fn member(fqn: Seq<char>, name: Seq<char>) -> Seq<char> {
    fqn + "."@ + name
}

/// One of the first `k` enums is declared under the full name `n`.
pub open spec fn enums_declare(
    fqn: Seq<char>,
    enums: Seq<EnumDescriptorProto>,
    k: nat,
    n: Seq<char>,
) -> bool
    decreases k,
{
    k > 0 && k <= enums.len() && {
        ||| enums_declare(fqn, enums, (k - 1) as nat, n)
        ||| enums[k - 1].name is Some && n == member(fqn, enums[k - 1].name->Some_0@)
    }
}

/// The message with the full name `fqn`, or something declared in it, has the
/// full name `n`.
pub open spec fn message_declares(fqn: Seq<char>, msg: DescriptorProto, n: Seq<char>) -> bool
    decreases msg, 0nat,
{
    ||| n == fqn
    ||| messages_declare(fqn, msg.nested_type@, msg.nested_type@.len(), n)
    ||| enums_declare(fqn, msg.enum_type@, msg.enum_type@.len(), n)
}

/// One of the first `k` messages declared under `fqn`, or something declared in
/// it, has the full name `n`. A message without a name declares nothing.
pub open spec fn messages_declare(
    fqn: Seq<char>,
    messages: Seq<DescriptorProto>,
    k: nat,
    n: Seq<char>,
) -> bool
    decreases messages, k,
{
    k > 0 && k <= messages.len() && {
        ||| messages_declare(fqn, messages, (k - 1) as nat, n)
        ||| messages[k - 1].name is Some && message_declares(
            member(fqn, messages[k - 1].name->Some_0@),
            messages[k - 1],
            n,
        )
    }
}

/// What the full names of a package's elements begin with.
pub open spec fn package_scope(package: Seq<char>) -> Seq<char> {
    if package.len() == 0 {
        Seq::empty()
    } else {
        "."@ + package
    }
}

/// A message or an enum of a file has the full name `n`, with a leading dot.
pub open spec fn file_declares(file: FileDescriptorProto, n: Seq<char>) -> bool {
    let scope = package_scope(file.package_text());
    ||| messages_declare(scope, file.message_type@, file.message_type@.len(), n)
    ||| enums_declare(scope, file.enum_type@, file.enum_type@.len(), n)
}

/// Add the full names of a message and of everything declared in it.
pub fn collect_fqns_msg_recursive(msg_fqn: &str, msg: &DescriptorProto, out: &mut NameSet)
    requires
        old(out).wf(),
    ensures
        final(out).wf(),
        forall|n: Seq<char>| #[trigger]
            final(out).has(n) <==> old(out).has(n) || message_declares(msg_fqn@, *msg, n),
    decreases msg, 0nat,
{
    out.insert(msg_fqn.to_owned());
    let ghost with_self = *out;
    collect_fqns_messages(msg_fqn, &msg.nested_type, out);
    let ghost with_nested = *out;
    collect_fqns_enums(msg_fqn, &msg.enum_type, out);
    assert forall|n: Seq<char>| #[trigger] out.has(n) <==> old(out).has(n) || message_declares(
        msg_fqn@,
        *msg,
        n,
    ) by {
        assert(with_nested.has(n) || !with_nested.has(n));
        assert(with_self.has(n) || !with_self.has(n));
    }
}

/// Add the full names of messages declared under `fqn`, and of everything
/// declared in them.
fn collect_fqns_messages(fqn: &str, messages: &Vec<DescriptorProto>, out: &mut NameSet)
    requires
        old(out).wf(),
    ensures
        final(out).wf(),
        forall|n: Seq<char>| #[trigger]
            final(out).has(n) <==> old(out).has(n) || messages_declare(
                fqn@,
                messages@,
                messages@.len(),
                n,
            ),
    decreases messages, 1nat,
{
    let mut i: usize = 0;
    while i < messages.len()
        invariant
            i <= messages@.len(),
            out.wf(),
            forall|n: Seq<char>| #[trigger]
                out.has(n) <==> old(out).has(n) || messages_declare(fqn@, messages@, i as nat, n),
        decreases messages@.len() - i,
    {
        let ghost before = *out;
        match &messages[i].name {
            Some(name) => {
                let mut inner: String = fqn.to_owned();
                inner.append(".");
                inner.append(name.as_str());
                collect_fqns_msg_recursive(inner.as_str(), &messages[i], out);
            },
            None => {},
        }
        i = i + 1;
        assert forall|n: Seq<char>| #[trigger] out.has(n) <==> old(out).has(n) || messages_declare(
            fqn@,
            messages@,
            i as nat,
            n,
        ) by {
            assert(before.has(n) <==> old(out).has(n) || messages_declare(
                fqn@,
                messages@,
                (i - 1) as nat,
                n,
            ));
        }
    }
}

/// Add the full names of enums declared under `fqn`.
fn collect_fqns_enums(fqn: &str, enums: &Vec<EnumDescriptorProto>, out: &mut NameSet)
    requires
        old(out).wf(),
    ensures
        final(out).wf(),
        forall|n: Seq<char>| #[trigger]
            final(out).has(n) <==> old(out).has(n) || enums_declare(
                fqn@,
                enums@,
                enums@.len(),
                n,
            ),
{
    let mut i: usize = 0;
    while i < enums.len()
        invariant
            i <= enums@.len(),
            out.wf(),
            forall|n: Seq<char>| #[trigger]
                out.has(n) <==> old(out).has(n) || enums_declare(fqn@, enums@, i as nat, n),
        decreases enums@.len() - i,
    {
        let ghost before = *out;
        match &enums[i].name {
            Some(name) => {
                let mut inner: String = fqn.to_owned();
                inner.append(".");
                inner.append(name.as_str());
                out.insert(inner);
            },
            None => {},
        }
        i = i + 1;
        assert forall|n: Seq<char>| #[trigger] out.has(n) <==> old(out).has(n) || enums_declare(
            fqn@,
            enums@,
            i as nat,
            n,
        ) by {
            assert(before.has(n) <==> old(out).has(n) || enums_declare(
                fqn@,
                enums@,
                (i - 1) as nat,
                n,
            ));
        }
    }
}

/// Add the full names of everything that a file declares.
pub fn collect_fqns_in_file(file: &FileDescriptorProto, out: &mut NameSet)
    requires
        old(out).wf(),
    ensures
        final(out).wf(),
        forall|n: Seq<char>| #[trigger]
            final(out).has(n) <==> old(out).has(n) || file_declares(*file, n),
{
    let package: &str = file.package_name();
    let scope: String = if package.is_empty() {
        String::new()
    } else {
        cat(".", package)
    };
    collect_fqns_messages(scope.as_str(), &file.message_type, out);
    let ghost with_messages = *out;
    collect_fqns_enums(scope.as_str(), &file.enum_type, out);
    assert forall|n: Seq<char>| #[trigger] out.has(n) <==> old(out).has(n) || file_declares(
        *file,
        n,
    ) by {
        assert(with_messages.has(n) || !with_messages.has(n));
    }
}

/// The package of the first file, from the one at `i` on, that declares a type.
pub open spec fn package_of(files: Seq<FileDescriptorProto>, i: int, fqn: Seq<char>) -> Option<
    Seq<char>,
>
    decreases files.len() - i,
{
    if i < 0 || i >= files.len() {
        None
    } else if file_declares(files[i], fqn) {
        Some(files[i].package_text())
    } else {
        package_of(files, i + 1, fqn)
    }
}

/// Find the package of a type.
fn find_package<'a>(files: &'a Vec<FileDescriptorProto>, fqn: &str) -> (r: Option<&'a str>)
    ensures
        match r {
            Some(package) => package_of(files@, 0, fqn@) == Some(package@),
            None => package_of(files@, 0, fqn@) is None,
        },
{
    let mut i: usize = 0;
    while i < files.len()
        invariant
            i <= files@.len(),
            package_of(files@, 0, fqn@) == package_of(files@, i as int, fqn@),
        decreases files@.len() - i,
    {
        let mut declared: NameSet = NameSet::new();
        assert(!declared.has(fqn@));
        collect_fqns_in_file(&files[i], &mut declared);
        if declared.contains(fqn) {
            return Some(files[i].package_name());
        }
        i = i + 1;
    }
    None
}

/// What a scan for such references goes by.
#[derive(Clone, Copy)]
pub struct ExcludedRefScan<'a> {
    /// Every file.
    pub files: &'a Vec<FileDescriptorProto>,
    /// The packages and types that live in other crates.
    pub extern_paths: &'a Vec<(String, String)>,
    /// The types that are generated.
    pub declared_in_kept: &'a NameSet,
    /// The types of files that live in other crates.
    pub file_extern_covered: &'a NameSet,
}

/// What such a search goes by.
pub struct ScanText {
    /// Every file.
    pub files: Seq<FileDescriptorProto>,
    /// The packages and types that live in other crates.
    pub extern_paths: Seq<(Seq<char>, Seq<char>)>,
    /// The types that are generated.
    pub declared_in_kept: Set<Seq<char>>,
    /// The types of files that live in other crates.
    pub file_extern_covered: Set<Seq<char>>,
}

impl<'a> View for ExcludedRefScan<'a> {
    type V = ScanText;

    open spec fn view(&self) -> ScanText {
        ScanText {
            files: self.files@,
            extern_paths: warning::pair_texts(self.extern_paths@),
            declared_in_kept: self.declared_in_kept@,
            file_extern_covered: self.file_extern_covered@,
        }
    }
}

/// A reference to a type leads nowhere: it is not generated, it is in a package
/// with a name, and no mapping covers it.
pub open spec fn is_dangling(scan: ScanText, fqn: Seq<char>) -> bool {
    &&& !scan.declared_in_kept.contains(fqn)
    &&& package_of(scan.files, 0, fqn) is Some
    &&& package_of(scan.files, 0, fqn)->Some_0.len() > 0
    &&& !extern_paths::pairs_cover(scan.extern_paths, fqn)
    &&& !scan.file_extern_covered.contains(fqn)
}

/// A warning of a reference from a file to a type.
pub open spec fn is_about(warning: WarningText, file: Seq<char>, fqn: Seq<char>) -> bool {
    match warning {
        WarningText::ExcludedPackageFieldRef { file_name, type_fqn, .. } => file_name == file
            && type_fqn == fqn,
        _ => false,
    }
}

/// There is a warning already of a reference from a file to a type.
pub open spec fn warned(warnings: Seq<WarningText>, file: Seq<char>, fqn: Seq<char>) -> bool {
    exists|i: int| 0 <= i < warnings.len() && is_about(#[trigger] warnings[i], file, fqn)
}

/// The warnings once a reference has been looked at.
pub open spec fn after_type(
    scan: ScanText,
    file: Seq<char>,
    message: Seq<char>,
    field: Seq<char>,
    fqn: Seq<char>,
    warnings: Seq<WarningText>,
) -> Seq<WarningText> {
    if is_dangling(scan, fqn) && !warned(warnings, file, fqn) {
        warnings.push(
            WarningText::ExcludedPackageFieldRef {
                file_name: file,
                message_name: message,
                field_name: field,
                ref_package: package_of(scan.files, 0, fqn)->Some_0,
                type_fqn: fqn,
            },
        )
    } else {
        warnings
    }
}

/// Whether there is a warning already of a reference from a file to a type.
fn already_warned(warnings: &Vec<CodeGenWarning>, file: &str, fqn: &str) -> (r: bool)
    ensures
        r == warned(warning::warning_texts(warnings@), file@, fqn@),
{
    let mut i: usize = 0;
    while i < warnings.len()
        invariant
            i <= warnings@.len(),
            forall|j: int|
                0 <= j < i ==> !is_about(
                    #[trigger] warning::warning_texts(warnings@)[j],
                    file@,
                    fqn@,
                ),
        decreases warnings@.len() - i,
    {
        assert(warning::warning_texts(warnings@)[i as int] == warnings@[i as int]@);
        match &warnings[i] {
            CodeGenWarning::ExcludedPackageFieldRef { file_name, type_fqn, .. } => {
                if same(file_name.as_str(), file) && same(type_fqn.as_str(), fqn) {
                    return true;
                }
            },
            _ => {},
        }
        i = i + 1;
    }
    false
}

/// Look at a reference to a type, and warn of it if it leads nowhere.
///
/// `field_name` is the field that the warning names: for the values of a map it
/// is the map field.
pub fn warn_excluded_refs_type(
    scan: ExcludedRefScan<'_>,
    file_name: &str,
    message_name: &str,
    field_name: &str,
    type_fqn: &str,
    warnings: &mut Vec<CodeGenWarning>,
)
    ensures
        warning::warning_texts(final(warnings)@) == after_type(
            scan@,
            file_name@,
            message_name@,
            field_name@,
            type_fqn@,
            warning::warning_texts(old(warnings)@),
        ),
{
    proof {
        extern_paths::lemma_mapped(scan.extern_paths@, type_fqn@);
    }
    if scan.declared_in_kept.contains(type_fqn) {
        return;
    }
    let ref_package: &str = match find_package(scan.files, type_fqn) {
        Some(package) => package,
        None => return,
    };
    if ref_package.is_empty() {
        return;
    }
    if is_mapped(scan.extern_paths, type_fqn) {
        return;
    }
    if scan.file_extern_covered.contains(type_fqn) {
        return;
    }
    if already_warned(warnings, file_name, type_fqn) {
        return;
    }
    warnings.push(
        CodeGenWarning::ExcludedPackageFieldRef {
            file_name: file_name.to_owned(),
            message_name: message_name.to_owned(),
            field_name: field_name.to_owned(),
            ref_package: ref_package.to_owned(),
            type_fqn: type_fqn.to_owned(),
        },
    );
    assert(warning::warning_texts(warnings@) =~= after_type(
        scan@,
        file_name@,
        message_name@,
        field_name@,
        type_fqn@,
        warning::warning_texts(old(warnings)@),
    ));
}

/// The warnings once an optional reference has been looked at; an empty one is
/// none.
pub open spec fn after_ref(
    scan: ScanText,
    file: Seq<char>,
    message: Seq<char>,
    field: Seq<char>,
    type_ref: Option<String>,
    warnings: Seq<WarningText>,
) -> Seq<WarningText> {
    if type_ref is Some && type_ref->Some_0@.len() > 0 {
        after_type(scan, file, message, field, type_ref->Some_0@, warnings)
    } else {
        warnings
    }
}

/// The warnings once a field's own type has been looked at.
pub open spec fn after_field(
    scan: ScanText,
    file: Seq<char>,
    message: Seq<char>,
    field: FieldDescriptorProto,
    warnings: Seq<WarningText>,
) -> Seq<WarningText> {
    after_ref(
        scan,
        file,
        message,
        descriptor::text_or(field.name, "?"@),
        field.type_ref,
        warnings,
    )
}

/// The warnings once a field has been looked at, and the values of its entries
/// where it is a map.
pub open spec fn after_map_field(
    scan: ScanText,
    file: Seq<char>,
    message: Seq<char>,
    field: FieldDescriptorProto,
    warnings: Seq<WarningText>,
) -> Seq<WarningText> {
    let own = after_field(scan, file, message, field, warnings);
    if field.repeated && field.map_entry is Some && field.map_entry->Some_0.complete {
        after_ref(
            scan,
            file,
            message,
            descriptor::text_or(field.name, "?"@),
            field.map_entry->Some_0.value_type,
            own,
        )
    } else {
        own
    }
}

/// The warnings once the first `k` fields have been looked at.
pub open spec fn after_fields(
    scan: ScanText,
    file: Seq<char>,
    message: Seq<char>,
    fields: Seq<FieldDescriptorProto>,
    k: nat,
    warnings: Seq<WarningText>,
) -> Seq<WarningText>
    decreases k,
{
    if k == 0 || k > fields.len() {
        warnings
    } else {
        after_map_field(
            scan,
            file,
            message,
            fields[k - 1],
            after_fields(scan, file, message, fields, (k - 1) as nat, warnings),
        )
    }
}

/// The warnings once the first `k` extensions have been looked at.
pub open spec fn after_extensions(
    scan: ScanText,
    file: Seq<char>,
    message: Seq<char>,
    extensions: Seq<FieldDescriptorProto>,
    k: nat,
    warnings: Seq<WarningText>,
) -> Seq<WarningText>
    decreases k,
{
    if k == 0 || k > extensions.len() {
        warnings
    } else {
        after_field(
            scan,
            file,
            message,
            extensions[k - 1],
            after_extensions(scan, file, message, extensions, (k - 1) as nat, warnings),
        )
    }
}

/// The warnings once a message has been looked at: its fields, its extensions,
/// and the messages in it.
pub open spec fn after_message(
    scan: ScanText,
    file: Seq<char>,
    msg: DescriptorProto,
    parent: Seq<char>,
    warnings: Seq<WarningText>,
) -> Seq<WarningText>
    decreases msg, 0nat,
{
    let path = descriptor::scoped(parent, descriptor::text_or(msg.name, "?"@));
    let fields = after_fields(scan, file, path, msg.field@, msg.field@.len(), warnings);
    let extensions = after_extensions(
        scan,
        file,
        path,
        msg.extension@,
        msg.extension@.len(),
        fields,
    );
    after_nested(scan, file, msg.nested_type@, msg.nested_type@.len(), path, extensions)
}

/// The warnings once the first `k` messages have been looked at. The entry types
/// of maps are left out: their references belong to the map fields.
pub open spec fn after_nested(
    scan: ScanText,
    file: Seq<char>,
    messages: Seq<DescriptorProto>,
    k: nat,
    path: Seq<char>,
    warnings: Seq<WarningText>,
) -> Seq<WarningText>
    decreases messages, k,
{
    if k == 0 || k > messages.len() {
        warnings
    } else {
        let before = after_nested(scan, file, messages, (k - 1) as nat, path, warnings);
        if messages[k - 1].map_entry {
            before
        } else {
            after_message(scan, file, messages[k - 1], path, before)
        }
    }
}

/// Look at an optional reference.
fn warn_excluded_refs_opt(
    scan: ExcludedRefScan<'_>,
    file_name: &str,
    message_name: &str,
    field_name: &str,
    type_ref: &Option<String>,
    warnings: &mut Vec<CodeGenWarning>,
)
    ensures
        warning::warning_texts(final(warnings)@) == after_ref(
            scan@,
            file_name@,
            message_name@,
            field_name@,
            *type_ref,
            warning::warning_texts(old(warnings)@),
        ),
{
    match type_ref {
        Some(type_fqn) => {
            if !type_fqn.as_str().is_empty() {
                warn_excluded_refs_type(
                    scan,
                    file_name,
                    message_name,
                    field_name,
                    type_fqn.as_str(),
                    warnings,
                );
            }
        },
        None => {},
    }
}

/// Look at a field's own type.
pub fn warn_excluded_refs_field(
    scan: ExcludedRefScan<'_>,
    file_name: &str,
    field: &FieldDescriptorProto,
    message_name: &str,
    warnings: &mut Vec<CodeGenWarning>,
)
    ensures
        warning::warning_texts(final(warnings)@) == after_field(
            scan@,
            file_name@,
            message_name@,
            *field,
            warning::warning_texts(old(warnings)@),
        ),
{
    warn_excluded_refs_opt(
        scan,
        file_name,
        message_name,
        str_or(&field.name, "?"),
        &field.type_ref,
        warnings,
    );
}

/// Look at a message: its fields, its extensions, and the messages in it.
pub fn warn_excluded_refs_msg(
    scan: ExcludedRefScan<'_>,
    file_name: &str,
    msg: &DescriptorProto,
    parent_path: &str,
    warnings: &mut Vec<CodeGenWarning>,
)
    ensures
        warning::warning_texts(final(warnings)@) == after_message(
            scan@,
            file_name@,
            *msg,
            parent_path@,
            warning::warning_texts(old(warnings)@),
        ),
    decreases msg,
{
    let ghost start = warning::warning_texts(warnings@);
    let message_path: String = scoped_name(parent_path, str_or(&msg.name, "?"));
    let mut i: usize = 0;
    while i < msg.field.len()
        invariant
            i <= msg.field@.len(),
            warning::warning_texts(warnings@) == after_fields(
                scan@,
                file_name@,
                message_path@,
                msg.field@,
                i as nat,
                start,
            ),
        decreases msg.field@.len() - i,
    {
        let field: &FieldDescriptorProto = &msg.field[i];
        warn_excluded_refs_field(scan, file_name, field, message_path.as_str(), warnings);
        match &field.map_entry {
            Some(entry) => {
                if field.repeated && entry.complete {
                    warn_excluded_refs_opt(
                        scan,
                        file_name,
                        message_path.as_str(),
                        str_or(&field.name, "?"),
                        &entry.value_type,
                        warnings,
                    );
                }
            },
            None => {},
        }
        i = i + 1;
    }
    let ghost with_fields = warning::warning_texts(warnings@);
    let mut j: usize = 0;
    while j < msg.extension.len()
        invariant
            j <= msg.extension@.len(),
            warning::warning_texts(warnings@) == after_extensions(
                scan@,
                file_name@,
                message_path@,
                msg.extension@,
                j as nat,
                with_fields,
            ),
        decreases msg.extension@.len() - j,
    {
        warn_excluded_refs_field(
            scan,
            file_name,
            &msg.extension[j],
            message_path.as_str(),
            warnings,
        );
        j = j + 1;
    }
    let ghost with_extensions = warning::warning_texts(warnings@);
    let mut k: usize = 0;
    while k < msg.nested_type.len()
        invariant
            k <= msg.nested_type@.len(),
            warning::warning_texts(warnings@) == after_nested(
                scan@,
                file_name@,
                msg.nested_type@,
                k as nat,
                message_path@,
                with_extensions,
            ),
        decreases msg.nested_type@.len() - k,
    {
        if !msg.nested_type[k].map_entry {
            warn_excluded_refs_msg(
                scan,
                file_name,
                &msg.nested_type[k],
                message_path.as_str(),
                warnings,
            );
        }
        k = k + 1;
    }
}

/// Two warnings are of the same file and the same type.
pub open spec fn same_ref(a: WarningText, b: WarningText) -> bool {
    match b {
        WarningText::ExcludedPackageFieldRef { file_name, type_fqn, .. } => is_about(
            a,
            file_name,
            type_fqn,
        ),
        _ => false,
    }
}

/// No two warnings are of the same file and the same type.
pub open spec fn warned_once(warnings: Seq<WarningText>) -> bool {
    forall|i: int, j: int|
        0 <= i < j < warnings.len() ==> !same_ref(#[trigger] warnings[i], #[trigger] warnings[j])
}

/// From `before` to `after`, exactly the references from a file among `refs` that
/// lead nowhere were reported, each once.
pub open spec fn reports_refs(
    scan: ScanText,
    file: Seq<char>,
    refs: spec_fn(Seq<char>) -> bool,
    before: Seq<WarningText>,
    after: Seq<WarningText>,
) -> bool {
    &&& forall|f: Seq<char>, fqn: Seq<char>| #[trigger]
        warned(after, f, fqn) <==> warned(before, f, fqn) || (f == file && is_dangling(scan, fqn)
            && refs(fqn))
    &&& warned_once(before) ==> warned_once(after)
}

/// An optional reference is to a type.
pub open spec fn ref_is(type_ref: Option<String>, fqn: Seq<char>) -> bool {
    type_ref is Some && type_ref->Some_0@ == fqn && fqn.len() > 0
}

/// A field refers to a type: by itself, or by the values of its entries where it
/// is a map.
pub open spec fn field_refers(field: FieldDescriptorProto, fqn: Seq<char>) -> bool {
    ||| ref_is(field.type_ref, fqn)
    ||| field.repeated && field.map_entry is Some && field.map_entry->Some_0.complete && ref_is(
        field.map_entry->Some_0.value_type,
        fqn,
    )
}

/// One of the first `k` fields refers to a type.
pub open spec fn fields_refer(fields: Seq<FieldDescriptorProto>, k: nat, fqn: Seq<char>) -> bool
    decreases k,
{
    k > 0 && k <= fields.len() && (fields_refer(fields, (k - 1) as nat, fqn) || field_refers(
        fields[k - 1],
        fqn,
    ))
}

/// One of the first `k` extensions refers to a type.
pub open spec fn extensions_refer(
    extensions: Seq<FieldDescriptorProto>,
    k: nat,
    fqn: Seq<char>,
) -> bool
    decreases k,
{
    k > 0 && k <= extensions.len() && (extensions_refer(extensions, (k - 1) as nat, fqn) || ref_is(
        extensions[k - 1].type_ref,
        fqn,
    ))
}

/// A message refers to a type: in a field, in an extension, or in a message that
/// is declared in it. The entry types of maps are left out.
pub open spec fn message_refers(msg: DescriptorProto, fqn: Seq<char>) -> bool
    decreases msg, 0nat,
{
    ||| fields_refer(msg.field@, msg.field@.len(), fqn)
    ||| extensions_refer(msg.extension@, msg.extension@.len(), fqn)
    ||| nested_refer(msg.nested_type@, msg.nested_type@.len(), fqn)
}

/// One of the first `k` messages refers to a type.
pub open spec fn nested_refer(messages: Seq<DescriptorProto>, k: nat, fqn: Seq<char>) -> bool
    decreases messages, k,
{
    k > 0 && k <= messages.len() && {
        ||| nested_refer(messages, (k - 1) as nat, fqn)
        ||| !messages[k - 1].map_entry && message_refers(messages[k - 1], fqn)
    }
}

/// Reports follow one another.
pub proof fn lemma_reports_chain(
    scan: ScanText,
    file: Seq<char>,
    first: spec_fn(Seq<char>) -> bool,
    second: spec_fn(Seq<char>) -> bool,
    both: spec_fn(Seq<char>) -> bool,
    a: Seq<WarningText>,
    b: Seq<WarningText>,
    c: Seq<WarningText>,
)
    requires
        reports_refs(scan, file, first, a, b),
        reports_refs(scan, file, second, b, c),
        forall|fqn: Seq<char>| #[trigger] both(fqn) <==> first(fqn) || second(fqn),
    ensures
        reports_refs(scan, file, both, a, c),
{
    assert forall|f: Seq<char>, fqn: Seq<char>| #[trigger] warned(c, f, fqn) <==> warned(a, f, fqn)
        || (f == file && is_dangling(scan, fqn) && both(fqn)) by {
        assert(warned(b, f, fqn) || !warned(b, f, fqn));
    }
}

/// Looking at an optional reference reports it, if it leads nowhere.
proof fn lemma_reports_ref(
    scan: ScanText,
    file: Seq<char>,
    message: Seq<char>,
    field: Seq<char>,
    type_ref: Option<String>,
    before: Seq<WarningText>,
)
    ensures
        reports_refs(
            scan,
            file,
            |fqn: Seq<char>| ref_is(type_ref, fqn),
            before,
            after_ref(scan, file, message, field, type_ref, before),
        ),
{
    let after = after_ref(scan, file, message, field, type_ref, before);
    if after != before {
        let target = type_ref->Some_0@;
        assert(after.len() == before.len() + 1);
        assert(is_about(after.last(), file, target));
        assert forall|f: Seq<char>, fqn: Seq<char>| #[trigger] warned(after, f, fqn) <==> warned(
            before,
            f,
            fqn,
        ) || (f == file && is_dangling(scan, fqn) && ref_is(type_ref, fqn)) by {
            if warned(before, f, fqn) {
                let i = choose|i: int|
                    0 <= i < before.len() && is_about(#[trigger] before[i], f, fqn);
                assert(after[i] == before[i]);
            }
            if f == file && fqn == target {
                assert(is_about(after[before.len() as int], f, fqn));
            }
            if warned(after, f, fqn) {
                let i = choose|i: int|
                    0 <= i < after.len() && is_about(#[trigger] after[i], f, fqn);
                if i < before.len() {
                    assert(is_about(before[i], f, fqn));
                }
            }
        }
        if warned_once(before) {
            assert forall|i: int, j: int| 0 <= i < j < after.len() implies !same_ref(
                #[trigger] after[i],
                #[trigger] after[j],
            ) by {
                assert(after[i] == before[i]);
                if j < before.len() {
                    assert(after[j] == before[j]);
                } else if same_ref(after[i], after[j]) {
                    assert(is_about(before[i], file, target));
                    assert(warned(before, file, target));
                }
            }
        }
    } else if type_ref is Some && is_dangling(scan, type_ref->Some_0@) && type_ref->Some_0@.len()
        > 0 {
        assert(warned(before, file, type_ref->Some_0@)) by {
            assert(after_type(scan, file, message, field, type_ref->Some_0@, before).len()
                == before.len());
        }
    }
}

/// Looking at fields reports the references in them.
proof fn lemma_reports_fields(
    scan: ScanText,
    file: Seq<char>,
    message: Seq<char>,
    fields: Seq<FieldDescriptorProto>,
    k: nat,
    before: Seq<WarningText>,
)
    requires
        k <= fields.len(),
    ensures
        reports_refs(
            scan,
            file,
            |fqn: Seq<char>| fields_refer(fields, k, fqn),
            before,
            after_fields(scan, file, message, fields, k, before),
        ),
    decreases k,
{
    if k > 0 {
        let field = fields[k - 1];
        let name = descriptor::text_or(field.name, "?"@);
        let a = after_fields(scan, file, message, fields, (k - 1) as nat, before);
        let own = after_field(scan, file, message, field, a);
        let so_far = |fqn: Seq<char>| fields_refer(fields, (k - 1) as nat, fqn);
        let by_itself = |fqn: Seq<char>| ref_is(field.type_ref, fqn);
        let with_own = |fqn: Seq<char>| so_far(fqn) || by_itself(fqn);
        let all = |fqn: Seq<char>| fields_refer(fields, k, fqn);
        lemma_reports_fields(scan, file, message, fields, (k - 1) as nat, before);
        lemma_reports_ref(scan, file, message, name, field.type_ref, a);
        lemma_reports_chain(scan, file, so_far, by_itself, with_own, before, a, own);
        if field.repeated && field.map_entry is Some && field.map_entry->Some_0.complete {
            let value = field.map_entry->Some_0.value_type;
            let by_value = |fqn: Seq<char>| ref_is(value, fqn);
            let end = after_ref(scan, file, message, name, value, own);
            lemma_reports_ref(scan, file, message, name, value, own);
            lemma_reports_chain(scan, file, with_own, by_value, all, before, own, end);
        } else {
            assert forall|f: Seq<char>, fqn: Seq<char>| #[trigger] warned(own, f, fqn)
                <==> warned(before, f, fqn) || (f == file && is_dangling(scan, fqn) && all(fqn)) by {
                assert(with_own(fqn) == all(fqn));
            }
        }
    }
}

/// Looking at extensions reports the references in them.
pub proof fn lemma_reports_extensions(
    scan: ScanText,
    file: Seq<char>,
    message: Seq<char>,
    extensions: Seq<FieldDescriptorProto>,
    k: nat,
    before: Seq<WarningText>,
)
    requires
        k <= extensions.len(),
    ensures
        reports_refs(
            scan,
            file,
            |fqn: Seq<char>| extensions_refer(extensions, k, fqn),
            before,
            after_extensions(scan, file, message, extensions, k, before),
        ),
    decreases k,
{
    if k > 0 {
        let field = extensions[k - 1];
        let name = descriptor::text_or(field.name, "?"@);
        let a = after_extensions(scan, file, message, extensions, (k - 1) as nat, before);
        let end = after_field(scan, file, message, field, a);
        let so_far = |fqn: Seq<char>| extensions_refer(extensions, (k - 1) as nat, fqn);
        let by_itself = |fqn: Seq<char>| ref_is(field.type_ref, fqn);
        let all = |fqn: Seq<char>| extensions_refer(extensions, k, fqn);
        lemma_reports_extensions(scan, file, message, extensions, (k - 1) as nat, before);
        lemma_reports_ref(scan, file, message, name, field.type_ref, a);
        lemma_reports_chain(scan, file, so_far, by_itself, all, before, a, end);
    }
}

/// Looking at a message reports exactly the references in it that lead nowhere,
/// each once for its file and its type.
pub proof fn law_message_scan_reports_its_refs(
    scan: ScanText,
    file: Seq<char>,
    msg: DescriptorProto,
    parent: Seq<char>,
    before: Seq<WarningText>,
)
    ensures
        reports_refs(
            scan,
            file,
            |fqn: Seq<char>| message_refers(msg, fqn),
            before,
            after_message(scan, file, msg, parent, before),
        ),
    decreases msg, 0nat,
{
    let path = descriptor::scoped(parent, descriptor::text_or(msg.name, "?"@));
    let a = after_fields(scan, file, path, msg.field@, msg.field@.len(), before);
    let b = after_extensions(scan, file, path, msg.extension@, msg.extension@.len(), a);
    let c = after_nested(scan, file, msg.nested_type@, msg.nested_type@.len(), path, b);
    let in_fields = |fqn: Seq<char>| fields_refer(msg.field@, msg.field@.len(), fqn);
    let in_extensions = |fqn: Seq<char>|
        extensions_refer(msg.extension@, msg.extension@.len(), fqn);
    let in_both = |fqn: Seq<char>| in_fields(fqn) || in_extensions(fqn);
    let in_nested = |fqn: Seq<char>| nested_refer(msg.nested_type@, msg.nested_type@.len(), fqn);
    let all = |fqn: Seq<char>| message_refers(msg, fqn);
    lemma_reports_fields(scan, file, path, msg.field@, msg.field@.len(), before);
    lemma_reports_extensions(scan, file, path, msg.extension@, msg.extension@.len(), a);
    lemma_reports_nested(scan, file, msg.nested_type@, msg.nested_type@.len(), path, b);
    lemma_reports_chain(scan, file, in_fields, in_extensions, in_both, before, a, b);
    lemma_reports_chain(scan, file, in_both, in_nested, all, before, b, c);
}

/// The same, of messages that are declared in another.
proof fn lemma_reports_nested(
    scan: ScanText,
    file: Seq<char>,
    messages: Seq<DescriptorProto>,
    k: nat,
    path: Seq<char>,
    before: Seq<WarningText>,
)
    requires
        k <= messages.len(),
    ensures
        reports_refs(
            scan,
            file,
            |fqn: Seq<char>| nested_refer(messages, k, fqn),
            before,
            after_nested(scan, file, messages, k, path, before),
        ),
    decreases messages, k,
{
    if k > 0 {
        let a = after_nested(scan, file, messages, (k - 1) as nat, path, before);
        let so_far = |fqn: Seq<char>| nested_refer(messages, (k - 1) as nat, fqn);
        let all = |fqn: Seq<char>| nested_refer(messages, k, fqn);
        lemma_reports_nested(scan, file, messages, (k - 1) as nat, path, before);
        if messages[k - 1].map_entry {
            assert forall|f: Seq<char>, fqn: Seq<char>| #[trigger] warned(a, f, fqn)
                <==> warned(before, f, fqn) || (f == file && is_dangling(scan, fqn) && all(fqn)) by {
                assert(so_far(fqn) == all(fqn));
            }
        } else {
            let msg = messages[k - 1];
            let here = |fqn: Seq<char>| message_refers(msg, fqn);
            let end = after_message(scan, file, msg, path, a);
            law_message_scan_reports_its_refs(scan, file, msg, path, a);
            lemma_reports_chain(scan, file, so_far, here, all, before, a, end);
        }
    }
}

} // verus!
