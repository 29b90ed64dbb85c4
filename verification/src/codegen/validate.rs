//! What is checked of a file before code is generated for it.
use vstd::prelude::*;
use vstd::string::*;
use crate::codegen::descriptor;
use crate::codegen::descriptor::{
    scoped_name, str_or, DescriptorProto, EnumDescriptorProto, FieldDescriptorProto,
    FileDescriptorProto,
};
use crate::codegen::errors::CodeGenError;
use crate::codegen::errors::ErrorText;
use crate::codegen::packages;
use crate::codegen::packages::SENTINEL_MOD;
use crate::codegen::text;
use crate::codegen::text::{same, split, starts_with};

verus! {

/// The error of an element that would take the reserved name.
pub open spec fn reserved(name: Seq<char>, location: Seq<char>) -> ErrorText {
    ErrorText::ReservedModuleName { name, location }
}

/// The first of a message's fields, at or after `i`, whose name begins with the
/// reserved prefix.
pub open spec fn reserved_field(fields: Seq<FieldDescriptorProto>, i: int) -> Option<Seq<char>>
    decreases fields.len() - i,
{
    if i < 0 || i >= fields.len() {
        None
    } else if fields[i].name is Some && text::begins(fields[i].name->Some_0@, "__buffa_"@) {
        Some(fields[i].name->Some_0@)
    } else {
        reserved_field(fields, i + 1)
    }
}

/// The first of the messages from `j` up to `n` that goes to the given module.
pub open spec fn sibling_in_module(
    messages: Seq<DescriptorProto>,
    module: Seq<char>,
    j: int,
    n: int,
) -> Option<int>
    decreases n - j,
{
    if j < 0 || j >= n || j >= messages.len() {
        None
    } else if messages[j].module_name@ == module {
        Some(j)
    } else {
        sibling_in_module(messages, module, j + 1, n)
    }
}

/// What is wrong with a message itself, given the messages before it in its
/// scope.
pub open spec fn message_fault(messages: Seq<DescriptorProto>, i: int, scope: Seq<char>) -> Option<
    ErrorText,
> {
    let msg = messages[i];
    let name = descriptor::text_or(msg.name, ""@);
    let fqn = descriptor::scoped(scope, name);
    match reserved_field(msg.field@, 0) {
        Some(field_name) => Some(ErrorText::ReservedFieldName { message_name: fqn, field_name }),
        None => if msg.module_name@ == SENTINEL_MOD@ {
            Some(reserved(SENTINEL_MOD@, "message '"@ + fqn + "'"@))
        } else {
            match sibling_in_module(messages, msg.module_name@, 0, i) {
                Some(j) => Some(
                    ErrorText::ModuleNameConflict {
                        scope,
                        name_a: descriptor::text_or(messages[j].name, ""@),
                        name_b: name,
                        module_name: msg.module_name@,
                    },
                ),
                None => None,
            }
        },
    }
}

/// What is wrong with the messages of a scope, from the one at `i` on: the
/// first fault in a walk of the tree that takes a message before what is nested
/// in it.
pub open spec fn messages_fault(messages: Seq<DescriptorProto>, i: int, scope: Seq<char>) -> Option<
    ErrorText,
>
    decreases messages, messages.len() - i,
{
    if i < 0 || i >= messages.len() {
        None
    } else {
        let fqn = descriptor::scoped(scope, descriptor::text_or(messages[i].name, ""@));
        match message_fault(messages, i, scope) {
            Some(e) => Some(e),
            None => match messages_fault(messages[i].nested_type@, 0, fqn) {
                Some(e) => Some(e),
                None => messages_fault(messages, i + 1, scope),
            },
        }
    }
}

/// What is wrong with the file-level enums, from the one at `i` on.
pub open spec fn enums_fault(enums: Seq<EnumDescriptorProto>, i: int, package: Seq<char>) -> Option<
    ErrorText,
>
    decreases enums.len() - i,
{
    if i < 0 || i >= enums.len() {
        None
    } else if descriptor::text_or(enums[i].name, ""@) == SENTINEL_MOD@ {
        Some(reserved(SENTINEL_MOD@, "enum '"@ + package + "."@ + SENTINEL_MOD@ + "'"@))
    } else {
        enums_fault(enums, i + 1, package)
    }
}

/// A dotted name has `segment` among its components.
pub open spec fn has_segment(name: Seq<char>, segment: Seq<char>) -> bool {
    text::pieces(name, "."@).contains(segment)
}

/// Whether a dotted name has `segment` among its components.
pub fn contains_segment(name: &str, segment: &str) -> (r: bool)
    ensures
        r == has_segment(name@, segment@),
{
    proof {
        reveal_strlit(".");
    }
    let parts: Vec<&str> = split(name, ".");
    let mut i: usize = 0;
    while i < parts.len()
        invariant
            i <= parts@.len(),
            text::views(parts@) == text::pieces(name@, "."@),
            forall|j: int| 0 <= j < i ==> #[trigger] text::pieces(name@, "."@)[j] != segment@,
        decreases parts@.len() - i,
    {
        assert(text::pieces(name@, "."@)[i as int] == parts@[i as int]@);
        if same(parts[i], segment) {
            return true;
        }
        i = i + 1;
    }
    false
}

/// What is wrong with a file: a package segment, a file-level enum or a message
/// module with the reserved name, a field with the reserved prefix, or two
/// sibling messages that go to one module.
pub open spec fn file_fault(file: FileDescriptorProto) -> Option<ErrorText> {
    let package = file.package_text();
    if has_segment(package, SENTINEL_MOD@) {
        Some(reserved(SENTINEL_MOD@, "package '"@ + package + "'"@))
    } else {
        match enums_fault(file.enum_type@, 0, package) {
            Some(e) => Some(e),
            None => messages_fault(file.message_type@, 0, package),
        }
    }
}

/// A check passes where there is no fault, and reports the fault where there is
/// one.
pub open spec fn reports(result: Result<(), CodeGenError>, fault: Option<ErrorText>) -> bool {
    match fault {
        None => result is Ok,
        Some(e) => result is Err && result->Err_0@ == e,
    }
}

/// Check a message itself.
fn check_message(messages: &Vec<DescriptorProto>, i: usize, scope: &str, fqn: &str) -> (result:
    Result<(), CodeGenError>)
    requires
        i < messages@.len(),
        fqn@ == descriptor::scoped(scope@, descriptor::text_or(messages@[i as int].name, ""@)),
    ensures
        reports(result, message_fault(messages@, i as int, scope@)),
{
    let msg: &DescriptorProto = &messages[i];
    let mut k: usize = 0;
    while k < msg.field.len()
        invariant
            k <= msg.field@.len(),
            i < messages@.len(),
            *msg == messages@[i as int],
            fqn@ == descriptor::scoped(scope@, descriptor::text_or(msg.name, ""@)),
            reserved_field(msg.field@, 0) == reserved_field(msg.field@, k as int),
        decreases msg.field@.len() - k,
    {
        match &msg.field[k].name {
            Some(name) => {
                if starts_with(name.as_str(), "__buffa_") {
                    return Err(
                        CodeGenError::ReservedFieldName {
                            message_name: fqn.to_owned(),
                            field_name: name.clone(),
                        },
                    );
                }
            },
            None => {},
        }
        k = k + 1;
    }
    if same(msg.module_name.as_str(), SENTINEL_MOD) {
        let mut location: String = "message '".to_owned();
        location.append(fqn);
        location.append("'");
        return Err(
            CodeGenError::ReservedModuleName { name: SENTINEL_MOD.to_owned(), location },
        );
    }
    let mut j: usize = 0;
    while j < i
        invariant
            j <= i < messages@.len(),
            *msg == messages@[i as int],
            reserved_field(msg.field@, 0) is None,
            msg.module_name@ != SENTINEL_MOD@,
            sibling_in_module(messages@, msg.module_name@, 0, i as int) == sibling_in_module(
                messages@,
                msg.module_name@,
                j as int,
                i as int,
            ),
        decreases i - j,
    {
        if messages[j].module_name == msg.module_name {
            return Err(
                CodeGenError::ModuleNameConflict {
                    scope: scope.to_owned(),
                    name_a: str_or(&messages[j].name, "").to_owned(),
                    name_b: str_or(&msg.name, "").to_owned(),
                    module_name: msg.module_name.clone(),
                },
            );
        }
        j = j + 1;
    }
    Ok(())
}

/// Check the messages of a scope, and what is nested in them.
fn check_messages(messages: &Vec<DescriptorProto>, scope: &str) -> (result: Result<(), CodeGenError>)
    ensures
        reports(result, messages_fault(messages@, 0, scope@)),
    decreases messages,
{
    let mut i: usize = 0;
    while i < messages.len()
        invariant
            i <= messages@.len(),
            messages_fault(messages@, 0, scope@) == messages_fault(messages@, i as int, scope@),
        decreases messages@.len() - i,
    {
        let fqn: String = scoped_name(scope, str_or(&messages[i].name, ""));
        match check_message(messages, i, scope, fqn.as_str()) {
            Ok(()) => {},
            Err(e) => return Err(e),
        }
        match check_messages(&messages[i].nested_type, fqn.as_str()) {
            Ok(()) => {},
            Err(e) => return Err(e),
        }
        i = i + 1;
    }
    Ok(())
}

/// Check a file before code is generated for it.
pub fn validate_file(file: &FileDescriptorProto) -> (result: Result<(), CodeGenError>)
    ensures
        reports(result, file_fault(*file)),
{
    let package: &str = file.package_name();
    if contains_segment(package, SENTINEL_MOD) {
        let mut location: String = "package '".to_owned();
        location.append(package);
        location.append("'");
        return Err(
            CodeGenError::ReservedModuleName { name: SENTINEL_MOD.to_owned(), location },
        );
    }
    let mut i: usize = 0;
    while i < file.enum_type.len()
        invariant
            i <= file.enum_type@.len(),
            package@ == file.package_text(),
            !has_segment(package@, SENTINEL_MOD@),
            enums_fault(file.enum_type@, 0, package@) == enums_fault(
                file.enum_type@,
                i as int,
                package@,
            ),
        decreases file.enum_type@.len() - i,
    {
        let name: &str = str_or(&file.enum_type[i].name, "");
        if same(name, SENTINEL_MOD) {
            let mut location: String = "enum '".to_owned();
            location.append(package);
            location.append(".");
            location.append(name);
            location.append("'");
            return Err(
                CodeGenError::ReservedModuleName { name: SENTINEL_MOD.to_owned(), location },
            );
        }
        i = i + 1;
    }
    check_messages(&file.message_type, package)
}

/// A name without a dot is its own only component.
proof fn lemma_one_segment(name: Seq<char>)
    requires
        forall|i: int| 0 <= i < name.len() ==> name[i] != '.',
    ensures
        has_segment(name, name),
{
    reveal_strlit(".");
    text::lemma_find_from(name, "."@, 0);
    if let Some(j) = text::find_from(name, "."@, 0) {
        assert(name.subrange(j, j + 1)[0] == name[j]);
    }
    assert(text::pieces(name, "."@) =~= seq![name]);
    assert(text::pieces(name, "."@)[0] == name);
}

/// A file that passes the check is in no package that goes by the reserved name.
pub proof fn law_valid_package_is_not_reserved(file: FileDescriptorProto)
    requires
        file_fault(file) is None,
    ensures
        file.package_text() != SENTINEL_MOD@,
{
    reveal_strlit("__buffa");
    lemma_one_segment(SENTINEL_MOD@);
}

/// Two files that pass the check, in different packages, go to different
/// stitchers.
pub proof fn law_valid_packages_have_their_own_files(
    a: FileDescriptorProto,
    b: FileDescriptorProto,
)
    requires
        file_fault(a) is None,
        file_fault(b) is None,
        a.package_text() != b.package_text(),
    ensures
        packages::mod_filename(a.package_text()) != packages::mod_filename(b.package_text()),
        packages::filename(a.package_text()) != packages::filename(b.package_text()),
{
    law_valid_package_is_not_reserved(a);
    law_valid_package_is_not_reserved(b);
    packages::law_packages_have_their_own_files(a.package_text(), b.package_text());
}

/// In a scope that passes the check, every message has a module of its own, none
/// of them the reserved one, no field takes a reserved name, and the scope of
/// every message passes the check too.
pub proof fn law_valid_scope(messages: Seq<DescriptorProto>, scope: Seq<char>)
    requires
        messages_fault(messages, 0, scope) is None,
    ensures
        forall|i: int, j: int|
            0 <= i < j < messages.len() ==> (#[trigger] messages[i]).module_name@ != (
            #[trigger] messages[j]).module_name@,
        forall|i: int|
            0 <= i < messages.len() ==> (#[trigger] messages[i]).module_name@ != SENTINEL_MOD@,
        forall|i: int, f: int|
            0 <= i < messages.len() && 0 <= f < messages[i].field@.len() && (
            #[trigger] messages[i].field@[f]).name is Some ==> !text::begins(
                messages[i].field@[f].name->Some_0@,
                "__buffa_"@,
            ),
        forall|i: int|
            0 <= i < messages.len() ==> messages_fault(
                (#[trigger] messages[i]).nested_type@,
                0,
                descriptor::scoped(scope, descriptor::text_or(messages[i].name, ""@)),
            ) is None,
{
    lemma_valid_from(messages, 0, scope);
    assert forall|i: int, j: int| 0 <= i < j < messages.len() implies (
    #[trigger] messages[i]).module_name@ != (#[trigger] messages[j]).module_name@ by {
        assert(message_fault(messages, j, scope) is None);
        lemma_no_sibling(messages, messages[j].module_name@, 0, j);
    }
    assert forall|i: int| 0 <= i < messages.len() implies (#[trigger] messages[i]).module_name@
        != SENTINEL_MOD@ by {
        assert(message_fault(messages, i, scope) is None);
    }
    assert forall|i: int, f: int|
        0 <= i < messages.len() && 0 <= f < messages[i].field@.len() && (
        #[trigger] messages[i].field@[f]).name is Some implies !text::begins(
        messages[i].field@[f].name->Some_0@,
        "__buffa_"@,
    ) by {
        assert(message_fault(messages, i, scope) is None);
        lemma_no_reserved_field(messages[i].field@, 0);
    }
}

proof fn lemma_valid_from(messages: Seq<DescriptorProto>, i: int, scope: Seq<char>)
    requires
        0 <= i,
        messages_fault(messages, i, scope) is None,
    ensures
        forall|j: int|
            i <= j < messages.len() ==> #[trigger] message_fault(messages, j, scope) is None,
        forall|j: int|
            i <= j < messages.len() ==> messages_fault(
                (#[trigger] messages[j]).nested_type@,
                0,
                descriptor::scoped(scope, descriptor::text_or(messages[j].name, ""@)),
            ) is None,
    decreases messages.len() - i,
{
    if i < messages.len() {
        lemma_valid_from(messages, i + 1, scope);
    }
}

proof fn lemma_no_sibling(messages: Seq<DescriptorProto>, module: Seq<char>, j: int, n: int)
    requires
        0 <= j,
        n <= messages.len(),
        sibling_in_module(messages, module, j, n) is None,
    ensures
        forall|k: int| j <= k < n ==> (#[trigger] messages[k]).module_name@ != module,
    decreases n - j,
{
    if j < n {
        lemma_no_sibling(messages, module, j + 1, n);
    }
}

proof fn lemma_no_reserved_field(fields: Seq<FieldDescriptorProto>, i: int)
    requires
        0 <= i,
        reserved_field(fields, i) is None,
    ensures
        forall|f: int|
            i <= f < fields.len() && (#[trigger] fields[f]).name is Some ==> !text::begins(
                fields[f].name->Some_0@,
                "__buffa_"@,
            ),
    decreases fields.len() - i,
{
    if i < fields.len() {
        lemma_no_reserved_field(fields, i + 1);
    }
}

} // verus!
