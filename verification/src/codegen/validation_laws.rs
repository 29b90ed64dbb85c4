//! Which files are refused, and why.
use vstd::prelude::*;
use vstd::string::*;
use crate::codegen::descriptor;
use crate::codegen::descriptor::{
    DescriptorProto, EnumDescriptorProto, FieldDescriptorProto, FileDescriptorProto,
};
use crate::codegen::errors::ErrorText;
use crate::codegen::text;
use crate::codegen::validate;
use crate::codegen::walks;

verus! {

/// A field's name is one that the generated code keeps for itself.
pub open spec fn is_reserved_name(field: FieldDescriptorProto) -> bool {
    field.name matches Some(n) && n@.len() >= "__buffa_"@.len() && n@.take(
        "__buffa_"@.len() as int,
    ) == "__buffa_"@
}

/// The message at place `i` of its scope is refused: one of its fields has a reserved
/// name, its module would take the reserved name, or that of a message before it.
pub open spec fn is_refused(siblings: Seq<DescriptorProto>, i: int) -> bool {
    ||| exists|f: int|
        0 <= f < siblings[i].field@.len() && is_reserved_name(#[trigger] siblings[i].field@[f])
    ||| siblings[i].module_name@ == "__buffa"@
    ||| exists|j: int|
        0 <= j < i && (#[trigger] siblings[j]).module_name@ == siblings[i].module_name@
}

/// The messages among which the one that a way leads to stands.
pub open spec fn siblings_at(messages: Seq<DescriptorProto>, way: Seq<int>) -> Seq<DescriptorProto>
    decreases way.len(),
{
    if way.len() <= 1 || !(0 <= way[0] < messages.len()) {
        messages
    } else {
        siblings_at(messages[way[0]].nested_type@, way.skip(1))
    }
}

/// Some message, at any depth, is refused.
pub open spec fn some_refused(messages: Seq<DescriptorProto>) -> bool {
    exists|way: Seq<int>|
        (#[trigger] walks::message_at(messages, way)) is Some && is_refused(
            siblings_at(messages, way),
            way.last(),
        )
}

proof fn lemma_reserved_prefix(n: Seq<char>)
    ensures
        text::begins(n, "__buffa_"@) <==> n.len() >= "__buffa_"@.len() && n.take(
            "__buffa_"@.len() as int,
        ) == "__buffa_"@,
{
    if n.len() >= "__buffa_"@.len() {
        assert(n.take("__buffa_"@.len() as int) =~= n.subrange(0, "__buffa_"@.len() as int));
    }
}

proof fn lemma_reserved_field(fields: Seq<FieldDescriptorProto>, k: int)
    requires
        0 <= k,
    ensures
        match validate::reserved_field(fields, k) {
            Some(name) => exists|f: int|
                k <= f < fields.len() && is_reserved_name(#[trigger] fields[f])
                    && fields[f].name->Some_0@ == name,
            None => forall|f: int|
                k <= f < fields.len() ==> !is_reserved_name(#[trigger] fields[f]),
        },
    decreases fields.len() - k,
{
    if k < fields.len() {
        lemma_reserved_field(fields, k + 1);
        if fields[k].name is Some {
            lemma_reserved_prefix(fields[k].name->Some_0@);
        }
        if validate::reserved_field(fields, k) is Some && is_reserved_name(fields[k]) {
            assert(fields[k].name->Some_0@ == validate::reserved_field(fields, k)->Some_0);
        }
    }
}

proof fn lemma_sibling(messages: Seq<DescriptorProto>, module: Seq<char>, k: int, n: int)
    requires
        0 <= k,
        n <= messages.len(),
    ensures
        match validate::sibling_in_module(messages, module, k, n) {
            Some(j) => k <= j < n && messages[j].module_name@ == module,
            None => forall|j: int| k <= j < n ==> (#[trigger] messages[j]).module_name@ != module,
        },
    decreases n - k,
{
    if k < n {
        lemma_sibling(messages, module, k + 1, n);
    }
}

/// An error is about the message at place `i` of a scope.
pub open spec fn is_about(
    e: ErrorText,
    scope: Seq<char>,
    siblings: Seq<DescriptorProto>,
    i: int,
) -> bool {
    let name = match siblings[i].name {
        Some(n) => n@,
        None => Seq::empty(),
    };
    let full = if scope.len() == 0 {
        name
    } else {
        scope + "."@ + name
    };
    match e {
        ErrorText::ReservedFieldName { message_name, field_name } => message_name == full && exists|
            f: int,
        |
            0 <= f < siblings[i].field@.len() && is_reserved_name(#[trigger] siblings[i].field@[f])
                && siblings[i].field@[f].name->Some_0@ == field_name,
        ErrorText::ReservedModuleName { name, location } => name == "__buffa"@
            && siblings[i].module_name@ == "__buffa"@ && location == "message '"@ + full + "'"@,
        ErrorText::ModuleNameConflict { scope: place, name_a, name_b, module_name } => place
            == scope && name_b == name && module_name == siblings[i].module_name@ && exists|j: int|
            0 <= j < i && (#[trigger] siblings[j]).module_name@ == module_name && name_a == (
            match siblings[j].name {
                Some(n) => n@,
                None => Seq::empty(),
            }),
        _ => false,
    }
}

proof fn lemma_message_fault(messages: Seq<DescriptorProto>, i: int, scope: Seq<char>)
    requires
        0 <= i < messages.len(),
    ensures
        validate::message_fault(messages, i, scope) is Some <==> is_refused(messages, i),
        validate::message_fault(messages, i, scope) matches Some(e) ==> is_about(
            e,
            scope,
            messages,
            i,
        ),
{
    reveal_strlit("");
    assert(""@ =~= Seq::<char>::empty());
    lemma_reserved_field(messages[i].field@, 0);
    lemma_sibling(messages, messages[i].module_name@, 0, i);
    let name = descriptor::text_or(messages[i].name, ""@);
    assert(name =~= match messages[i].name {
        Some(n) => n@,
        None => Seq::<char>::empty(),
    });
    if let Some(j) = validate::sibling_in_module(messages, messages[i].module_name@, 0, i) {
        assert(messages[j].module_name@ == messages[i].module_name@);
        assert(descriptor::text_or(messages[j].name, ""@) =~= match messages[j].name {
            Some(n) => n@,
            None => Seq::<char>::empty(),
        });
    }
}

spec fn scope_in(scope: Seq<char>, msg: DescriptorProto) -> Seq<char> {
    descriptor::scoped(scope, descriptor::text_or(msg.name, ""@))
}

proof fn lemma_messages_fault(messages: Seq<DescriptorProto>, k: int, scope: Seq<char>)
    requires
        0 <= k,
    ensures
        match validate::messages_fault(messages, k, scope) {
            Some(e) => exists|i: int|
                k <= i < messages.len() && (validate::message_fault(
                    messages,
                    #[trigger] idx(i),
                    scope,
                ) == Some(e) || validate::messages_fault(
                    messages[i].nested_type@,
                    0,
                    scope_in(scope, messages[i]),
                ) == Some(e)),
            None => forall|i: int|
                k <= i < messages.len() ==> validate::message_fault(
                    messages,
                    #[trigger] idx(i),
                    scope,
                ) is None && validate::messages_fault(
                    messages[i].nested_type@,
                    0,
                    scope_in(scope, messages[i]),
                ) is None,
        },
    decreases messages.len() - k,
{
    if k < messages.len() {
        lemma_messages_fault(messages, k + 1, scope);
        let e = validate::messages_fault(messages, k, scope);
        if e is Some {
            if validate::message_fault(messages, idx(k), scope) == e || validate::messages_fault(
                messages[k].nested_type@,
                0,
                scope_in(scope, messages[k]),
            ) == e {
            } else {
                let i = choose|i: int|
                    k + 1 <= i < messages.len() && (validate::message_fault(
                        messages,
                        #[trigger] idx(i),
                        scope,
                    ) == e || validate::messages_fault(
                        messages[i].nested_type@,
                        0,
                        scope_in(scope, messages[i]),
                    ) == e);
                assert(idx(i) == i);
            }
        }
    }
}

/// A place, to speak of.
spec fn idx(i: int) -> int {
    i
}

/// The scope that the message at the end of a way is in.
pub open spec fn is_scope_of(
    s: Seq<char>,
    scope: Seq<char>,
    messages: Seq<DescriptorProto>,
    way: Seq<int>,
) -> bool {
    walks::dotted(walks::of_package(s)) == walks::dotted(
        walks::of_package(scope) + walks::names_on(messages, way.drop_last()),
    )
}

/// A scope is refused exactly where some message in it is, at any depth.
pub proof fn law_refused_at_every_depth(messages: Seq<DescriptorProto>, scope: Seq<char>)
    ensures
        validate::messages_fault(messages, 0, scope) is Some <==> some_refused(messages),
    decreases messages,
{
    lemma_messages_fault(messages, 0, scope);
    let fault = validate::messages_fault(messages, 0, scope);
    assert forall|i: int| 0 <= i < messages.len() implies validate::messages_fault(
        (#[trigger] messages[i]).nested_type@,
        0,
        scope_in(scope, messages[i]),
    ) is Some <==> some_refused(messages[i].nested_type@) by {
        law_refused_at_every_depth(messages[i].nested_type@, scope_in(scope, messages[i]));
    }
    if fault is Some {
        let i = choose|i: int|
            0 <= i < messages.len() && (validate::message_fault(messages, #[trigger] idx(i), scope)
                == fault || validate::messages_fault(
                messages[i].nested_type@,
                0,
                scope_in(scope, messages[i]),
            ) == fault);
        lemma_message_fault(messages, i, scope);
        if validate::message_fault(messages, idx(i), scope) == fault {
            let way = seq![i];
            assert(walks::message_at(messages, way) is Some);
            assert(is_refused(siblings_at(messages, way), way.last()));
        } else {
            let inner = messages[i].nested_type@;
            let way = choose|way: Seq<int>|
                (#[trigger] walks::message_at(inner, way)) is Some && is_refused(
                    siblings_at(inner, way),
                    way.last(),
                );
            let longer = seq![i] + way;
            assert(longer.skip(1) =~= way);
            assert(longer.last() == way.last());
            assert(walks::message_at(messages, longer) is Some);
            assert(siblings_at(messages, longer) == siblings_at(inner, way));
        }
    }
    if some_refused(messages) {
        let way = choose|way: Seq<int>|
            (#[trigger] walks::message_at(messages, way)) is Some && is_refused(
                siblings_at(messages, way),
                way.last(),
            );
        let i = way[0];
        assert(idx(i) == i);
        lemma_message_fault(messages, i, scope);
        if way.len() > 1 {
            let rest = way.skip(1);
            assert(rest.last() == way.last());
            assert(walks::message_at(messages[i].nested_type@, rest) is Some);
            assert(some_refused(messages[i].nested_type@));
        }
    }
}

/// What is said of a refused scope is true: it is about a message in it, at some depth,
/// that is refused for that reason.
pub proof fn law_what_is_refused_is_said(
    messages: Seq<DescriptorProto>,
    scope: Seq<char>,
    e: ErrorText,
) -> (found: (Seq<int>, Seq<char>))
    requires
        validate::messages_fault(messages, 0, scope) == Some(e),
        forall|way: Seq<int>|
            walks::message_at(messages, way) is Some ==> walks::all_named(
                #[trigger] walks::names_on(messages, way),
            ),
    ensures
        walks::message_at(messages, found.0) is Some,
        is_scope_of(found.1, scope, messages, found.0),
        is_about(e, found.1, siblings_at(messages, found.0), found.0.last()),
    decreases messages,
{
    reveal_strlit("");
    assert(""@ =~= Seq::<char>::empty());
    lemma_messages_fault(messages, 0, scope);
    let i = choose|i: int|
        0 <= i < messages.len() && (validate::message_fault(messages, #[trigger] idx(i), scope)
            == Some(e) || validate::messages_fault(
            messages[i].nested_type@,
            0,
            scope_in(scope, messages[i]),
        ) == Some(e));
    lemma_message_fault(messages, i, scope);
    let own = seq![i];
    assert(walks::message_at(messages, own) is Some);
    if validate::message_fault(messages, idx(i), scope) == Some(e) {
        assert(own.drop_last() =~= Seq::<int>::empty());
        assert(walks::names_on(messages, own.drop_last()) =~= Seq::<Seq<char>>::empty());
        assert(walks::of_package(scope) + Seq::<Seq<char>>::empty() =~= walks::of_package(scope));
        (own, scope)
    } else {
        let inner = messages[i].nested_type@;
        let inside = scope_in(scope, messages[i]);
        let top = walks::names_on(messages, own);
        assert(own.skip(1) =~= Seq::<int>::empty());
        assert(top[0].len() > 0);
        assert forall|way: Seq<int>| walks::message_at(inner, way) is Some implies
            walks::all_named(#[trigger] walks::names_on(inner, way)) by {
            let longer = seq![i] + way;
            assert(longer.skip(1) =~= way);
            assert(walks::message_at(messages, longer) is Some);
            let all = walks::names_on(messages, longer);
            assert(walks::all_named(all));
            let names = walks::names_on(inner, way);
            assert forall|k: int| 0 <= k < names.len() implies (#[trigger] names[k]).len() > 0 by {
                assert(all[k + 1] == names[k]);
            }
        }
        let (way, s) = law_what_is_refused_is_said(inner, inside, e);
        let longer = seq![i] + way;
        assert(longer.skip(1) =~= way);
        assert(longer.last() == way.last());
        assert(way.len() > 0);
        assert(longer.drop_last() =~= seq![i] + way.drop_last());
        assert(longer.drop_last().skip(1) =~= way.drop_last());
        let names = walks::names_on(inner, way.drop_last());
        walks::lemma_dotted_scoped(scope, top[0], names);
        assert(walks::names_on(messages, longer.drop_last()) =~= seq![top[0]] + names);
        (longer, s)
    }
}

proof fn lemma_enums_fault(enums: Seq<EnumDescriptorProto>, k: int, package: Seq<char>)
    requires
        0 <= k,
    ensures
        validate::enums_fault(enums, k, package) is Some <==> exists|e: int|
            k <= e < enums.len() && ((#[trigger] enums[e]).name matches Some(n) && n@
                == "__buffa"@),
    decreases enums.len() - k,
{
    if k < enums.len() {
        reveal_strlit("");
        reveal_strlit("__buffa");
        lemma_enums_fault(enums, k + 1, package);
        if enums[k].name is None {
            assert(""@.len() != "__buffa"@.len());
        }
    }
}

/// A file is refused exactly where its package has the reserved name among its
/// components, where one of its enums has that name, or where one of its messages is
/// refused, at any depth.
pub proof fn law_a_file_is_refused_for_a_reason(file: FileDescriptorProto)
    ensures
        validate::file_fault(file) is Some <==> {
            ||| text::pieces(file.package_text(), "."@).contains("__buffa"@)
            ||| exists|e: int|
                0 <= e < file.enum_type@.len() && ((#[trigger] file.enum_type@[e]).name matches
                    Some(n) && n@ == "__buffa"@)
            ||| some_refused(file.message_type@)
        },
{
    lemma_enums_fault(file.enum_type@, 0, file.package_text());
    law_refused_at_every_depth(file.message_type@, file.package_text());
}

} // verus!
