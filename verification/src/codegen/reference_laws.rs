//! What files declare and refer to, wherever in them it stands.
use vstd::prelude::*;
use vstd::string::*;
use crate::codegen::descriptor::{
    DescriptorProto, EnumDescriptorProto, FieldDescriptorProto, FileDescriptorProto,
};
use crate::codegen::excluded_refs;
use crate::codegen::grouping;
use crate::codegen::walks;

verus! {

/// A field's own type is `fqn`.
pub open spec fn is_of_type(field: FieldDescriptorProto, fqn: Seq<char>) -> bool {
    field.type_ref matches Some(t) && t@ == fqn && fqn.len() > 0
}

/// The values of a map field are of type `fqn`.
pub open spec fn has_values_of_type(field: FieldDescriptorProto, fqn: Seq<char>) -> bool {
    &&& field.repeated
    &&& field.map_entry matches Some(entry) && entry.complete && (entry.value_type matches Some(t)
        && t@ == fqn && fqn.len() > 0)
}

/// A message refers to a type itself: by the type of a field, by that of the values
/// of a map, or by the type of an extension that is declared in it.
pub open spec fn refers_itself(msg: DescriptorProto, fqn: Seq<char>) -> bool {
    ||| exists|f: int|
        0 <= f < msg.field@.len() && (is_of_type(#[trigger] msg.field@[f], fqn)
            || has_values_of_type(msg.field@[f], fqn))
    ||| exists|f: int|
        0 <= f < msg.extension@.len() && is_of_type(#[trigger] msg.extension@[f], fqn)
}

/// The message that a way leads to from a message, itself where the way is empty.
/// No way leads through the entry type of a map.
pub open spec fn below(msg: DescriptorProto, way: Seq<int>) -> Option<DescriptorProto>
    decreases way.len(),
{
    if way.len() == 0 {
        Some(msg)
    } else if 0 <= way[0] < msg.nested_type@.len() && !msg.nested_type@[way[0]].map_entry {
        below(msg.nested_type@[way[0]], way.skip(1))
    } else {
        None
    }
}

/// A message refers to a type, itself or in a message below it.
pub open spec fn refers_somewhere(msg: DescriptorProto, fqn: Seq<char>) -> bool {
    exists|way: Seq<int>| (#[trigger] below(msg, way)) matches Some(m) && refers_itself(m, fqn)
}

/// A file refers to a type, in a message at any depth or by a top-level extension.
pub open spec fn file_refers_somewhere(file: FileDescriptorProto, fqn: Seq<char>) -> bool {
    ||| exists|i: int|
        0 <= i < file.message_type@.len() && refers_somewhere(
            #[trigger] file.message_type@[i],
            fqn,
        )
    ||| exists|f: int|
        0 <= f < file.extension@.len() && is_of_type(#[trigger] file.extension@[f], fqn)
}

proof fn lemma_fields(fields: Seq<FieldDescriptorProto>, k: nat, fqn: Seq<char>)
    requires
        k <= fields.len(),
    ensures
        excluded_refs::fields_refer(fields, k, fqn) <==> exists|f: int|
            0 <= f < k && (is_of_type(#[trigger] fields[f], fqn) || has_values_of_type(
                fields[f],
                fqn,
            )),
    decreases k,
{
    if k > 0 {
        lemma_fields(fields, (k - 1) as nat, fqn);
        let last = fields[k - 1];
        assert(excluded_refs::field_refers(last, fqn) <==> is_of_type(last, fqn)
            || has_values_of_type(last, fqn));
    }
}

proof fn lemma_extensions(fields: Seq<FieldDescriptorProto>, k: nat, fqn: Seq<char>)
    requires
        k <= fields.len(),
    ensures
        excluded_refs::extensions_refer(fields, k, fqn) <==> exists|f: int|
            0 <= f < k && is_of_type(#[trigger] fields[f], fqn),
    decreases k,
{
    if k > 0 {
        lemma_extensions(fields, (k - 1) as nat, fqn);
    }
}

proof fn lemma_nested(messages: Seq<DescriptorProto>, k: nat, fqn: Seq<char>)
    requires
        k <= messages.len(),
    ensures
        excluded_refs::nested_refer(messages, k, fqn) <==> exists|i: int|
            0 <= i < k && !(#[trigger] messages[i]).map_entry && excluded_refs::message_refers(
                messages[i],
                fqn,
            ),
    decreases k,
{
    if k > 0 {
        lemma_nested(messages, (k - 1) as nat, fqn);
    }
}

/// A message refers to a type exactly where it, or a message below it at any depth,
/// does so itself.
pub proof fn law_references_are_found_at_every_depth(msg: DescriptorProto, fqn: Seq<char>)
    ensures
        excluded_refs::message_refers(msg, fqn) <==> refers_somewhere(msg, fqn),
    decreases msg,
{
    let nested = msg.nested_type@;
    lemma_fields(msg.field@, msg.field@.len(), fqn);
    lemma_extensions(msg.extension@, msg.extension@.len(), fqn);
    lemma_nested(nested, nested.len(), fqn);
    assert forall|i: int| 0 <= i < nested.len() implies excluded_refs::message_refers(
        #[trigger] nested[i],
        fqn,
    ) <==> refers_somewhere(nested[i], fqn) by {
        law_references_are_found_at_every_depth(nested[i], fqn);
    }
    if excluded_refs::message_refers(msg, fqn) {
        if refers_itself(msg, fqn) {
            assert(below(msg, Seq::empty()) == Some(msg));
        } else {
            let i = choose|i: int|
                0 <= i < nested.len() && !(#[trigger] nested[i]).map_entry
                    && excluded_refs::message_refers(nested[i], fqn);
            let way = choose|way: Seq<int>|
                (#[trigger] below(nested[i], way)) matches Some(m) && refers_itself(m, fqn);
            let longer = seq![i] + way;
            assert(longer.skip(1) =~= way);
            assert(below(msg, longer) == below(nested[i], way));
        }
    }
    if refers_somewhere(msg, fqn) {
        let way = choose|way: Seq<int>|
            (#[trigger] below(msg, way)) matches Some(m) && refers_itself(m, fqn);
        if way.len() > 0 {
            assert(below(nested[way[0]], way.skip(1)) == below(msg, way));
            assert(refers_somewhere(nested[way[0]], fqn));
        }
    }
}

/// A plan's packages refer to a type from a file exactly where some file of that
/// name among theirs does: in a message at any depth, or by an extension.
pub proof fn law_references_are_found_in_every_file(
    packages: Seq<(Seq<char>, Seq<&FileDescriptorProto>)>,
    name: Seq<char>,
    fqn: Seq<char>,
)
    ensures
        grouping::packages_refer(packages, packages.len(), name, fqn) <==> exists|p: int, f: int|
            0 <= p < packages.len() && 0 <= f < packages[p].1.len() && goes_by(
                *#[trigger] packages[p].1[f],
                name,
            ) && file_refers_somewhere(*packages[p].1[f], fqn),
{
    lemma_packages(packages, packages.len(), name, fqn);
}

/// A file goes by a name; one without a name goes by a question mark.
pub open spec fn goes_by(file: FileDescriptorProto, name: Seq<char>) -> bool {
    match file.name {
        Some(n) => n@ == name,
        None => name == "?"@,
    }
}

proof fn lemma_top(messages: Seq<DescriptorProto>, k: nat, fqn: Seq<char>)
    requires
        k <= messages.len(),
    ensures
        grouping::messages_refer(messages, k, fqn) <==> exists|i: int|
            0 <= i < k && refers_somewhere(#[trigger] messages[i], fqn),
    decreases k,
{
    if k > 0 {
        lemma_top(messages, (k - 1) as nat, fqn);
        law_references_are_found_at_every_depth(messages[k - 1], fqn);
    }
}

proof fn lemma_files(files: Seq<&FileDescriptorProto>, k: nat, name: Seq<char>, fqn: Seq<char>)
    requires
        k <= files.len(),
    ensures
        grouping::files_refer(files, k, name, fqn) <==> exists|f: int|
            0 <= f < k && goes_by(*#[trigger] files[f], name) && file_refers_somewhere(
                *files[f],
                fqn,
            ),
    decreases k,
{
    if k > 0 {
        lemma_files(files, (k - 1) as nat, name, fqn);
        let file = *files[k - 1];
        lemma_top(file.message_type@, file.message_type@.len(), fqn);
        lemma_extensions(file.extension@, file.extension@.len(), fqn);
    }
}

proof fn lemma_packages(
    packages: Seq<(Seq<char>, Seq<&FileDescriptorProto>)>,
    k: nat,
    name: Seq<char>,
    fqn: Seq<char>,
)
    requires
        k <= packages.len(),
    ensures
        grouping::packages_refer(packages, k, name, fqn) <==> exists|p: int, f: int|
            0 <= p < k && 0 <= f < packages[p].1.len() && goes_by(
                *#[trigger] packages[p].1[f],
                name,
            ) && file_refers_somewhere(*packages[p].1[f], fqn),
    decreases k,
{
    if k > 0 {
        lemma_packages(packages, (k - 1) as nat, name, fqn);
        let files = packages[k - 1].1;
        lemma_files(files, files.len(), name, fqn);
        if grouping::files_refer(files, files.len(), name, fqn) {
            let f = choose|f: int|
                0 <= f < files.len() && goes_by(*#[trigger] files[f], name)
                    && file_refers_somewhere(*files[f], fqn);
            assert(goes_by(*packages[k - 1].1[f], name));
        }
    }
}

/// Every message on a way has a name.
pub open spec fn has_names(messages: Seq<DescriptorProto>, way: Seq<int>) -> bool
    decreases way.len(),
{
    way.len() == 0 || (0 <= way[0] < messages.len() && messages[way[0]].name is Some && has_names(
        messages[way[0]].nested_type@,
        way.skip(1),
    ))
}

/// Messages, the outermost of them in `scope`, declare the name `n`: it is the full
/// name of one of them at any depth, or of an enum in one.
pub open spec fn declares_below(scope: Seq<char>, messages: Seq<DescriptorProto>, n: Seq<char>) -> bool {
    exists|way: Seq<int>|
        {
            &&& (#[trigger] walks::message_at(messages, way)) is Some
            &&& has_names(messages, way)
            &&& names_it(
                scope + walks::dotted(walks::names_on(messages, way)),
                walks::message_at(messages, way)->Some_0,
                n,
            )
        }
}

/// A message with the full name `own`, or an enum in it, has the name `n`.
pub open spec fn names_it(own: Seq<char>, msg: DescriptorProto, n: Seq<char>) -> bool {
    ||| n == own
    ||| exists|e: int|
        0 <= e < msg.enum_type@.len() && ((#[trigger] msg.enum_type@[e]).name matches Some(name)
            && n == own + "."@ + name@)
}

proof fn lemma_enums(fqn: Seq<char>, enums: Seq<EnumDescriptorProto>, k: nat, n: Seq<char>)
    requires
        k <= enums.len(),
    ensures
        excluded_refs::enums_declare(fqn, enums, k, n) <==> exists|e: int|
            0 <= e < k && ((#[trigger] enums[e]).name matches Some(name) && n == fqn + "."@
                + name@),
    decreases k,
{
    if k > 0 {
        lemma_enums(fqn, enums, (k - 1) as nat, n);
    }
}

proof fn lemma_declaring(fqn: Seq<char>, messages: Seq<DescriptorProto>, k: nat, n: Seq<char>)
    requires
        k <= messages.len(),
    ensures
        excluded_refs::messages_declare(fqn, messages, k, n) <==> exists|i: int|
            0 <= i < k && (#[trigger] messages[i]).name is Some && excluded_refs::message_declares(
                fqn + "."@ + messages[i].name->Some_0@,
                messages[i],
                n,
            ),
    decreases k,
{
    if k > 0 {
        lemma_declaring(fqn, messages, (k - 1) as nat, n);
    }
}

/// What messages declare is found at every depth, under its full name.
pub proof fn law_declarations_are_found_at_every_depth(
    scope: Seq<char>,
    messages: Seq<DescriptorProto>,
    n: Seq<char>,
)
    ensures
        excluded_refs::messages_declare(scope, messages, messages.len(), n) <==> declares_below(
            scope,
            messages,
            n,
        ),
    decreases messages,
{
    lemma_declaring(scope, messages, messages.len(), n);
    if excluded_refs::messages_declare(scope, messages, messages.len(), n) {
        let i = choose|i: int|
            0 <= i < messages.len() && (#[trigger] messages[i]).name is Some
                && excluded_refs::message_declares(
                scope + "."@ + messages[i].name->Some_0@,
                messages[i],
                n,
            );
        let msg = messages[i];
        let own = scope + "."@ + msg.name->Some_0@;
        lemma_enums(own, msg.enum_type@, msg.enum_type@.len(), n);
        if names_it(own, msg, n) {
            let way = seq![i];
            assert(way.skip(1) =~= Seq::<int>::empty());
            lemma_names_from(messages, way);
            walks::lemma_dotted_none();
            assert(scope + walks::dotted(walks::names_on(messages, way)) =~= own);
            assert(has_names(msg.nested_type@, way.skip(1)));
            assert(has_names(messages, way));
            assert(walks::message_at(messages, way) == Some(msg));
            assert(declares_below(scope, messages, n));
        } else {
            law_declarations_are_found_at_every_depth(own, msg.nested_type@, n);
            let way = choose|way: Seq<int>|
                {
                    &&& (#[trigger] walks::message_at(msg.nested_type@, way)) is Some
                    &&& has_names(msg.nested_type@, way)
                    &&& names_it(
                        own + walks::dotted(walks::names_on(msg.nested_type@, way)),
                        walks::message_at(msg.nested_type@, way)->Some_0,
                        n,
                    )
                };
            let longer = seq![i] + way;
            assert(longer.skip(1) =~= way);
            lemma_names_from(messages, longer);
            assert(scope + walks::dotted(walks::names_on(messages, longer)) =~= own
                + walks::dotted(walks::names_on(msg.nested_type@, way)));
            assert(way.len() > 0);
            assert(walks::message_at(messages, longer) == walks::message_at(
                msg.nested_type@,
                way,
            ));
            assert(has_names(messages, longer));
            assert(declares_below(scope, messages, n));
        }
    }
    if declares_below(scope, messages, n) {
        let way = choose|way: Seq<int>|
            {
                &&& (#[trigger] walks::message_at(messages, way)) is Some
                &&& has_names(messages, way)
                &&& names_it(
                    scope + walks::dotted(walks::names_on(messages, way)),
                    walks::message_at(messages, way)->Some_0,
                    n,
                )
            };
        let msg = messages[way[0]];
        let own = scope + "."@ + msg.name->Some_0@;
        let rest = way.skip(1);
        lemma_names_from(messages, way);
        lemma_enums(own, msg.enum_type@, msg.enum_type@.len(), n);
        if way.len() == 1 {
            walks::lemma_dotted_none();
            assert(walks::names_on(msg.nested_type@, rest) =~= Seq::<Seq<char>>::empty());
            assert(scope + walks::dotted(walks::names_on(messages, way)) =~= own);
        } else {
            assert(scope + walks::dotted(walks::names_on(messages, way)) =~= own
                + walks::dotted(walks::names_on(msg.nested_type@, rest)));
            assert(walks::message_at(msg.nested_type@, rest) is Some);
            assert(declares_below(own, msg.nested_type@, n));
            law_declarations_are_found_at_every_depth(own, msg.nested_type@, n);
        }
        assert(excluded_refs::message_declares(own, messages[way[0]], n));
    }
}

proof fn lemma_names_from(messages: Seq<DescriptorProto>, way: Seq<int>)
    requires
        way.len() > 0,
        0 <= way[0] < messages.len(),
        messages[way[0]].name is Some,
    ensures
        walks::dotted(walks::names_on(messages, way)) == "."@ + messages[way[0]].name->Some_0@
            + walks::dotted(walks::names_on(messages[way[0]].nested_type@, way.skip(1))),
        way.len() == 1 ==> walks::names_on(messages[way[0]].nested_type@, way.skip(1)) == Seq::<
            Seq<char>,
        >::empty(),
{
    walks::lemma_dotted_first(
        messages[way[0]].name->Some_0@,
        walks::names_on(messages[way[0]].nested_type@, way.skip(1)),
    );
}

/// A file declares the full names of its messages at every depth, of the enums in
/// them, and of its own enums; each with a leading dot and behind the package.
pub proof fn law_a_file_declares_its_types(file: FileDescriptorProto, n: Seq<char>)
    ensures
        excluded_refs::file_declares(file, n) <==> {
            let scope = walks::dotted(
                walks::of_package(
                    match file.package {
                        Some(p) => p@,
                        None => Seq::empty(),
                    },
                ),
            );
            ||| declares_below(scope, file.message_type@, n)
            ||| exists|e: int|
                0 <= e < file.enum_type@.len() && ((#[trigger] file.enum_type@[e]).name matches
                    Some(name) && n == scope + "."@ + name@)
        },
{
    reveal_strlit("");
    let package = match file.package {
        Some(p) => p@,
        None => Seq::<char>::empty(),
    };
    assert(""@ =~= Seq::<char>::empty());
    assert(file.package_text() =~= package);
    let scope = excluded_refs::package_scope(package);
    walks::lemma_dotted_none();
    walks::lemma_dotted_first(package, Seq::empty());
    assert(seq![package] + Seq::<Seq<char>>::empty() =~= seq![package]);
    assert(walks::dotted(walks::of_package(package)) =~= scope);
    law_declarations_are_found_at_every_depth(scope, file.message_type@, n);
    lemma_enums(scope, file.enum_type@, file.enum_type@.len(), n);
}

/// The package of a type is that of the first file that declares it.
pub proof fn law_a_type_is_in_the_package_that_declares_it(
    files: Seq<FileDescriptorProto>,
    fqn: Seq<char>,
)
    ensures
        excluded_refs::package_of(files, 0, fqn) is Some <==> exists|i: int|
            0 <= i < files.len() && excluded_refs::file_declares(#[trigger] files[i], fqn),
        forall|i: int|
            0 <= i < files.len() && excluded_refs::file_declares(#[trigger] files[i], fqn) && (
            forall|j: int|
                0 <= j < i ==> !excluded_refs::file_declares(#[trigger] files[j], fqn))
                ==> excluded_refs::package_of(files, 0, fqn) == Some(files[i].package_text()),
{
    lemma_package_from(files, 0, fqn);
}

proof fn lemma_package_from(files: Seq<FileDescriptorProto>, k: int, fqn: Seq<char>)
    requires
        0 <= k,
    ensures
        excluded_refs::package_of(files, k, fqn) is Some <==> exists|i: int|
            k <= i < files.len() && excluded_refs::file_declares(#[trigger] files[i], fqn),
        forall|i: int|
            k <= i < files.len() && excluded_refs::file_declares(#[trigger] files[i], fqn) && (
            forall|j: int|
                k <= j < i ==> !excluded_refs::file_declares(#[trigger] files[j], fqn))
                ==> excluded_refs::package_of(files, k, fqn) == Some(files[i].package_text()),
    decreases files.len() - k,
{
    if k < files.len() {
        lemma_package_from(files, k + 1, fqn);
        assert forall|i: int|
            k <= i < files.len() && excluded_refs::file_declares(#[trigger] files[i], fqn) && (
            forall|j: int|
                k <= j < i ==> !excluded_refs::file_declares(#[trigger] files[j], fqn))
        implies excluded_refs::package_of(files, k, fqn) == Some(files[i].package_text()) by {
            if i > k {
                assert(!excluded_refs::file_declares(files[k], fqn));
            }
        }
    }
}

} // verus!
