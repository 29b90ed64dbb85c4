//! Ways through the messages of a file, and the full names along them.
use vstd::prelude::*;
use vstd::string::*;
use crate::codegen::descriptor;
use crate::codegen::descriptor::DescriptorProto;

verus! {

/// The message that a way leads to: each step is the place of a message among
/// those of its parent.
pub open spec fn message_at(messages: Seq<DescriptorProto>, way: Seq<int>) -> Option<DescriptorProto>
    decreases way.len(),
{
    if way.len() == 0 || !(0 <= way[0] < messages.len()) {
        None
    } else if way.len() == 1 {
        Some(messages[way[0]])
    } else {
        message_at(messages[way[0]].nested_type@, way.skip(1))
    }
}

/// The names of the messages on a way, from the outermost in.
pub open spec fn names_on(messages: Seq<DescriptorProto>, way: Seq<int>) -> Seq<Seq<char>>
    decreases way.len(),
{
    if way.len() == 0 || !(0 <= way[0] < messages.len()) {
        Seq::empty()
    } else {
        seq![
            match messages[way[0]].name {
                Some(name) => name@,
                None => Seq::empty(),
            },
        ] + names_on(messages[way[0]].nested_type@, way.skip(1))
    }
}

/// Every name has something to it.
pub open spec fn all_named(names: Seq<Seq<char>>) -> bool {
    forall|i: int| 0 <= i < names.len() ==> (#[trigger] names[i]).len() > 0
}

/// A package as the front of a full name: nothing where it has no name.
pub open spec fn of_package(package: Seq<char>) -> Seq<Seq<char>> {
    if package.len() == 0 {
        Seq::empty()
    } else {
        seq![package]
    }
}

/// Names one after the other, each behind a dot.
pub open spec fn dotted(names: Seq<Seq<char>>) -> Seq<char> {
    names.map_values(|name: Seq<char>| "."@ + name).flatten()
}

/// The full name of what a way leads to in a package, with a leading dot.
pub open spec fn full_name(
    package: Seq<char>,
    messages: Seq<DescriptorProto>,
    way: Seq<int>,
) -> Seq<char> {
    dotted(of_package(package) + names_on(messages, way))
}

/// One name more in front.
pub proof fn lemma_dotted_first(name: Seq<char>, rest: Seq<Seq<char>>)
    ensures
        dotted(seq![name] + rest) == "."@ + name + dotted(rest),
{
    let all = (seq![name] + rest).map_values(|n: Seq<char>| "."@ + n);
    assert(all.drop_first() =~= rest.map_values(|n: Seq<char>| "."@ + n));
    assert(all.first() == "."@ + name);
}

/// The names of an empty list.
pub proof fn lemma_dotted_none()
    ensures
        dotted(Seq::empty()) == Seq::<char>::empty(),
{
    assert(Seq::<Seq<char>>::empty().map_values(|n: Seq<char>| "."@ + n) =~= Seq::<
        Seq<char>,
    >::empty());
}

/// A name in a scope, with a leading dot.
pub proof fn lemma_dotted_scoped(scope: Seq<char>, name: Seq<char>, rest: Seq<Seq<char>>)
    requires
        name.len() > 0,
    ensures
        dotted(of_package(descriptor::scoped(scope, name)) + rest) == dotted(
            of_package(scope) + (seq![name] + rest),
        ),
        descriptor::scoped(scope, name).len() > 0,
{
    let inner = descriptor::scoped(scope, name);
    lemma_dotted_first(inner, rest);
    lemma_dotted_first(name, rest);
    if scope.len() == 0 {
        assert(of_package(scope) + (seq![name] + rest) =~= seq![name] + rest);
    } else {
        lemma_dotted_first(scope, seq![name] + rest);
        let tail = dotted(rest);
        assert("."@ + (scope + "."@ + name) + tail =~= "."@ + scope + ("."@ + name + tail));
    }
}

} // verus!
