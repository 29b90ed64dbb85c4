//! Which element-memory bound is in force.
use vstd::prelude::*;
use vstd::string::*;
use vstd::utf8;
use crate::codegen::element_memory;
use crate::codegen::element_memory::{limit_value, opt_entry, opt_value, request_limit,
    request_parameter};
use crate::codegen::text;
use crate::codegen::text_laws;
use crate::encoding;
use crate::encoding::{WireType, SKIP_DEPTH};
use crate::error::DecodeError;

verus! {

/// Where several entries of a parameter set the bound, the last of them counts.
pub proof fn law_the_last_setting_counts(entries: Seq<Seq<char>>, i: int, value: Seq<char>)
    requires
        0 <= i < entries.len(),
        opt_entry(entries[i]) == Some(value),
        forall|j: int| i < j < entries.len() ==> opt_entry(#[trigger] entries[j]) is None,
        forall|j: int|
            0 <= j < entries.len() ==> (opt_entry(#[trigger] entries[j]) matches Some(v)
                ==> limit_value(v) is Some),
    ensures
        opt_value(entries) == Ok::<Option<usize>, Seq<char>>(limit_value(value)),
    decreases entries.len(),
{
    let init = entries.drop_last();
    assert(entries[entries.len() - 1] == entries.last());
    assert forall|j: int| 0 <= j < init.len() implies (opt_entry(#[trigger] init[j]) matches Some(
        v,
    ) ==> limit_value(v) is Some) by {
        assert(init[j] == entries[j]);
    }
    if i == entries.len() - 1 {
        lemma_no_error(init);
    } else {
        assert(init[i] == entries[i]);
        assert forall|j: int| i < j < init.len() implies opt_entry(#[trigger] init[j]) is None by {
            assert(init[j] == entries[j]);
        }
        law_the_last_setting_counts(init, i, value);
    }
}

proof fn lemma_no_error(entries: Seq<Seq<char>>)
    requires
        forall|j: int|
            0 <= j < entries.len() ==> (opt_entry(#[trigger] entries[j]) matches Some(v)
                ==> limit_value(v) is Some),
    ensures
        opt_value(entries) is Ok,
    decreases entries.len(),
{
    if entries.len() > 0 {
        let init = entries.drop_last();
        assert(entries[entries.len() - 1] == entries.last());
        assert forall|j: int| 0 <= j < init.len() implies (opt_entry(#[trigger] init[j]) matches
            Some(v) ==> limit_value(v) is Some) by {
            assert(init[j] == entries[j]);
        }
        lemma_no_error(init);
    }
}

/// Where no entry sets the bound, the parameter says nothing of it.
pub proof fn law_without_a_setting_nothing_is_set(entries: Seq<Seq<char>>)
    requires
        forall|j: int| 0 <= j < entries.len() ==> opt_entry(#[trigger] entries[j]) is None,
    ensures
        opt_value(entries) == Ok::<Option<usize>, Seq<char>>(None),
    decreases entries.len(),
{
    if entries.len() > 0 {
        let init = entries.drop_last();
        assert(entries[entries.len() - 1] == entries.last());
        assert forall|j: int| 0 <= j < init.len() implies opt_entry(#[trigger] init[j]) is None by {
            assert(init[j] == entries[j]);
        }
        law_without_a_setting_nothing_is_set(init);
    }
}

/// The first setting that is no bound is an error, which names the variable and the
/// setting.
pub proof fn law_the_first_bad_setting_is_an_error(
    entries: Seq<Seq<char>>,
    i: int,
    value: Seq<char>,
)
    requires
        0 <= i < entries.len(),
        opt_entry(entries[i]) == Some(value),
        limit_value(value) is None,
        forall|j: int|
            0 <= j < i ==> (opt_entry(#[trigger] entries[j]) matches Some(v) ==> limit_value(v)
                is Some),
    ensures
        opt_value(entries) == Err::<Option<usize>, Seq<char>>(
            "BUFFA_ELEMENT_MEMORY_LIMIT: expected a byte count or 'unlimited', got '"@ + value
                + "'"@,
        ),
    decreases entries.len(),
{
    let init = entries.drop_last();
    assert(entries[entries.len() - 1] == entries.last());
    if i == entries.len() - 1 {
        assert forall|j: int| 0 <= j < init.len() implies (opt_entry(#[trigger] init[j]) matches
            Some(v) ==> limit_value(v) is Some) by {
            assert(init[j] == entries[j]);
        }
        lemma_no_error(init);
        reveal_strlit("BUFFA_ELEMENT_MEMORY_LIMIT");
        reveal_strlit(": expected a byte count or 'unlimited', got '");
        reveal_strlit("BUFFA_ELEMENT_MEMORY_LIMIT: expected a byte count or 'unlimited', got '");
        assert("BUFFA_ELEMENT_MEMORY_LIMIT"@ + ": expected a byte count or 'unlimited', got '"@
            =~= "BUFFA_ELEMENT_MEMORY_LIMIT: expected a byte count or 'unlimited', got '"@);
    } else {
        assert(init[i] == entries[i]);
        assert forall|j: int| 0 <= j < i implies (opt_entry(#[trigger] init[j]) matches Some(v)
            ==> limit_value(v) is Some) by {
            assert(init[j] == entries[j]);
        }
        law_the_first_bad_setting_is_an_error(init, i, value);
    }
}

/// Text that neither begins nor ends in white space is left alone by trimming.
proof fn lemma_trimmed_already(s: Seq<char>)
    requires
        s.len() > 0,
        !text::is_space(s[0]),
        !text::is_space(s.last()),
    ensures
        text::trimmed(s) == s,
{
}

/// A byte count, white space round it or not, is the bound.
pub proof fn law_a_byte_count_is_taken(n: nat)
    requires
        n <= usize::MAX,
    ensures
        limit_value(text::decimal(n)) == Some(n as usize),
{
    let s = text::decimal(n);
    text_laws::law_decimal_is_read_back(n);
    lemma_digits(n);
    reveal_strlit("");
    reveal_strlit("unlimited");
    reveal_strlit("max");
    assert(text::is_digit(s[0]) && text::is_digit(s[s.len() - 1]));
    lemma_trimmed_already(s);
    assert("unlimited"@[0] == 'u');
    assert("max"@[0] == 'm');
}

proof fn lemma_digits(n: nat)
    ensures
        text::decimal(n).len() > 0,
        forall|i: int|
            0 <= i < text::decimal(n).len() ==> text::is_digit(#[trigger] text::decimal(n)[i]),
    decreases n,
{
    if n >= 10 {
        lemma_digits(n / 10);
    }
}

/// A blank setting means the default of 1 GiB.
pub proof fn law_blank_means_the_default(raw: Seq<char>)
    requires
        text_laws::is_blank(raw),
    ensures
        limit_value(raw) == Some(1073741824usize),
{
    reveal_strlit("");
    let ends = text_laws::law_trimming_takes_white_space_off(raw);
    let t = text::trimmed(raw);
    if t.len() > 0 {
        assert(raw[ends.0.len() as int] == t[0]);
    }
    assert(t =~= ""@);
}

/// An entry of a parameter string that sets the bound gives it its value.
pub proof fn law_an_entry_sets_the_bound(value: Seq<char>)
    requires
        value.len() > 0,
        !text::is_space(value.last()),
    ensures
        opt_entry("element_memory_limit="@ + value) == Some(value),
{
    reveal_strlit("=");
    reveal_strlit("element_memory_limit");
    reveal_strlit("element_memory_limit=");
    let name = "element_memory_limit"@;
    let entry = "element_memory_limit="@ + value;
    assert(entry =~= name + "="@ + value);
    lemma_trimmed_already(entry);
    lemma_trimmed_already(name);
    text_laws::law_a_cut_is_at_the_first_separator(entry, "="@);
    assert(entry.subrange(name.len() as int, name.len() as int + 1) =~= "="@);
    assert(text::occurs_at(entry, "="@, name.len() as int));
    let (a, b) = text::cut(entry, "="@)->Some_0;
    assert(entry[a.len() as int] == '=') by {
        assert(entry == a + "="@ + b);
        assert((a + "="@ + b)[a.len() as int] == '=');
    }
    assert(a.len() == name.len()) by {
        if a.len() < name.len() {
            assert(name[a.len() as int] == '=');
        }
        if a.len() > name.len() {
            assert(a[name.len() as int] == entry[name.len() as int]);
            assert(a.subrange(name.len() as int, name.len() as int + 1) =~= "="@);
            assert(text::occurs_at(a, "="@, name.len() as int));
        }
    }
    assert(a =~= (a + "="@ + b).take(a.len() as int));
    assert(name =~= (name + "="@ + value).take(name.len() as int));
    assert(b =~= (a + "="@ + b).skip(a.len() as int + 1));
    assert(value =~= (name + "="@ + value).skip(name.len() as int + 1));
}

/// A request's own parameter goes before the environment: with the bound set in it, it
/// is the bound in force, whatever else the request holds and whatever the environment
/// says.
pub proof fn law_the_request_goes_before_the_environment(
    s: Seq<u8>,
    n: nat,
    env: Option<&str>,
)
    requires
        n <= usize::MAX,
        request_parameter(s, None) is Ok,
        utf8::encode_utf8("element_memory_limit="@ + text::decimal(n)).len() <= usize::MAX,
    ensures
        request_limit(
            s + element_memory::parameter_field("element_memory_limit="@ + text::decimal(n)),
            env,
        ) == Ok::<usize, Seq<char>>(n as usize),
{
    let value = text::decimal(n);
    let parameter = "element_memory_limit="@ + value;
    element_memory::law_last_parameter_wins(s, None, parameter);
    lemma_digits(n);
    assert(text::is_digit(value[value.len() - 1]));
    law_an_entry_sets_the_bound(value);
    law_a_byte_count_is_taken(n);
    reveal_strlit(",");
    reveal_strlit("element_memory_limit=");
    text::lemma_find_from(parameter, ","@, 0);
    if let Some(j) = text::find_from(parameter, ","@, 0) {
        assert(parameter.subrange(j, j + 1)[0] == parameter[j]);
        if j >= "element_memory_limit="@.len() {
            assert(text::is_digit(value[j - "element_memory_limit="@.len()]));
        }
    }
    let entries = text::pieces(parameter, ","@);
    assert(entries =~= seq![parameter]);
    assert(entries[0] == parameter);
    law_the_last_setting_counts(entries, 0, value);
}

/// Where a request has no parameter, the environment decides.
pub proof fn law_without_a_parameter_the_environment_decides(s: Seq<u8>, env: Option<&str>)
    requires
        request_parameter(s, None) == Ok::<Option<Seq<char>>, DecodeError>(None),
    ensures
        match env {
            None => request_limit(s, env) == Ok::<usize, Seq<char>>(1073741824usize),
            Some(raw) => limit_value(raw@) matches Some(n) ==> request_limit(s, env) == Ok::<
                usize,
                Seq<char>,
            >(n),
        },
{
    reveal_strlit("");
    reveal_strlit(",");
    reveal_strlit("=");
    text::lemma_find_from(""@, ","@, 0);
    let entries = text::pieces(""@, ","@);
    assert(entries =~= seq![""@]);
    assert(opt_entry(""@) is None) by {
        let t = text::trimmed(""@);
        text::lemma_find_from(t, "="@, 0);
        assert(t.len() == 0);
    }
    assert forall|j: int| 0 <= j < entries.len() implies opt_entry(
        #[trigger] entries[j],
    ) is None by {
        assert(entries[j] == ""@);
    }
    law_without_a_setting_nothing_is_set(entries);
}

/// Other fields of a request do not bear on its parameter.
#[verifier::rlimit(60)]
#[verifier::spinoff_prover]
pub proof fn law_other_fields_do_not_matter(
    s: Seq<u8>,
    found: Option<Seq<char>>,
    field: Seq<u8>,
)
    requires
        request_parameter(s, found) is Ok,
        encoding::parse_tag(field) matches Ok((tag, n)) && tag.number() != 2
            && encoding::value_span(tag, field.skip(n as int), SKIP_DEPTH as nat) == Ok::<
            nat,
            DecodeError,
        >((field.len() - n) as nat) && n <= field.len(),
    ensures
        request_parameter(s + field, found) == request_parameter(s, found),
    decreases s.len(),
{
    let all = s + field;
    encoding::lemma_parse_within(field);
    if s.len() == 0 {
        let (tag, n) = encoding::parse_tag(field)->Ok_0;
        assert(all =~= field);
        let body = field.skip(n as int);
        assert(body.skip(body.len() as int) =~= Seq::<u8>::empty());
        assert(request_parameter(Seq::<u8>::empty(), found) == Ok::<
            Option<Seq<char>>,
            DecodeError,
        >(found));
    } else {
        let (tag, n) = encoding::parse_tag(s)->Ok_0;
        encoding::lemma_parse_within(s);
        assert(all.take(n as int) =~= s.take(n as int));
        encoding::law_parse_looks_no_further(s, all);
        let body = s.skip(n as int);
        let longer = all.skip(n as int);
        assert(longer =~= body + field);
        if tag.number() == 2 && tag.layout() == WireType::LengthDelimited {
            let (len, m) = encoding::parse_varint(body)->Ok_0;
            encoding::lemma_parse_within(body);
            assert(longer.take(m as int) =~= body.take(m as int));
            encoding::law_parse_looks_no_further(body, longer);
            let rest = body.skip(m as int);
            assert(longer.skip(m as int) =~= rest + field);
            assert((rest + field).take(len as int) =~= rest.take(len as int));
            assert((rest + field).skip(len as int) =~= rest.skip(len as int) + field);
            law_other_fields_do_not_matter(
                rest.skip(len as int),
                Some(utf8::decode_utf8(rest.take(len as int))),
                field,
            );
        } else {
            let k = encoding::value_span(tag, body, SKIP_DEPTH as nat)->Ok_0;
            encoding::lemma_value_span_within(tag, body, SKIP_DEPTH as nat);
            assert(longer.take(k as int) =~= body.take(k as int));
            encoding::law_skip_looks_no_further(tag, body, longer, SKIP_DEPTH as nat);
            assert(longer.skip(k as int) =~= body.skip(k as int) + field);
            law_other_fields_do_not_matter(body.skip(k as int), found, field);
        }
    }
}

} // verus!
