//! Text: the string operations that the generator is written in.
//!
//! A string is taken as its sequence of characters throughout.
use vstd::prelude::*;
use vstd::string::*;

verus! {

/// The characters of a string.
pub fn to_chars(s: &str) -> (chars: Vec<char>)
    ensures
        chars@ == s@,
{
    let mut chars: Vec<char> = Vec::new();
    for c in iter: s.chars()
        invariant
            chars@ == s@.take(iter.index() as int),
            iter.seq() == s@,
    {
        chars.push(c);
        assert(chars@ =~= s@.take(iter.index() as int + 1));
    }
    assert(s@.take(s@.len() as int) =~= s@);
    chars
}

/// Whether two strings are the same.
pub fn same(a: &str, b: &str) -> (r: bool)
    ensures
        r == (a@ == b@),
{
    a.to_owned() == b.to_owned()
}

/// A string followed by another.
pub fn cat(a: &str, b: &str) -> (r: String)
    ensures
        r@ == a@ + b@,
{
    let mut r: String = a.to_owned();
    r.append(b);
    r
}

/// `sep` stands in `s` at `i`.
pub open spec fn occurs_at(s: Seq<char>, sep: Seq<char>, i: int) -> bool {
    0 <= i && i + sep.len() <= s.len() && s.subrange(i, i + sep.len()) == sep
}

/// Where `sep` first stands in `s` at or after `i`.
pub open spec fn find_from(s: Seq<char>, sep: Seq<char>, i: int) -> Option<int>
    decreases s.len() + 1 - i,
{
    if i + sep.len() > s.len() || i < 0 {
        None
    } else if occurs_at(s, sep, i) {
        Some(i)
    } else {
        find_from(s, sep, i + 1)
    }
}

/// What a search finds, it finds first.
pub proof fn lemma_find_from(s: Seq<char>, sep: Seq<char>, i: int)
    requires
        0 <= i,
    ensures
        match find_from(s, sep, i) {
            Some(j) => i <= j && occurs_at(s, sep, j) && forall|k: int|
                i <= k < j ==> !occurs_at(s, sep, k),
            None => forall|k: int| i <= k ==> !occurs_at(s, sep, k),
        },
    decreases s.len() + 1 - i,
{
    if i + sep.len() <= s.len() && !occurs_at(s, sep, i) {
        lemma_find_from(s, sep, i + 1);
    }
}

/// Whether `sep` stands in the given characters at `i`.
pub(crate) fn occurs(s: &Vec<char>, sep: &Vec<char>, i: usize) -> (r: bool)
    requires
        i + sep@.len() <= s@.len(),
    ensures
        r == occurs_at(s@, sep@, i as int),
{
    let len: usize = s.len();
    let mut k: usize = 0;
    while k < sep.len()
        invariant
            k <= sep@.len(),
            i + sep@.len() <= s@.len(),
            len == s@.len(),
            forall|j: int| 0 <= j < k ==> s@[i + j] == sep@[j],
        decreases sep@.len() - k,
    {
        if s[i + k] != sep[k] {
            assert(s@.subrange(i as int, i + sep@.len())[k as int] != sep@[k as int]);
            return false;
        }
        k = k + 1;
    }
    assert(s@.subrange(i as int, i + sep@.len()) =~= sep@);
    true
}

/// Where `sep` first stands in the given characters at or after `from`.
pub(crate) fn find(s: &Vec<char>, sep: &Vec<char>, from: usize) -> (r: Option<usize>)
    requires
        from <= s@.len(),
        sep@.len() > 0,
    ensures
        match r {
            Some(i) => find_from(s@, sep@, from as int) == Some(i as int) && from <= i && i
                + sep@.len() <= s@.len(),
            None => find_from(s@, sep@, from as int) == None::<int>,
        },
{
    let mut i: usize = from;
    while i < s.len() && sep.len() <= s.len() - i
        invariant
            from <= i <= s@.len(),
            sep@.len() > 0,
            find_from(s@, sep@, from as int) == find_from(s@, sep@, i as int),
        decreases s@.len() - i,
    {
        if occurs(s, sep, i) {
            return Some(i);
        }
        i = i + 1;
    }
    None
}

/// Whether a string holds another.
pub open spec fn holds(s: Seq<char>, part: Seq<char>) -> bool {
    exists|i: int| occurs_at(s, part, i)
}

/// Whether some characters hold a string.
pub fn contains(s: &Vec<char>, part: &str) -> (r: bool)
    requires
        part@.len() > 0,
    ensures
        r == holds(s@, part@),
{
    proof {
        lemma_find_from(s@, part@, 0);
    }
    let found: Option<usize> = find(s, &to_chars(part), 0);
    match found {
        Some(i) => {
            assert(occurs_at(s@, part@, i as int));
            true
        },
        None => false,
    }
}

/// Whether some characters go on with `whole` wherever they go on with `start`.
pub fn always_continues(chars: &Vec<char>, start: &str, whole: &str) -> (r: bool)
    requires
        start@.len() > 0,
    ensures
        r == forall|i: int| #[trigger] occurs_at(chars@, start@, i) ==> occurs_at(chars@, whole@, i),
{
    let first: Vec<char> = to_chars(start);
    let all: Vec<char> = to_chars(whole);
    let mut i: usize = 0;
    while i < chars.len() && first.len() <= chars.len() - i
        invariant
            start@.len() > 0,
            first@ == start@,
            all@ == whole@,
            i <= chars@.len(),
            forall|k: int|
                0 <= k < i && #[trigger] occurs_at(chars@, start@, k) ==> occurs_at(chars@, whole@, k),
        decreases chars@.len() - i,
    {
        if occurs(chars, &first, i) && !(all.len() <= chars.len() - i && occurs(chars, &all, i)) {
            assert(occurs_at(chars@, start@, i as int) && !occurs_at(chars@, whole@, i as int));
            return false;
        }
        i = i + 1;
    }
    true
}

/// Whether a string holds a character.
pub fn has_char(s: &str, c: char) -> (r: bool)
    ensures
        r == s@.contains(c),
{
    let chars: Vec<char> = to_chars(s);
    let mut i: usize = 0;
    while i < chars.len()
        invariant
            i <= chars@.len(),
            chars@ == s@,
            forall|j: int| 0 <= j < i ==> s@[j] != c,
        decreases chars@.len() - i,
    {
        if chars[i] == c {
            assert(s@[i as int] == c);
            return true;
        }
        i = i + 1;
    }
    false
}

/// The pieces of `s` between one `sep` and the next.
pub open spec fn pieces(s: Seq<char>, sep: Seq<char>) -> Seq<Seq<char>>
    decreases s.len(),
{
    match find_from(s, sep, 0) {
        Some(i) => if 0 <= i && i + sep.len() <= s.len() && sep.len() > 0 {
            seq![s.take(i)] + pieces(s.skip(i + sep.len()), sep)
        } else {
            seq![s]
        },
        None => seq![s],
    }
}

/// The strings of a list.
pub open spec fn views(v: Seq<&str>) -> Seq<Seq<char>> {
    v.map_values(|s: &str| s@)
}

/// The strings of a list of owned strings.
pub open spec fn texts(v: Seq<String>) -> Seq<Seq<char>> {
    v.map_values(|s: String| s@)
}

/// Add a string to a list.
pub fn push_text(list: &mut Vec<String>, s: String)
    ensures
        final(list)@ == old(list)@.push(s),
        texts(final(list)@) == texts(old(list)@).push(s@),
{
    let ghost added = s@;
    list.push(s);
    assert(texts(list@) =~= texts(old(list)@).push(added));
}

proof fn lemma_find_shift(s: Seq<char>, sep: Seq<char>, base: int, i: int)
    requires
        0 <= base <= s.len(),
        0 <= i,
    ensures
        find_from(s.skip(base), sep, i) == match find_from(s, sep, base + i) {
            Some(j) => Some(j - base),
            None => None::<int>,
        },
    decreases s.len() + 1 - base - i,
{
    if base + i + sep.len() <= s.len() {
        assert(s.skip(base).subrange(i, i + sep.len()) =~= s.subrange(
            base + i,
            base + i + sep.len(),
        ));
        if !occurs_at(s, sep, base + i) {
            lemma_find_shift(s, sep, base, i + 1);
        }
    }
}

/// Split a string at every `sep`. An empty string is one empty piece.
pub fn split<'a>(s: &'a str, sep: &str) -> (parts: Vec<&'a str>)
    requires
        sep@.len() > 0,
    ensures
        views(parts@) == pieces(s@, sep@),
{
    let chars: Vec<char> = to_chars(s);
    let sep_chars: Vec<char> = to_chars(sep);
    let mut parts: Vec<&'a str> = Vec::new();
    let mut start: usize = 0;
    assert(s@.skip(0) =~= s@);
    assert(views(parts@) =~= Seq::<Seq<char>>::empty());
    loop
        invariant
            start <= s@.len(),
            chars@ == s@,
            sep_chars@ == sep@,
            sep@.len() > 0,
            pieces(s@, sep@) == views(parts@) + pieces(s@.skip(start as int), sep@),
        decreases s@.len() - start,
    {
        let ghost done = parts@;
        let ghost rest = s@.skip(start as int);
        proof {
            lemma_find_shift(s@, sep@, start as int, 0);
        }
        match find(&chars, &sep_chars, start) {
            Some(i) => {
                let part: &'a str = s.substring_char(start, i);
                parts.push(part);
                proof {
                    let k = i - start;
                    assert(find_from(rest, sep@, 0) == Some(k));
                    assert(rest.take(k) =~= part@);
                    assert(rest.skip(k + sep@.len()) =~= s@.skip(i + sep@.len()));
                    assert(views(parts@) =~= views(done).push(part@));
                    assert(pieces(s@, sep@) =~= views(parts@) + pieces(
                        s@.skip(i + sep@.len()),
                        sep@,
                    ));
                }
                assert(chars@.len() == chars.len());
                start = i + sep_chars.len();
            },
            None => {
                let part: &'a str = s.substring_char(start, chars.len());
                parts.push(part);
                proof {
                    assert(rest =~= part@);
                    assert(pieces(rest, sep@) == seq![rest]);
                    assert(views(parts@) =~= pieces(s@, sep@));
                }
                return parts;
            },
        }
    }
}

/// The two sides of the first `sep`.
pub open spec fn cut(s: Seq<char>, sep: Seq<char>) -> Option<(Seq<char>, Seq<char>)> {
    match find_from(s, sep, 0) {
        Some(i) => Some((s.take(i), s.skip(i + sep.len()))),
        None => None,
    }
}

/// Split a string at the first `sep`.
pub fn split_once<'a>(s: &'a str, sep: &str) -> (r: Option<(&'a str, &'a str)>)
    requires
        sep@.len() > 0,
    ensures
        match r {
            Some((a, b)) => cut(s@, sep@) == Some((a@, b@)),
            None => cut(s@, sep@) == None::<(Seq<char>, Seq<char>)>,
        },
{
    let chars: Vec<char> = to_chars(s);
    let sep_chars: Vec<char> = to_chars(sep);
    match find(&chars, &sep_chars, 0) {
        Some(i) => {
            assert(chars@.len() == chars.len());
            let a: &'a str = s.substring_char(0, i);
            let b: &'a str = s.substring_char(i + sep_chars.len(), chars.len());
            assert(a@ =~= s@.take(i as int));
            assert(b@ =~= s@.skip(i + sep@.len()));
            Some((a, b))
        },
        None => None,
    }
}

/// `s` begins with `prefix`.
pub open spec fn begins(s: Seq<char>, prefix: Seq<char>) -> bool {
    occurs_at(s, prefix, 0)
}

/// Whether a string begins with another.
pub fn starts_with(s: &str, prefix: &str) -> (r: bool)
    ensures
        r == begins(s@, prefix@),
{
    let chars: Vec<char> = to_chars(s);
    let prefix_chars: Vec<char> = to_chars(prefix);
    if prefix_chars.len() > chars.len() {
        return false;
    }
    occurs(&chars, &prefix_chars, 0)
}

/// `s` without `prefix`, if it begins with it.
pub fn strip_prefix<'a>(s: &'a str, prefix: &str) -> (r: Option<&'a str>)
    ensures
        match r {
            Some(rest) => begins(s@, prefix@) && rest@ == s@.skip(prefix@.len() as int),
            None => !begins(s@, prefix@),
        },
{
    let chars: Vec<char> = to_chars(s);
    let prefix_chars: Vec<char> = to_chars(prefix);
    if prefix_chars.len() > chars.len() || !occurs(&chars, &prefix_chars, 0) {
        return None;
    }
    let rest: &'a str = s.substring_char(prefix_chars.len(), chars.len());
    assert(rest@ =~= s@.skip(prefix@.len() as int));
    Some(rest)
}

/// `s` ends with `suffix`.
pub open spec fn ends(s: Seq<char>, suffix: Seq<char>) -> bool {
    occurs_at(s, suffix, s.len() - suffix.len())
}

/// `s` without `suffix`, if it ends with it.
pub fn strip_suffix<'a>(s: &'a str, suffix: &str) -> (r: Option<&'a str>)
    ensures
        match r {
            Some(rest) => ends(s@, suffix@) && rest@ == s@.take(s@.len() - suffix@.len()),
            None => !ends(s@, suffix@),
        },
{
    let chars: Vec<char> = to_chars(s);
    let suffix_chars: Vec<char> = to_chars(suffix);
    if suffix_chars.len() > chars.len() {
        return None;
    }
    let at: usize = chars.len() - suffix_chars.len();
    if !occurs(&chars, &suffix_chars, at) {
        return None;
    }
    let rest: &'a str = s.substring_char(0, at);
    assert(rest@ =~= s@.take(at as int));
    Some(rest)
}

/// Whether a character is white space, by Unicode's `White_Space` property.
pub open spec fn is_space(c: char) -> bool {
    let n = c as int;
    ||| 0x9 <= n <= 0xD
    ||| n == 0x20
    ||| n == 0x85
    ||| n == 0xA0
    ||| n == 0x1680
    ||| 0x2000 <= n <= 0x200A
    ||| n == 0x2028
    ||| n == 0x2029
    ||| n == 0x202F
    ||| n == 0x205F
    ||| n == 0x3000
}

/// Whether a character is white space.
fn space(c: char) -> (r: bool)
    ensures
        r == is_space(c),
{
    let n: u32 = c as u32;
    (0x9 <= n && n <= 0xD) || n == 0x20 || n == 0x85 || n == 0xA0 || n == 0x1680 || (0x2000 <= n
        && n <= 0x200A) || n == 0x2028 || n == 0x2029 || n == 0x202F || n == 0x205F || n == 0x3000
}

/// `s` without the white space at its front.
pub open spec fn trim_front(s: Seq<char>) -> Seq<char>
    decreases s.len(),
{
    if s.len() > 0 && is_space(s[0]) {
        trim_front(s.skip(1))
    } else {
        s
    }
}

/// `s` without the white space at its back.
pub open spec fn trim_back(s: Seq<char>) -> Seq<char>
    decreases s.len(),
{
    if s.len() > 0 && is_space(s.last()) {
        trim_back(s.drop_last())
    } else {
        s
    }
}

/// `s` without the white space around it.
pub open spec fn trimmed(s: Seq<char>) -> Seq<char> {
    trim_back(trim_front(s))
}

/// A string without the white space around it.
pub fn trim<'a>(s: &'a str) -> (r: &'a str)
    ensures
        r@ == trimmed(s@),
{
    let chars: Vec<char> = to_chars(s);
    let mut lo: usize = 0;
    assert(s@.skip(0) =~= s@);
    while lo < chars.len() && space(chars[lo])
        invariant
            lo <= chars@.len(),
            chars@ == s@,
            trim_front(s@) == trim_front(s@.skip(lo as int)),
        decreases chars@.len() - lo,
    {
        assert(s@.skip(lo as int).skip(1) =~= s@.skip(lo as int + 1));
        lo = lo + 1;
    }
    let ghost front = s@.skip(lo as int);
    assert(trim_front(s@) == front);
    let mut hi: usize = chars.len();
    assert(s@.subrange(lo as int, hi as int) =~= front);
    while lo < hi && space(chars[hi - 1])
        invariant
            lo <= hi <= chars@.len(),
            chars@ == s@,
            trim_back(front) == trim_back(s@.subrange(lo as int, hi as int)),
        decreases hi,
    {
        assert(s@.subrange(lo as int, hi as int).drop_last() =~= s@.subrange(
            lo as int,
            hi as int - 1,
        ));
        hi = hi - 1;
    }
    s.substring_char(lo, hi)
}

/// The digit for a value below ten.
pub open spec fn digit_char(d: nat) -> char {
    (('0' as u32) + d) as char
}

/// `n` in decimal.
pub open spec fn decimal(n: nat) -> Seq<char>
    decreases n,
{
    if n < 10 {
        seq![digit_char(n)]
    } else {
        decimal(n / 10).push(digit_char(n % 10))
    }
}

/// The string of a digit.
fn digit_str(d: usize) -> (r: &'static str)
    requires
        d < 10,
    ensures
        r@ == seq![digit_char(d as nat)],
{
    proof {
        reveal_strlit("0");
        reveal_strlit("1");
        reveal_strlit("2");
        reveal_strlit("3");
        reveal_strlit("4");
        reveal_strlit("5");
        reveal_strlit("6");
        reveal_strlit("7");
        reveal_strlit("8");
        reveal_strlit("9");
    }
    let r: &'static str = if d == 0 {
        "0"
    } else if d == 1 {
        "1"
    } else if d == 2 {
        "2"
    } else if d == 3 {
        "3"
    } else if d == 4 {
        "4"
    } else if d == 5 {
        "5"
    } else if d == 6 {
        "6"
    } else if d == 7 {
        "7"
    } else if d == 8 {
        "8"
    } else {
        "9"
    };
    assert(r@ =~= seq![digit_char(d as nat)]);
    r
}

/// A number in decimal.
pub fn to_decimal(n: usize) -> (r: String)
    ensures
        r@ == decimal(n as nat),
    decreases n,
{
    if n < 10 {
        return digit_str(n).to_owned();
    }
    let mut r: String = to_decimal(n / 10);
    let ghost head = r@;
    r.append(digit_str(n % 10));
    assert(r@ =~= head.push(digit_char((n % 10) as nat)));
    r
}

/// Whether a character is an ASCII digit.
pub open spec fn is_digit(c: char) -> bool {
    '0' as int <= c as int <= '9' as int
}

/// The number that a string of digits stands for.
pub open spec fn digits_value(s: Seq<char>) -> nat
    decreases s.len(),
{
    if s.len() == 0 {
        0
    } else {
        digits_value(s.drop_last()) * 10 + (s.last() as int - '0' as int) as nat
    }
}

/// The digits of a number's string form: a leading plus sign is allowed.
pub open spec fn number_digits(s: Seq<char>) -> Seq<char> {
    if s.len() > 0 && s[0] == '+' {
        s.skip(1)
    } else {
        s
    }
}

/// The `usize` that a string stands for, if it does: digits only, at least one,
/// with a plus sign before them or none, and not too large.
pub open spec fn parsed_usize(s: Seq<char>) -> Option<usize> {
    let digits = number_digits(s);
    if digits.len() > 0 && (forall|i: int| 0 <= i < digits.len() ==> is_digit(#[trigger] digits[i]))
        && digits_value(digits) <= usize::MAX {
        Some(digits_value(digits) as usize)
    } else {
        None
    }
}

proof fn lemma_digits_value_grows(s: Seq<char>, n: nat)
    requires
        n <= s.len(),
        forall|i: int| 0 <= i < s.len() ==> is_digit(#[trigger] s[i]),
    ensures
        digits_value(s.take(n as int)) <= digits_value(s),
    decreases s.len() - n,
{
    if n < s.len() {
        lemma_digits_value_grows(s, n + 1);
        assert(s.take(n as int + 1).drop_last() =~= s.take(n as int));
    } else {
        assert(s.take(n as int) =~= s);
    }
}

/// Read a string as a `usize`.
pub fn parse_usize(s: &str) -> (r: Option<usize>)
    ensures
        r == parsed_usize(s@),
{
    let chars: Vec<char> = to_chars(s);
    let start: usize = if chars.len() > 0 && chars[0] == '+' {
        1
    } else {
        0
    };
    let ghost digits = number_digits(s@);
    assert(digits =~= s@.skip(start as int));
    if start >= chars.len() {
        return None;
    }
    let mut value: usize = 0;
    let mut too_large: bool = false;
    let mut i: usize = start;
    assert(digits.take(0) =~= Seq::<char>::empty());
    while i < chars.len()
        invariant
            start <= i <= chars@.len(),
            chars@ == s@,
            digits == s@.skip(start as int),
            digits == number_digits(s@),
            forall|j: int| 0 <= j < i - start ==> is_digit(#[trigger] digits[j]),
            !too_large ==> value == digits_value(digits.take(i - start)),
            too_large ==> exists|n: int|
                0 <= n <= i - start && #[trigger] digits_value(digits.take(n)) > usize::MAX,
        decreases chars@.len() - i,
    {
        let n: u32 = code_point(chars[i]);
        assert(digits[i - start] == s@[i as int]);
        if n < '0' as u32 || n > '9' as u32 {
            assert(!is_digit(digits[i - start]));
            return None;
        }
        let digit: usize = (n - '0' as u32) as usize;
        proof {
            assert(digits.take(i - start + 1).drop_last() =~= digits.take(i - start));
            assert(digits.take(i - start + 1).last() == s@[i as int]);
        }
        if !too_large {
            match value.checked_mul(10) {
                None => {
                    too_large = true;
                },
                Some(tens) => match tens.checked_add(digit) {
                    None => {
                        too_large = true;
                    },
                    Some(sum) => {
                        value = sum;
                    },
                },
            }
            assert(too_large ==> digits_value(digits.take(i - start + 1)) > usize::MAX);
        }
        i = i + 1;
    }
    assert(digits.take(digits.len() as int) =~= digits);
    if too_large {
        proof {
            let n = choose|n: int|
                0 <= n <= digits.len() && #[trigger] digits_value(digits.take(n)) > usize::MAX;
            lemma_digits_value_grows(digits, n as nat);
        }
        None
    } else {
        Some(value)
    }
}

/// `parts` with `sep` between one and the next.
pub open spec fn joined(parts: Seq<Seq<char>>, sep: Seq<char>) -> Seq<char>
    decreases parts.len(),
{
    if parts.len() == 0 {
        Seq::empty()
    } else if parts.len() == 1 {
        parts[0]
    } else {
        joined(parts.drop_last(), sep) + sep + parts.last()
    }
}

/// Strings with a separator between one and the next.
pub fn join(parts: &Vec<String>, sep: &str) -> (r: String)
    ensures
        r@ == joined(texts(parts@), sep@),
{
    let mut r: String = String::new();
    let mut i: usize = 0;
    let ghost all = texts(parts@);
    assert(all.take(0) =~= Seq::<Seq<char>>::empty());
    while i < parts.len()
        invariant
            i <= parts@.len(),
            all == texts(parts@),
            r@ == joined(all.take(i as int), sep@),
        decreases parts@.len() - i,
    {
        proof {
            assert(all.take(i as int + 1).drop_last() =~= all.take(i as int));
            assert(all.take(i as int + 1).last() == parts@[i as int]@);
        }
        let ghost before = r@;
        if i > 0 {
            r.append(sep);
        }
        r.append(parts[i].as_str());
        proof {
            if i == 0 {
                assert(before =~= Seq::<char>::empty());
                assert(r@ =~= parts@[0]@);
            }
        }
        i = i + 1;
    }
    assert(all.take(all.len() as int) =~= all);
    r
}

/// `s` with every `c` replaced by `with`.
pub open spec fn replaced(s: Seq<char>, c: char, with: Seq<char>) -> Seq<char>
    decreases s.len(),
{
    if s.len() == 0 {
        Seq::empty()
    } else {
        replaced(s.drop_last(), c, with) + if s.last() == c {
            with
        } else {
            seq![s.last()]
        }
    }
}

/// A string with every occurrence of a character replaced.
pub fn replace_char(s: &str, c: char, with: &str) -> (r: String)
    ensures
        r@ == replaced(s@, c, with@),
{
    let chars: Vec<char> = to_chars(s);
    let mut r: String = String::new();
    let mut i: usize = 0;
    assert(s@.take(0) =~= Seq::<char>::empty());
    while i < chars.len()
        invariant
            i <= chars@.len(),
            chars@ == s@,
            r@ == replaced(s@.take(i as int), c, with@),
        decreases chars@.len() - i,
    {
        let ghost before = r@;
        proof {
            assert(s@.take(i as int + 1).drop_last() =~= s@.take(i as int));
        }
        if chars[i] == c {
            r.append(with);
        } else {
            let one: &str = s.substring_char(i, i + 1);
            assert(one@ =~= seq![s@[i as int]]);
            r.append(one);
        }
        i = i + 1;
    }
    assert(s@.take(s@.len() as int) =~= s@);
    r
}

/// `s`, `n` times over.
pub open spec fn repeated(s: Seq<char>, n: nat) -> Seq<char>
    decreases n,
{
    if n == 0 {
        Seq::empty()
    } else {
        repeated(s, (n - 1) as nat) + s
    }
}

/// A string, a number of times over.
pub fn repeat(s: &str, n: usize) -> (r: String)
    ensures
        r@ == repeated(s@, n as nat),
{
    let mut r: String = String::new();
    let mut i: usize = 0;
    while i < n
        invariant
            i <= n,
            r@ == repeated(s@, i as nat),
        decreases n - i,
    {
        r.append(s);
        i = i + 1;
    }
    r
}

/// `a` comes before `b`, character by character in code point order, with a
/// prefix before whatever it is a prefix of.
pub open spec fn precedes(a: Seq<char>, b: Seq<char>) -> bool
    decreases a.len(),
{
    if b.len() == 0 {
        false
    } else if a.len() == 0 {
        true
    } else if a[0] != b[0] {
        (a[0] as int) < (b[0] as int)
    } else {
        precedes(a.skip(1), b.skip(1))
    }
}

/// A character's code point.
fn code_point(c: char) -> (n: u32)
    ensures
        n == c as int,
{
    c as u32
}

/// Whether one string comes before another.
pub fn less(a: &str, b: &str) -> (r: bool)
    ensures
        r == precedes(a@, b@),
{
    let x: Vec<char> = to_chars(a);
    let y: Vec<char> = to_chars(b);
    let mut i: usize = 0;
    assert(a@.skip(0) =~= a@);
    assert(b@.skip(0) =~= b@);
    while i < x.len() && i < y.len()
        invariant
            i <= x@.len(),
            i <= y@.len(),
            x@ == a@,
            y@ == b@,
            precedes(a@, b@) == precedes(a@.skip(i as int), b@.skip(i as int)),
        decreases x@.len() - i,
    {
        if x[i] != y[i] {
            return code_point(x[i]) < code_point(y[i]);
        }
        proof {
            assert(a@.skip(i as int).skip(1) =~= a@.skip(i as int + 1));
            assert(b@.skip(i as int).skip(1) =~= b@.skip(i as int + 1));
        }
        i = i + 1;
    }
    i < y.len()
}

/// The order is strict and total: of two strings, one comes before the other or
/// they are the same.
pub proof fn law_precedes_is_total(a: Seq<char>, b: Seq<char>)
    ensures
        a == b || precedes(a, b) || precedes(b, a),
        !(precedes(a, b) && precedes(b, a)),
        precedes(a, b) ==> a != b,
    decreases a.len(),
{
    if a.len() > 0 && b.len() > 0 && a[0] == b[0] {
        law_precedes_is_total(a.skip(1), b.skip(1));
        if a.skip(1) == b.skip(1) {
            assert(a =~= seq![a[0]] + a.skip(1));
            assert(b =~= seq![b[0]] + b.skip(1));
            assert(a =~= b);
        }
    } else if a.len() == 0 && b.len() == 0 {
        assert(a =~= b);
    } else if a.len() > 0 && b.len() > 0 {
        assert(a[0] as int != b[0] as int);
    }
}

/// The order is transitive.
pub proof fn law_precedes_is_transitive(a: Seq<char>, b: Seq<char>, c: Seq<char>)
    requires
        precedes(a, b),
        precedes(b, c),
    ensures
        precedes(a, c),
    decreases a.len(),
{
    if a.len() > 0 && b.len() > 0 && c.len() > 0 && a[0] == b[0] && b[0] == c[0] {
        law_precedes_is_transitive(a.skip(1), b.skip(1), c.skip(1));
    }
}

/// The text of a string in quotes, with its special characters escaped, as
/// `core::fmt::Debug` writes it.
pub uninterp spec fn debug_text(s: Seq<char>) -> Seq<char>;

/// Quote a string: the `core::fmt::Debug` form of a `str`, which is a function
/// of its characters.
#[verifier::external_body]
pub(crate) fn quoted(s: &str) -> (r: String)
    ensures
        r@ == debug_text(s@),
{
    format!("{:?}", s)
}

/// No white space is left at the back of what was trimmed there.
pub proof fn lemma_trim_back_ends(s: Seq<char>)
    ensures
        trim_back(s).len() > 0 ==> !is_space(trim_back(s).last()),
    decreases s.len(),
{
    if s.len() > 0 && is_space(s.last()) {
        lemma_trim_back_ends(s.drop_last());
    }
}

} // verus!
