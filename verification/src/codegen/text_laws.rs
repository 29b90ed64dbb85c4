//! What the operations on text come to.
use vstd::prelude::*;
use vstd::string::*;
use crate::codegen::packages;
use crate::codegen::text;

verus! {

/// The pieces of a string, put together again, are the string.
pub proof fn law_pieces_join_back(s: Seq<char>, sep: Seq<char>)
    requires
        sep.len() > 0,
    ensures
        text::pieces(s, sep).len() > 0,
        text::joined(text::pieces(s, sep), sep) == s,
    decreases s.len(),
{
    text::lemma_find_from(s, sep, 0);
    match text::find_from(s, sep, 0) {
        Some(i) => {
            let rest = s.skip(i + sep.len());
            law_pieces_join_back(rest, sep);
            let others = text::pieces(rest, sep);
            lemma_joined_first(s.take(i), others, sep);
            assert(s.subrange(i, i + sep.len()) == sep);
            assert(s =~= s.take(i) + sep + rest);
        },
        None => {},
    }
}

proof fn lemma_joined_first(first: Seq<char>, others: Seq<Seq<char>>, sep: Seq<char>)
    requires
        others.len() > 0,
    ensures
        text::joined(seq![first] + others, sep) == first + sep + text::joined(others, sep),
    decreases others.len(),
{
    let all = seq![first] + others;
    if others.len() == 1 {
        assert(all.drop_last() =~= seq![first]);
        assert(text::joined(seq![first], sep) == first);
    } else {
        lemma_joined_first(first, others.drop_last(), sep);
        assert(all.drop_last() =~= seq![first] + others.drop_last());
        assert(all.last() == others.last());
        let x = text::joined(others.drop_last(), sep);
        assert(first + sep + x + sep + others.last() =~= first + sep + (x + sep + others.last()));
    }
}

/// No piece has the separator in it. With the law above, the pieces of a string are
/// thereby determined.
pub proof fn law_no_piece_holds_the_separator(s: Seq<char>, sep: Seq<char>, k: int)
    requires
        sep.len() > 0,
        0 <= k < text::pieces(s, sep).len(),
    ensures
        !text::holds(text::pieces(s, sep)[k], sep),
    decreases s.len(),
{
    text::lemma_find_from(s, sep, 0);
    match text::find_from(s, sep, 0) {
        Some(i) => {
            if k == 0 {
                let piece = s.take(i);
                if text::holds(piece, sep) {
                    let j = choose|j: int| text::occurs_at(piece, sep, j);
                    assert(s.subrange(j, j + sep.len()) =~= piece.subrange(j, j + sep.len()));
                    assert(text::occurs_at(s, sep, j));
                }
            } else {
                law_no_piece_holds_the_separator(s.skip(i + sep.len()), sep, k - 1);
            }
        },
        None => {
            if text::holds(s, sep) {
                let j = choose|j: int| text::occurs_at(s, sep, j);
                assert(!text::occurs_at(s, sep, j));
            }
        },
    }
}

/// What stands before the first separator, and what stands behind it.
pub proof fn law_a_cut_is_at_the_first_separator(s: Seq<char>, sep: Seq<char>)
    requires
        sep.len() > 0,
    ensures
        match text::cut(s, sep) {
            Some((a, b)) => s == a + sep + b && !text::holds(a, sep),
            None => !text::holds(s, sep),
        },
{
    text::lemma_find_from(s, sep, 0);
    match text::find_from(s, sep, 0) {
        Some(i) => {
            let piece = s.take(i);
            assert(s.subrange(i, i + sep.len()) == sep);
            assert(s =~= piece + sep + s.skip(i + sep.len()));
            if text::holds(piece, sep) {
                let j = choose|j: int| text::occurs_at(piece, sep, j);
                assert(s.subrange(j, j + sep.len()) =~= piece.subrange(j, j + sep.len()));
                assert(text::occurs_at(s, sep, j));
            }
        },
        None => {
            if text::holds(s, sep) {
                let j = choose|j: int| text::occurs_at(s, sep, j);
                assert(!text::occurs_at(s, sep, j));
            }
        },
    }
}

/// All of it is white space.
pub open spec fn is_blank(s: Seq<char>) -> bool {
    forall|i: int| 0 <= i < s.len() ==> text::is_space(#[trigger] s[i])
}

/// Trimming takes white space off both ends, all of it and nothing else.
pub proof fn law_trimming_takes_white_space_off(s: Seq<char>) -> (ends: (Seq<char>, Seq<char>))
    ensures
        s == ends.0 + text::trimmed(s) + ends.1,
        is_blank(ends.0),
        is_blank(ends.1),
        text::trimmed(s).len() > 0 ==> !text::is_space(text::trimmed(s)[0]) && !text::is_space(
            text::trimmed(s).last(),
        ),
{
    let front = text::trim_front(s);
    lemma_trim_front(s);
    lemma_trim_back(front);
    let a = s.take(s.len() - front.len());
    let t = text::trim_back(front);
    let b = front.skip(t.len() as int);
    assert(front =~= t + b);
    assert(s =~= a + front);
    assert(s =~= a + t + b);
    (a, b)
}

proof fn lemma_trim_front(s: Seq<char>)
    ensures
        text::trim_front(s).len() <= s.len(),
        text::trim_front(s) == s.skip(s.len() - text::trim_front(s).len()),
        is_blank(s.take(s.len() - text::trim_front(s).len())),
        text::trim_front(s).len() > 0 ==> !text::is_space(text::trim_front(s)[0]),
    decreases s.len(),
{
    if s.len() > 0 && text::is_space(s[0]) {
        let rest = s.skip(1);
        lemma_trim_front(rest);
        let t = text::trim_front(s);
        let n = s.len() - t.len();
        assert(t =~= s.skip(n));
        assert forall|i: int| 0 <= i < s.take(n).len() implies text::is_space(
            #[trigger] s.take(n)[i],
        ) by {
            if i > 0 {
                assert(rest.take(n - 1)[i - 1] == s.take(n)[i]);
            }
        }
    } else {
        assert(s.skip(0) =~= s);
    }
}

proof fn lemma_trim_back(s: Seq<char>)
    ensures
        text::trim_back(s).len() <= s.len(),
        text::trim_back(s) == s.take(text::trim_back(s).len() as int),
        is_blank(s.skip(text::trim_back(s).len() as int)),
        text::trim_back(s).len() > 0 ==> !text::is_space(text::trim_back(s).last())
            && text::trim_back(s)[0] == s[0],
    decreases s.len(),
{
    if s.len() > 0 && text::is_space(s.last()) {
        let init = s.drop_last();
        lemma_trim_back(init);
        let t = text::trim_back(s);
        let n = t.len() as int;
        assert(t =~= s.take(n));
        assert forall|i: int| 0 <= i < s.skip(n).len() implies text::is_space(
            #[trigger] s.skip(n)[i],
        ) by {
            if i < s.len() - 1 - n {
                assert(init.skip(n)[i] == s.skip(n)[i]);
            }
        }
    } else {
        assert(s.take(s.len() as int) =~= s);
    }
}

/// A number that is written in decimal is read back.
pub proof fn law_decimal_is_read_back(n: nat)
    requires
        n <= usize::MAX,
    ensures
        text::parsed_usize(text::decimal(n)) == Some(n as usize),
        n > 0 ==> text::decimal(n)[0] != '0',
{
    lemma_decimal(n);
}

proof fn lemma_decimal(n: nat)
    ensures
        text::decimal(n).len() > 0,
        text::digits_value(text::decimal(n)) == n,
        forall|i: int|
            0 <= i < text::decimal(n).len() ==> text::is_digit(#[trigger] text::decimal(n)[i]),
        n > 0 ==> text::decimal(n)[0] != '0',
        text::decimal(n)[0] != '+',
    decreases n,
{
    let s = text::decimal(n);
    if n < 10 {
        assert(s.drop_last() =~= Seq::<char>::empty());
        assert(text::digits_value(Seq::<char>::empty()) == 0);
        assert(s.last() == text::digit_char(n));
    } else {
        lemma_decimal(n / 10);
        assert(s.drop_last() =~= text::decimal(n / 10));
        assert(s.last() == text::digit_char(n % 10));
        assert(s[0] == text::decimal(n / 10)[0]);
    }
}

/// A string comes before another where they first differ by a smaller character, or
/// where it ends and the other goes on.
pub proof fn law_order_is_by_the_first_difference(a: Seq<char>, b: Seq<char>, k: nat)
    requires
        k <= a.len(),
        k <= b.len(),
        a.take(k as int) == b.take(k as int),
        k < a.len() && k < b.len() ==> a[k as int] != b[k as int],
    ensures
        text::precedes(a, b) <==> k < b.len() && (k == a.len() || (a[k as int] as int) < (
        b[k as int] as int)),
    decreases k,
{
    if k > 0 {
        assert(a[0] == a.take(k as int)[0]);
        assert(b[0] == b.take(k as int)[0]);
        let (x, y) = (a.skip(1), b.skip(1));
        assert(x.take(k - 1) =~= a.take(k as int).skip(1));
        assert(y.take(k - 1) =~= b.take(k as int).skip(1));
        law_order_is_by_the_first_difference(x, y, (k - 1) as nat);
    }
}

/// To replace a character by another changes that character where it stands, and
/// nothing else.
pub proof fn law_replacing_is_character_by_character(s: Seq<char>, c: char, with: char)
    ensures
        text::replaced(s, c, seq![with]).len() == s.len(),
        forall|i: int|
            0 <= i < s.len() ==> #[trigger] text::replaced(s, c, seq![with])[i] == if s[i] == c {
                with
            } else {
                s[i]
            },
    decreases s.len(),
{
    if s.len() > 0 {
        law_replacing_is_character_by_character(s.drop_last(), c, with);
    }
}

/// A file's content goes by its path, without the ending `.proto` where it has it, and
/// with dots for slashes.
pub proof fn law_a_stem_is_the_path_with_dots(path: Seq<char>)
    ensures
        ({
            let end = ".proto"@;
            let kept = if path.len() >= end.len() && path.skip(path.len() - end.len()) == end {
                path.take(path.len() - end.len())
            } else {
                path
            };
            let stem = packages::stem(path);
            &&& stem.len() == kept.len()
            &&& forall|i: int|
                0 <= i < kept.len() ==> #[trigger] stem[i] == if kept[i] == '/' {
                    '.'
                } else {
                    kept[i]
                }
        }),
{
    reveal_strlit(".");
    reveal_strlit(".proto");
    let end = ".proto"@;
    if path.len() >= end.len() {
        assert(path.skip(path.len() - end.len()) =~= path.subrange(
            path.len() - end.len(),
            path.len() as int,
        ));
    }
    let kept = if text::ends(path, end) {
        path.take(path.len() - end.len())
    } else {
        path
    };
    assert("."@ =~= seq!['.']);
    law_replacing_is_character_by_character(kept, '/', '.');
}

/// A string over and over is each character in turn.
pub proof fn law_repeating_is_over_and_over(s: Seq<char>, n: nat, i: int)
    requires
        0 <= i < n * s.len(),
    ensures
        text::repeated(s, n).len() == n * s.len(),
        text::repeated(s, n)[i] == s[i % (s.len() as int)],
    decreases n,
{
    lemma_repeated_len(s, n);
    let before = text::repeated(s, (n - 1) as nat);
    lemma_repeated_len(s, (n - 1) as nat);
    assert(n * s.len() == (n - 1) * s.len() + s.len()) by (nonlinear_arith);
    if i < before.len() {
        law_repeating_is_over_and_over(s, (n - 1) as nat, i);
    } else {
        let k = i - before.len();
        assert(text::repeated(s, n)[i] == s[k]);
        assert(i % (s.len() as int) == k) by {
            vstd::arithmetic::div_mod::lemma_fundamental_div_mod_converse(
                i,
                s.len() as int,
                n - 1,
                k,
            );
        }
    }
}

proof fn lemma_repeated_len(s: Seq<char>, n: nat)
    ensures
        text::repeated(s, n).len() == n * s.len(),
    decreases n,
{
    if n > 0 {
        lemma_repeated_len(s, (n - 1) as nat);
        assert(n * s.len() == (n - 1) * s.len() + s.len()) by (nonlinear_arith);
    } else {
        assert(0 * s.len() == 0) by (nonlinear_arith);
    }
}

} // verus!
