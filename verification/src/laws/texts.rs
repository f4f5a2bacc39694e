//! Laws on numbers and texts.

use crate::text;
use vstd::prelude::*;

verus! {

/// The character for a decimal digit.
pub open spec fn numeral(d: int) -> char {
    ('0' as int + d) as char
}

/// A number below ten is written with one numeral; multiplying by ten and
/// adding a digit appends a numeral.
pub proof fn law_decimal(n: nat, d: int)
    requires
        0 <= d < 10,
    ensures
        text::decimal(d as nat) == seq![numeral(d)],
        n > 0 ==> text::decimal((n * 10 + d) as nat) == text::decimal(n).push(numeral(d)),
        text::decimal(n).len() > 0,
        forall|k: int| 0 <= k < text::decimal(n).len() ==> '0' <= #[trigger] text::decimal(n)[k]
            <= '9',
    decreases n,
{
    if n > 0 {
        assert((n * 10 + d) / 10 == n && (n * 10 + d) % 10 == d);
    }
    if n >= 10 {
        law_decimal(n / 10, 0);
        let front = text::decimal(n / 10);
        assert(text::decimal(n) == front.push(text::digit_char((n % 10) as int)));
        assert forall|k: int| 0 <= k < text::decimal(n).len() implies '0' <= #[trigger] text::decimal(
            n,
        )[k] <= '9' by {
            if k < front.len() {
                assert(text::decimal(n)[k] == front[k]);
            }
        }
    }
}

/// A text of one numeral is read as its digit.
pub proof fn law_one_numeral_is_read(d: int, max: int)
    requires
        0 <= d < 10,
    ensures
        text::number_of(seq![numeral(d)], max) == if d <= max {
            Some(d)
        } else {
            None
        },
{
    let s = seq![numeral(d)];
    assert(s.drop_last() =~= Seq::empty());
    reveal_with_fuel(text::digits_value, 2);
}

/// Appending a numeral to a text that is read as a number multiplies it by ten
/// and adds the digit; a number above the limit is not read.
pub proof fn law_appended_numeral_is_read(s: Seq<char>, v: int, limit: int, d: int, max: int)
    requires
        text::number_of(s, limit) == Some(v),
        0 <= d < 10,
    ensures
        text::number_of(s.push(numeral(d)), max) == if v * 10 + d <= max {
            Some(v * 10 + d)
        } else {
            None
        },
{
    let t = s.push(numeral(d));
    let a = text::unsigned_digits(s);
    let b = text::unsigned_digits(t);
    assert(b =~= a.push(numeral(d)));
    assert(b.drop_last() =~= a);
    assert forall|k: int| 0 <= k < b.len() implies text::is_digit(#[trigger] b[k]) by {
        if k < a.len() {
            assert(b[k] == a[k]);
        }
    }
}

/// The limit is the only thing that a larger number can run into.
pub proof fn law_limit_of_numbers(s: Seq<char>, v: int, limit: int, max: int)
    requires
        text::number_of(s, limit) == Some(v),
    ensures
        text::number_of(s, max) == if v <= max {
            Some(v)
        } else {
            None
        },
{
}

/// Writing a number down and reading it gives the number back.
pub proof fn law_number_is_read_back(n: nat, max: int)
    ensures
        text::number_of(text::decimal(n), max) == if n <= max {
            Some(n as int)
        } else {
            None
        },
    decreases n,
{
    if n < 10 {
        law_decimal(0, n as int);
        law_one_numeral_is_read(n as int, max);
    } else {
        law_number_is_read_back(n / 10, (n / 10) as int);
        law_decimal(n / 10, (n % 10) as int);
        law_appended_numeral_is_read(
            text::decimal(n / 10),
            (n / 10) as int,
            (n / 10) as int,
            (n % 10) as int,
            max,
        );
    }
}

/// One plus sign in front of a number does not matter.
pub proof fn law_plus_sign(s: Seq<char>, max: int)
    requires
        s.len() > 0,
        s[0] != '+',
    ensures
        text::number_of(seq!['+'] + s, max) == text::number_of(s, max),
{
    assert((seq!['+'] + s).skip(1) =~= s);
}

/// A text that holds anything but numerals, behind at most one plus sign, is
/// not read as a number; nor is one without a numeral.
pub proof fn law_other_texts_are_no_numbers(s: Seq<char>, k: int, max: int)
    requires
        ({
            ||| s.len() == 0
            ||| s == seq!['+']
            ||| 0 <= k < s.len() && !('0' <= s[k] <= '9') && !(k == 0 && s[0] == '+')
        }),
    ensures
        text::number_of(s, max) is None,
{
    let d = text::unsigned_digits(s);
    if 0 <= k < s.len() && !('0' <= s[k] <= '9') && !(k == 0 && s[0] == '+') {
        if s[0] == '+' {
            assert(d[k - 1] == s[k]);
        } else {
            assert(d[k] == s[k]);
        }
    }
}

/// White space around a text is taken off, and nothing else.
pub proof fn law_trim(before: Seq<char>, core: Seq<char>, after: Seq<char>)
    requires
        forall|k: int| 0 <= k < before.len() ==> text::is_white_space(#[trigger] before[k]),
        forall|k: int| 0 <= k < after.len() ==> text::is_white_space(#[trigger] after[k]),
        core.len() > 0 ==> !text::is_white_space(core[0]) && !text::is_white_space(core.last()),
    ensures
        text::trimmed(before + core + after) == core,
    decreases before.len() + after.len(),
{
    let s = before + core + after;
    if before.len() > 0 {
        assert(s[0] == before[0]);
        assert(s.skip(1) =~= before.skip(1) + core + after);
        assert forall|k: int| 0 <= k < before.skip(1).len() implies text::is_white_space(
            #[trigger] before.skip(1)[k],
        ) by {
            assert(before.skip(1)[k] == before[k + 1]);
        }
        law_trim(before.skip(1), core, after);
    } else if core.len() > 0 {
        assert(s[0] == core[0]);
        if after.len() > 0 {
            assert(s.last() == after.last());
            assert(text::is_white_space(after[after.len() - 1]));
            assert(s.drop_last() =~= before + core + after.drop_last());
            assert forall|k: int| 0 <= k < after.drop_last().len() implies text::is_white_space(
                #[trigger] after.drop_last()[k],
            ) by {
                assert(after.drop_last()[k] == after[k]);
            }
            law_trim(before, core, after.drop_last());
        } else {
            assert(s =~= core);
        }
    } else if after.len() > 0 {
        assert(s[0] == after[0]);
        assert(s.skip(1) =~= before + core + after.skip(1));
        assert forall|k: int| 0 <= k < after.skip(1).len() implies text::is_white_space(
            #[trigger] after.skip(1)[k],
        ) by {
            assert(after.skip(1)[k] == after[k + 1]);
        }
        law_trim(before, core, after.skip(1));
    } else {
        assert(s =~= core);
    }
}

/// A text is cut at each separator: what stands in front of the first one is
/// the first part, and a text without one is the only part.
pub proof fn law_split(first: Seq<char>, sep: char, rest: Seq<char>)
    requires
        !first.contains(sep),
    ensures
        text::split(first, sep) == seq![first],
        text::split(first + seq![sep] + rest, sep) == seq![first] + text::split(rest, sep),
{
    let stops = text::at_char(sep);
    let n = first.len() as int;
    let s = first + seq![sep] + rest;
    assert forall|k: int| 0 <= k < n implies !stops(#[trigger] first[k]) by {
        assert(first.contains(first[k]));
    }
    text::lemma_span(first, stops, n);
    assert forall|k: int| 0 <= k < n implies !stops(#[trigger] s[k]) by {
        assert(s[k] == first[k]);
    }
    assert(s[n] == sep);
    text::lemma_span(s, stops, n);
    assert(s.take(n) =~= first);
    assert(s.skip(n + 1) =~= rest);
}

/// Parts are put together with one separator between neighbours.
pub proof fn law_joined(parts: Seq<Seq<char>>, last: Seq<char>, sep: Seq<char>)
    ensures
        text::joined(seq![last], sep) == last,
        parts.len() > 0 ==> text::joined(parts.push(last), sep) == text::joined(parts, sep) + sep
            + last,
{
    assert(parts.push(last).drop_last() =~= parts);
}

/// Whether a text stands in another one at a place.
pub open spec fn stands_in(s: Seq<char>, pat: Seq<char>, i: int) -> bool {
    0 <= i && i + pat.len() <= s.len() && s.subrange(i, i + pat.len()) == pat
}

/// Removing a text that does not occur changes nothing.
pub proof fn law_nothing_to_remove(s: Seq<char>, pat: Seq<char>)
    requires
        pat.len() > 0,
        forall|i: int| !#[trigger] stands_in(s, pat, i),
    ensures
        text::without(s, pat) == s,
    decreases s.len(),
{
    if s.len() >= pat.len() {
        assert(!stands_in(s, pat, 0));
        assert forall|i: int| !#[trigger] stands_in(s.skip(1), pat, i) by {
            if stands_in(s.skip(1), pat, i) {
                assert(s.subrange(i + 1, i + 1 + pat.len()) =~= s.skip(1).subrange(
                    i,
                    i + pat.len(),
                ));
                assert(stands_in(s, pat, i + 1));
            }
        }
        law_nothing_to_remove(s.skip(1), pat);
        assert(seq![s[0]] + s.skip(1) =~= s);
    }
}

/// The first occurrence of a text is removed, what stands in front of it is
/// kept, and what stands behind it is gone through in the same way.
pub proof fn law_first_occurrence_is_removed(before: Seq<char>, pat: Seq<char>, rest: Seq<char>)
    requires
        pat.len() > 0,
        forall|i: int|
            0 <= i < before.len() ==> !#[trigger] stands_in(before + pat + rest, pat, i),
    ensures
        text::without(before + pat + rest, pat) == before + text::without(rest, pat),
    decreases before.len(),
{
    let s = before + pat + rest;
    if before.len() == 0 {
        assert(s.subrange(0, pat.len() as int) =~= pat);
        assert(pat.is_prefix_of(s));
        assert(s.skip(pat.len() as int) =~= rest);
        assert(before + text::without(rest, pat) =~= text::without(rest, pat));
    } else {
        let tail = before.skip(1);
        assert(!stands_in(s, pat, 0));
        assert(s.skip(1) =~= tail + pat + rest);
        assert forall|i: int| 0 <= i < tail.len() implies !#[trigger] stands_in(
            tail + pat + rest,
            pat,
            i,
        ) by {
            assert(!stands_in(s, pat, i + 1));
            assert(s.subrange(i + 1, i + 1 + pat.len()) =~= s.skip(1).subrange(
                i,
                i + pat.len(),
            )) by {
                if i + pat.len() > s.skip(1).len() {
                    assert(s.len() == before.len() + pat.len() + rest.len());
                }
            }
        }
        law_first_occurrence_is_removed(tail, pat, rest);
        assert(s[0] == before[0]);
        assert(seq![before[0]] + (tail + text::without(rest, pat)) =~= before + text::without(
            rest,
            pat,
        ));
    }
}

/// A text is cut at its last colon, if it has one.
pub proof fn law_last_colon(before: Seq<char>, behind: Seq<char>)
    requires
        !behind.contains(':'),
    ensures
        text::behind_last_colon(before + seq![':'] + behind) == Some(behind),
        text::before_last_colon(before + seq![':'] + behind) == before,
        text::behind_last_colon(behind) is None,
        text::before_last_colon(behind) == behind,
    decreases behind.len(),
{
    let s = before + seq![':'] + behind;
    if behind.len() == 0 {
        assert(s.last() == ':');
        assert(s.take(s.len() - 1) =~= before);
        assert(behind =~= Seq::empty());
    } else {
        let front = behind.drop_last();
        assert(behind.contains(behind.last()));
        assert forall|c: char| front.contains(c) implies c != ':' by {
            let k = choose|k: int| 0 <= k < front.len() && front[k] == c;
            assert(behind[k] == c);
            assert(behind.contains(c));
        }
        law_last_colon(before, front);
        assert(s.drop_last() =~= before + seq![':'] + front);
        assert(s.last() == behind.last());
        assert(front.push(behind.last()) =~= behind);
        assert(s.take(s.len() - behind.len() - 1) =~= before);
    }
}

} // verus!
