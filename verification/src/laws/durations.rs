//! Laws on lengths of time.

use crate::duration;
use crate::laws::texts;
use crate::text;
use vstd::prelude::*;

verus! {

/// A decimal number is not white space, wherever it is cut.
proof fn lemma_no_white_space(n: nat)
    ensures
        forall|k: int| 0 <= k < text::decimal(n).len() ==> !text::is_white_space(
            #[trigger] text::decimal(n)[k],
        ) && text::decimal(n)[k] != 'm',
        text::decimal(n).len() > 0,
{
    texts::law_decimal(n, 0);
}

/// A number with a unit stands for that many units: milliseconds, seconds,
/// minutes and, where they are known, hours. White space around it does not
/// matter. Minutes and hours are meant as long as they fit into 64 bits as
/// seconds.
pub proof fn law_units(n: nat, before: Seq<char>, after: Seq<char>, hours: bool)
    requires
        n <= u64::MAX,
        forall|k: int| 0 <= k < before.len() ==> text::is_white_space(#[trigger] before[k]),
        forall|k: int| 0 <= k < after.len() ==> text::is_white_space(#[trigger] after[k]),
    ensures
        duration::duration_of(before + (text::decimal(n) + seq!['m', 's']) + after, hours) == Some(
            n as int,
        ),
        duration::duration_of(before + (text::decimal(n) + seq!['s']) + after, hours) == Some(
            1_000 * n as int,
        ),
        n * 60 <= u64::MAX ==> duration::duration_of(
            before + (text::decimal(n) + seq!['m']) + after,
            hours,
        ) == Some(60_000 * n as int),
        n * 3600 <= u64::MAX ==> duration::duration_of(
            before + (text::decimal(n) + seq!['h']) + after,
            hours,
        ) == if hours {
            Some(3_600_000 * n as int)
        } else {
            None
        },
        duration::duration_of(before + text::decimal(n) + after, hours) is None,
{
    let d = text::decimal(n);
    lemma_no_white_space(n);
    texts::law_number_is_read_back(n, u64::MAX as int);
    let ms = d + seq!['m', 's'];
    let s = d + seq!['s'];
    let m = d + seq!['m'];
    let h = d + seq!['h'];
    assert(ms[0] == d[0] && s[0] == d[0] && m[0] == d[0] && h[0] == d[0]);
    texts::law_trim(before, ms, after);
    texts::law_trim(before, s, after);
    texts::law_trim(before, m, after);
    texts::law_trim(before, h, after);
    assert(!text::is_white_space(d[d.len() - 1]));
    texts::law_trim(before, d, after);
    assert(ms.take(ms.len() - 2) =~= d);
    assert(s.take(s.len() - 1) =~= d);
    assert(m.take(m.len() - 1) =~= d);
    assert(h.take(h.len() - 1) =~= d);
    assert(s[s.len() - 2] == d[d.len() - 1]);
    texts::law_decimal(n, 0);
    assert('0' <= d[d.len() - 1] <= '9');
}

/// A text whose last character is none of the unit letters is no length of
/// time, nor is one in which anything but a number stands in front of the
/// unit.
pub proof fn law_other_texts_are_no_durations(s: Seq<char>, hours: bool)
    requires
        s.len() > 0,
        !text::is_white_space(s[0]),
        !text::is_white_space(s.last()),
        ({
            ||| s.last() != 's' && s.last() != 'm' && s.last() != 'h'
            ||| text::number_of(s.drop_last(), u64::MAX as int) is None && !(s.len() >= 2
                && s.last() == 's' && s[s.len() - 2] == 'm')
        }),
    ensures
        duration::duration_of(s, hours) is None,
{
    texts::law_trim(Seq::empty(), s, Seq::empty());
    assert(Seq::<char>::empty() + s + Seq::<char>::empty() =~= s);
    assert(s.take(s.len() - 1) =~= s.drop_last());
}

/// Whole seconds are shown with `s`, a fraction with as many decimal places as
/// it needs, and less than a second with `ms`.
pub proof fn law_shown_durations(secs: nat, a: int, b: int, c: int)
    requires
        0 <= a < 10,
        0 <= b < 10,
        0 <= c < 10,
    ensures
        duration::duration_text(0) == seq!['0', 'n', 's'],
        0 < 100 * a + 10 * b + c ==> duration::duration_text((100 * a + 10 * b + c) as nat)
            == text::decimal((100 * a + 10 * b + c) as nat) + seq!['m', 's'],
        secs > 0 ==> duration::duration_text(1000 * secs) == text::decimal(secs) + seq!['s'],
        secs > 0 && a > 0 ==> duration::duration_text((1000 * secs + 100 * a) as nat)
            == text::decimal(secs) + seq!['.', texts::numeral(a), 's'],
        secs > 0 && b > 0 ==> duration::duration_text((1000 * secs + 100 * a + 10 * b) as nat)
            == text::decimal(secs) + seq!['.', texts::numeral(a), texts::numeral(b), 's'],
        secs > 0 && c > 0 ==> duration::duration_text(
            (1000 * secs + 100 * a + 10 * b + c) as nat,
        ) == text::decimal(secs) + seq![
            '.',
            texts::numeral(a),
            texts::numeral(b),
            texts::numeral(c),
            's',
        ],
{
    reveal_strlit("0ns");
    reveal_strlit("ms");
    reveal_strlit("s");
    reveal_strlit(".");
    assert("0ns"@ =~= seq!['0', 'n', 's']);
    assert("ms"@ =~= seq!['m', 's']);
    assert("s"@ =~= seq!['s']);
    let d = text::decimal(secs);
    if secs > 0 {
        let x = (1000 * secs + 100 * a) as nat;
        let y = (1000 * secs + 100 * a + 10 * b) as nat;
        let z = (1000 * secs + 100 * a + 10 * b + c) as nat;
        assert(x / 1000 == secs && x % 1000 == 100 * a);
        assert(y / 1000 == secs && y % 1000 == 100 * a + 10 * b);
        assert(z / 1000 == secs && z % 1000 == 100 * a + 10 * b + c);
        if a > 0 {
            assert(duration::duration_text(x) =~= d + seq!['.', texts::numeral(a), 's']);
        }
        if b > 0 {
            assert(duration::duration_text(y) =~= d + seq![
                '.',
                texts::numeral(a),
                texts::numeral(b),
                's',
            ]);
        }
        if c > 0 {
            assert(duration::duration_text(z) =~= d + seq![
                '.',
                texts::numeral(a),
                texts::numeral(b),
                texts::numeral(c),
                's',
            ]);
        }
    }
}

} // verus!
