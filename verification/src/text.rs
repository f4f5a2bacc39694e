//! Text primitives: characters, trimming, decimal numbers, splitting, joining.

use vstd::prelude::*;

verus! {

/// The characters of each string of a list.
pub open spec fn texts(v: Seq<String>) -> Seq<Seq<char>> {
    v.map_values(|s: String| s@)
}

/// Whether a character has the Unicode property White_Space.
pub open spec fn is_white_space(c: char) -> bool {
    let n = c as u32;
    ||| 0x09 <= n <= 0x0d
    ||| n == 0x20
    ||| n == 0x85
    ||| n == 0xa0
    ||| n == 0x1680
    ||| 0x2000 <= n <= 0x200a
    ||| n == 0x2028
    ||| n == 0x2029
    ||| n == 0x202f
    ||| n == 0x205f
    ||| n == 0x3000
}

/// Whether a character has the Unicode property White_Space.
pub fn white_space(c: char) -> (r: bool)
    ensures
        r == is_white_space(c),
{
    let n: u32 = c as u32;
    (0x09 <= n && n <= 0x0d) || n == 0x20 || n == 0x85 || n == 0xa0 || n == 0x1680 || (0x2000 <= n
        && n <= 0x200a) || n == 0x2028 || n == 0x2029 || n == 0x202f || n == 0x205f || n == 0x3000
}

/// The characters of a string, in order.
pub fn chars_of(s: &str) -> (v: Vec<char>)
    ensures
        v@ == s@,
{
    let mut v: Vec<char> = Vec::new();
    for c in it: s.chars()
        invariant
            v@ == it.seq().take(it.index()),
            it.seq() == s@,
    {
        v.push(c);
    }
    v
}

/// The string made of the characters `v[from..to]`.
pub fn text_of(v: &Vec<char>, from: usize, to: usize) -> (s: String)
    requires
        from <= to <= v@.len(),
    ensures
        s@ == v@.subrange(from as int, to as int),
{
    let mut s = String::new();
    let mut i: usize = from;
    while i < to
        invariant
            from <= i <= to <= v@.len(),
            s@ == v@.subrange(from as int, i as int),
        decreases to - i,
    {
        s.push(v[i]);
        i = i + 1;
    }
    s
}

/// Whether two strings hold the same characters.
pub fn same_text(a: &str, b: &str) -> (r: bool)
    ensures
        r == (a@ == b@),
{
    a.to_owned() == b.to_owned()
}

/// The number of leading characters up to the first one at which `stops`
/// holds, or the whole length when there is none.
pub open spec fn span(s: Seq<char>, stops: spec_fn(char) -> bool) -> nat
    decreases s.len(),
{
    if s.len() == 0 || stops(s[0]) {
        0
    } else {
        1 + span(s.skip(1), stops)
    }
}

/// A prefix length at which nothing stopped before, and something stops or the
/// text ends, is the span.
pub proof fn lemma_span(s: Seq<char>, stops: spec_fn(char) -> bool, n: int)
    requires
        0 <= n <= s.len(),
        forall|k: int| 0 <= k < n ==> !stops(#[trigger] s[k]),
        n == s.len() || stops(s[n]),
    ensures
        span(s, stops) == n,
    decreases s.len(),
{
    if n > 0 {
        assert forall|k: int| 0 <= k < n - 1 implies !stops(#[trigger] s.skip(1)[k]) by {
            assert(s.skip(1)[k] == s[k + 1]);
        }
        if n < s.len() {
            assert(s.skip(1)[n - 1] == s[n]);
        }
        assert(!stops(s[0]));
        lemma_span(s.skip(1), stops, n - 1);
    }
}

/// The span lies within the text, and the text stops or ends there.
pub proof fn lemma_span_bounds(s: Seq<char>, stops: spec_fn(char) -> bool)
    ensures
        span(s, stops) <= s.len(),
        span(s, stops) < s.len() ==> stops(s[span(s, stops) as int]),
        forall|k: int| 0 <= k < span(s, stops) ==> !stops(#[trigger] s[k]),
    decreases s.len(),
{
    if s.len() == 0 || stops(s[0]) {
    } else {
        lemma_span_bounds(s.skip(1), stops);
        let m = span(s.skip(1), stops);
        if m < s.len() - 1 {
            assert(s.skip(1)[m as int] == s[m as int + 1]);
        }
        assert forall|k: int| 0 <= k < span(s, stops) implies !stops(#[trigger] s[k]) by {
            if k > 0 {
                assert(s.skip(1)[k - 1] == s[k]);
            }
        }
    }
}

/// The text without leading and trailing white space.
pub open spec fn trimmed(s: Seq<char>) -> Seq<char>
    decreases s.len(),
{
    if s.len() == 0 {
        s
    } else if is_white_space(s[0]) {
        trimmed(s.skip(1))
    } else if is_white_space(s.last()) {
        trimmed(s.drop_last())
    } else {
        s
    }
}

/// The text without leading and trailing white space.
pub fn trim(v: &Vec<char>) -> (r: Vec<char>)
    ensures
        r@ == trimmed(v@),
{
    let n: usize = v.len();
    let mut from: usize = 0;
    assert(v@.subrange(0, n as int) =~= v@);
    while from < n && white_space(v[from])
        invariant
            from <= n == v@.len(),
            trimmed(v@.subrange(from as int, n as int)) == trimmed(v@),
        ensures
            from <= n == v@.len(),
            trimmed(v@.subrange(from as int, n as int)) == trimmed(v@),
            from < n ==> !is_white_space(v@[from as int]),
        decreases n - from,
    {
        proof {
            assert(v@.subrange(from as int, n as int).skip(1) =~= v@.subrange(
                from + 1,
                n as int,
            ));
        }
        from = from + 1;
    }
    let mut to: usize = n;
    while from < to && white_space(v[to - 1])
        invariant
            from <= to <= n == v@.len(),
            trimmed(v@.subrange(from as int, to as int)) == trimmed(v@),
            from < n ==> !is_white_space(v@[from as int]),
        ensures
            from <= to <= n == v@.len(),
            trimmed(v@.subrange(from as int, to as int)) == trimmed(v@),
            from < n ==> !is_white_space(v@[from as int]),
            from < to ==> !is_white_space(v@[to - 1]),
        decreases to,
    {
        proof {
            assert(v@.subrange(from as int, to as int).drop_last() =~= v@.subrange(
                from as int,
                to - 1,
            ));
        }
        to = to - 1;
    }
    let mut r: Vec<char> = Vec::new();
    let mut i: usize = from;
    while i < to
        invariant
            from <= i <= to <= v@.len(),
            r@ == v@.subrange(from as int, i as int),
        decreases to - i,
    {
        r.push(v[i]);
        i = i + 1;
    }
    r
}

/// Whether a character is one of the decimal digits `0` to `9`.
pub open spec fn is_digit(c: char) -> bool {
    '0' <= c && c <= '9'
}

/// The number that a digit stands for.
pub open spec fn digit_value(c: char) -> int {
    c as int - '0' as int
}

/// Whether every character is a decimal digit.
pub open spec fn all_digits(s: Seq<char>) -> bool {
    forall|k: int| 0 <= k < s.len() ==> is_digit(#[trigger] s[k])
}

/// The number that a run of decimal digits stands for.
pub open spec fn digits_value(s: Seq<char>) -> int
    decreases s.len(),
{
    if s.len() == 0 {
        0
    } else {
        digits_value(s.drop_last()) * 10 + digit_value(s.last())
    }
}

/// The digits that follow an optional plus sign.
pub open spec fn unsigned_digits(s: Seq<char>) -> Seq<char> {
    if s.len() > 0 && s[0] == '+' {
        s.skip(1)
    } else {
        s
    }
}

/// The unsigned number that a text stands for: an optional plus sign, then at
/// least one decimal digit and nothing else, with a value of at most `max`.
pub open spec fn number_of(s: Seq<char>, max: int) -> Option<int> {
    let d = unsigned_digits(s);
    if d.len() > 0 && all_digits(d) && digits_value(d) <= max {
        Some(digits_value(d))
    } else {
        None
    }
}

/// Dropping digits from the end never makes the value larger.
proof fn lemma_digits_monotone(s: Seq<char>, n: int)
    requires
        all_digits(s),
        0 <= n <= s.len(),
    ensures
        0 <= digits_value(s.take(n)) <= digits_value(s),
    decreases s.len(),
{
    if n == s.len() {
        assert(s.take(n) =~= s);
        if s.len() > 0 {
            let t = s.drop_last();
            assert(all_digits(t)) by {
                assert forall|k: int| 0 <= k < t.len() implies is_digit(#[trigger] t[k]) by {
                    assert(t[k] == s[k]);
                }
            }
            assert(is_digit(s[s.len() - 1]));
            lemma_digits_monotone(t, t.len() as int);
            assert(t.take(t.len() as int) =~= t);
        }
    } else {
        let t = s.drop_last();
        assert(all_digits(t)) by {
            assert forall|k: int| 0 <= k < t.len() implies is_digit(#[trigger] t[k]) by {
                assert(t[k] == s[k]);
            }
        }
        assert(is_digit(s[s.len() - 1]));
        lemma_digits_monotone(t, n);
        assert(t.take(n) =~= s.take(n));
    }
}

/// Reads an unsigned number of at most `max`.
pub fn parse_chars(v: &Vec<char>, from: usize, max: u64) -> (r: Option<u64>)
    requires
        from <= v@.len(),
    ensures
        match number_of(v@.skip(from as int), max as int) {
            Some(n) => r == Some(n as u64) && 0 <= n <= max,
            None => r is None,
        },
{
    let ghost s = v@.skip(from as int);
    let mut i: usize = from;
    if i < v.len() && v[i] == '+' {
        i = i + 1;
    }
    let ghost d = unsigned_digits(s);
    let ghost start = i as int;
    assert(d =~= v@.skip(start));
    if i >= v.len() {
        return None;
    }
    let mut acc: u64 = 0;
    while i < v.len()
        invariant
            0 <= start <= i <= v@.len(),
            d == v@.skip(start),
            d == unsigned_digits(s),
            forall|k: int| 0 <= k < i - start ==> is_digit(#[trigger] d[k]),
            acc == digits_value(d.take(i - start)),
            acc <= max,
            s == v@.skip(from as int),
        decreases v@.len() - i,
    {
        let c: char = v[i];
        assert(c == d[i - start]);
        if c < '0' || c > '9' {
            assert(!is_digit(d[i - start]));
            return None;
        }
        let x: u64 = (c as u32 - '0' as u32) as u64;
        proof {
            assert(d.take(i - start + 1).drop_last() =~= d.take(i - start));
            assert(d.take(i - start + 1).last() == c);
            assert(digits_value(d.take(i - start + 1)) == acc * 10 + x);
            if all_digits(d) {
                lemma_digits_monotone(d, i - start + 1);
            }
        }
        if acc > max / 10 || x > max - acc * 10 {
            return None;
        }
        acc = acc * 10 + x;
        i = i + 1;
    }
    assert(d.take(i - start) =~= d);
    Some(acc)
}

/// Reads an unsigned number of at most `max`.
pub fn parse_number(s: &str, max: u64) -> (r: Option<u64>)
    ensures
        match number_of(s@, max as int) {
            Some(n) => r == Some(n as u64) && 0 <= n <= max,
            None => r is None,
        },
{
    let v = chars_of(s);
    assert(v@.skip(0) =~= s@);
    parse_chars(&v, 0, max)
}

/// The decimal digit for a number below ten.
pub open spec fn digit_char(n: int) -> char {
    ('0' as int + n) as char
}

/// The decimal digits of a number, without leading zeros.
pub open spec fn decimal(n: nat) -> Seq<char>
    decreases n,
{
    if n < 10 {
        seq![digit_char(n as int)]
    } else {
        decimal(n / 10).push(digit_char((n % 10) as int))
    }
}

/// The decimal digit for a number below ten.
fn digit_of(n: u128) -> (c: char)
    requires
        n < 10,
    ensures
        c == digit_char(n as int),
{
    if n == 0 {
        '0'
    } else if n == 1 {
        '1'
    } else if n == 2 {
        '2'
    } else if n == 3 {
        '3'
    } else if n == 4 {
        '4'
    } else if n == 5 {
        '5'
    } else if n == 6 {
        '6'
    } else if n == 7 {
        '7'
    } else if n == 8 {
        '8'
    } else {
        '9'
    }
}

/// The decimal digits of a large number, without leading zeros.
pub fn decimal_wide(n: u128) -> (s: String)
    ensures
        s@ == decimal(n as nat),
    decreases n,
{
    if n < 10 {
        let mut s = String::new();
        s.push(digit_of(n));
        s
    } else {
        let mut s = decimal_wide(n / 10);
        s.push(digit_of(n % 10));
        s
    }
}

/// The decimal digits of a number, without leading zeros.
pub fn decimal_text(n: u64) -> (s: String)
    ensures
        s@ == decimal(n as nat),
{
    decimal_wide(n as u128)
}

/// Holds of one character only.
pub open spec fn at_char(sep: char) -> spec_fn(char) -> bool {
    |c: char| c == sep
}

/// The parts of a text between the occurrences of a separator; there is
/// always at least one part.
pub open spec fn split(s: Seq<char>, sep: char) -> Seq<Seq<char>>
    decreases s.len(),
{
    let n = span(s, at_char(sep));
    if n >= s.len() {
        seq![s]
    } else {
        seq![s.take(n as int)] + split(s.skip(n as int + 1), sep)
    }
}

/// A text has at least one part, and more than one exactly when it holds the
/// separator.
pub proof fn lemma_split_len(s: Seq<char>, sep: char)
    ensures
        split(s, sep).len() >= 1,
        split(s, sep).len() > 1 <==> s.contains(sep),
    decreases s.len(),
{
    let stops = at_char(sep);
    lemma_span_bounds(s, stops);
    let n = span(s, stops);
    if n < s.len() {
        lemma_split_len(s.skip(n as int + 1), sep);
        assert(s[n as int] == sep);
    } else if s.contains(sep) {
        let k = choose|k: int| 0 <= k < s.len() && s[k] == sep;
        assert(stops(s[k]));
    }
}

/// The parts of a text between the occurrences of a separator.
pub fn split_text(s: &str, sep: char) -> (r: Vec<String>)
    ensures
        texts(r@) == split(s@, sep),
        r@.len() >= 1,
        r@.len() > 1 <==> s@.contains(sep),
{
    let v = chars_of(s);
    let n: usize = v.len();
    let ghost stops = at_char(sep);
    let mut r: Vec<String> = Vec::new();
    let mut start: usize = 0;
    let mut i: usize = 0;
    assert(v@.skip(0) =~= v@);
    while i < n
        invariant
            start <= i <= n == v@.len(),
            stops == at_char(sep),
            texts(r@) + split(v@.skip(start as int), sep) =~= split(v@, sep),
            forall|k: int| start <= k < i ==> #[trigger] v@[k] != sep,
        decreases n - i,
    {
        if v[i] == sep {
            let part = text_of(&v, start, i);
            proof {
                let rest = v@.skip(start as int);
                assert(rest[i - start] == sep);
                assert forall|k: int| 0 <= k < i - start implies !stops(#[trigger] rest[k]) by {
                    assert(rest[k] == v@[start + k]);
                }
                lemma_span(rest, stops, i - start);
                assert(rest.take(i - start) =~= v@.subrange(start as int, i as int));
                assert(rest.skip(i - start + 1) =~= v@.skip(i + 1));
                assert(texts(r@.push(part)) =~= texts(r@).push(part@));
            }
            r.push(part);
            start = i + 1;
        }
        i = i + 1;
    }
    let part = text_of(&v, start, n);
    proof {
        let rest = v@.skip(start as int);
        assert forall|k: int| 0 <= k < rest.len() implies !stops(#[trigger] rest[k]) by {
            assert(rest[k] == v@[start + k]);
        }
        lemma_span(rest, stops, rest.len() as int);
        assert(rest =~= v@.subrange(start as int, n as int));
        assert(texts(r@.push(part)) =~= texts(r@).push(part@));
        lemma_split_len(s@, sep);
    }
    r.push(part);
    proof {
        assert(texts(r@).len() == r@.len());
    }
    r
}

/// Whether a list holds a text.
pub fn has_text(v: &Vec<String>, s: &str) -> (r: bool)
    ensures
        r == texts(v@).contains(s@),
{
    let mut i: usize = 0;
    while i < v.len()
        invariant
            i <= v@.len(),
            forall|k: int| 0 <= k < i ==> #[trigger] texts(v@)[k] != s@,
        decreases v@.len() - i,
    {
        assert(texts(v@)[i as int] == v@[i as int]@);
        if same_text(v[i].as_str(), s) {
            return true;
        }
        i = i + 1;
    }
    false
}

/// Whether a text holds a character.
pub fn has_char(s: &str, c: char) -> (r: bool)
    ensures
        r == s@.contains(c),
{
    let v = chars_of(s);
    let mut i: usize = 0;
    while i < v.len()
        invariant
            i <= v@.len(),
            v@ == s@,
            forall|k: int| 0 <= k < i ==> #[trigger] v@[k] != c,
        decreases v@.len() - i,
    {
        if v[i] == c {
            assert(s@[i as int] == c);
            return true;
        }
        i = i + 1;
    }
    false
}

/// The text that is left when every occurrence of a pattern, read from the
/// left without overlaps, is taken out.
pub open spec fn without(s: Seq<char>, pat: Seq<char>) -> Seq<char>
    decreases s.len(),
{
    if pat.len() == 0 || s.len() < pat.len() {
        s
    } else if pat.is_prefix_of(s) {
        without(s.skip(pat.len() as int), pat)
    } else {
        seq![s[0]] + without(s.skip(1), pat)
    }
}

/// Whether the pattern stands in the text at a position.
fn stands_at(v: &Vec<char>, at: usize, pat: &Vec<char>) -> (r: bool)
    requires
        at <= v@.len(),
    ensures
        r == pat@.is_prefix_of(v@.skip(at as int)),
{
    if v.len() - at < pat.len() {
        return false;
    }
    let mut k: usize = 0;
    while k < pat.len()
        invariant
            k <= pat@.len(),
            at + pat@.len() <= v.len(),
            forall|j: int| 0 <= j < k ==> #[trigger] pat@[j] == v@[at + j],
        decreases pat@.len() - k,
    {
        if v[at + k] != pat[k] {
            assert(v@.skip(at as int)[k as int] != pat@[k as int]);
            return false;
        }
        k = k + 1;
    }
    assert(v@.skip(at as int).subrange(0, pat@.len() as int) =~= pat@);
    true
}

/// The text that is left when every occurrence of a pattern is taken out.
pub fn remove_all(s: &str, pat: &str) -> (r: String)
    ensures
        r@ == without(s@, pat@),
{
    let v = chars_of(s);
    let p = chars_of(pat);
    let mut r = String::new();
    let mut i: usize = 0;
    assert(v@.skip(0) =~= v@);
    while i < v.len() && p.len() > 0 && v.len() - i >= p.len()
        invariant
            i <= v@.len(),
            r@ + without(v@.skip(i as int), p@) =~= without(v@, p@),
        decreases v@.len() - i,
    {
        if stands_at(&v, i, &p) {
            assert(v@.skip(i as int).skip(p@.len() as int) =~= v@.skip(i + p@.len()));
            i = i + p.len();
        } else {
            assert(v@.skip(i as int).skip(1) =~= v@.skip(i + 1));
            r.push(v[i]);
            i = i + 1;
        }
    }
    while i < v.len()
        invariant
            i <= v@.len(),
            r@ + v@.skip(i as int) =~= without(v@, p@),
        decreases v@.len() - i,
    {
        r.push(v[i]);
        i = i + 1;
    }
    r
}

/// Whether a text begins with another.
pub fn starts_with(s: &str, pat: &str) -> (r: bool)
    ensures
        r == pat@.is_prefix_of(s@),
{
    let v = chars_of(s);
    let p = chars_of(pat);
    assert(v@.skip(0) =~= v@);
    stands_at(&v, 0, &p)
}

/// Whether a text ends with another.
pub fn ends_with(s: &str, pat: &str) -> (r: bool)
    ensures
        r == pat@.is_suffix_of(s@),
{
    let v = chars_of(s);
    let p = chars_of(pat);
    if v.len() < p.len() {
        return false;
    }
    let at: usize = v.len() - p.len();
    let r = stands_at(&v, at, &p);
    proof {
        let tail = s@.subrange(at as int, s@.len() as int);
        assert(v@.skip(at as int) =~= tail);
        assert(tail.subrange(0, tail.len() as int) =~= tail);
    }
    r
}

/// A text without its last character, where that is the given one.
pub open spec fn without_last(s: Seq<char>, c: char) -> Seq<char> {
    if s.len() > 0 && s.last() == c {
        s.drop_last()
    } else {
        s
    }
}

/// A text without its last character, where that is the given one.
pub fn remove_last(s: &str, c: char) -> (r: String)
    ensures
        r@ == without_last(s@, c),
{
    let v = chars_of(s);
    let n: usize = v.len();
    if n > 0 && v[n - 1] == c {
        text_of(&v, 0, n - 1)
    } else {
        s.to_owned()
    }
}

/// The parts put one after the other, with a separator between neighbours.
pub open spec fn joined(parts: Seq<Seq<char>>, sep: Seq<char>) -> Seq<char>
    decreases parts.len(),
{
    if parts.len() == 0 {
        Seq::empty()
    } else if parts.len() == 1 {
        parts[0]
    } else {
        joined(parts.drop_last(), sep) + sep + parts.last()
    }
}

/// Two texts, one after the other.
pub fn concat(a: &str, b: &str) -> (r: String)
    ensures
        r@ == a@ + b@,
{
    let mut r = a.to_owned();
    r.append(b);
    r
}

/// The parts put one after the other, with a separator between neighbours.
pub fn join(parts: &Vec<String>, sep: &str) -> (r: String)
    ensures
        r@ == joined(texts(parts@), sep@),
{
    let ghost all = texts(parts@);
    let mut r = String::new();
    let mut i: usize = 0;
    while i < parts.len()
        invariant
            i <= parts@.len(),
            all == texts(parts@),
            r@ =~= joined(all.take(i as int), sep@),
        decreases parts@.len() - i,
    {
        proof {
            assert(all.take(i + 1).drop_last() =~= all.take(i as int));
            assert(all.take(i + 1).last() == parts@[i as int]@);
        }
        if i > 0 {
            r.append(sep);
        }
        r.append(parts[i].as_str());
        i = i + 1;
    }
    assert(all.take(i as int) =~= all);
    r
}

/// The text behind the last colon, if there is a colon.
pub open spec fn behind_last_colon(s: Seq<char>) -> Option<Seq<char>>
    decreases s.len(),
{
    if s.len() == 0 {
        None
    } else if s.last() == ':' {
        Some(Seq::empty())
    } else {
        match behind_last_colon(s.drop_last()) {
            Some(t) => Some(t.push(s.last())),
            None => None,
        }
    }
}

/// The text in front of the last colon, or all of it where there is none.
pub open spec fn before_last_colon(s: Seq<char>) -> Seq<char> {
    match behind_last_colon(s) {
        Some(t) => s.take(s.len() - t.len() - 1),
        None => s,
    }
}

/// What stands behind the last colon holds no colon.
proof fn lemma_behind_last_colon(s: Seq<char>, i: int)
    requires
        -1 <= i < s.len(),
        i >= 0 ==> s[i] == ':',
        forall|k: int| i < k < s.len() ==> s[k] != ':',
    ensures
        behind_last_colon(s) == if i >= 0 {
            Some(s.skip(i + 1))
        } else {
            None
        },
    decreases s.len(),
{
    if s.len() > 0 && s.last() != ':' {
        let front = s.drop_last();
        assert(forall|k: int| i < k < front.len() ==> front[k] == s[k]);
        lemma_behind_last_colon(front, i);
        if i >= 0 {
            assert(front.skip(i + 1).push(s.last()) =~= s.skip(i + 1));
        }
    } else if s.len() > 0 {
        assert(i == s.len() - 1);
        assert(s.skip(i + 1) =~= Seq::empty());
    }
}

/// The texts in front of and behind the last colon, if there is a colon.
pub fn split_last_colon(s: &str) -> (r: Option<(String, String)>)
    ensures
        match behind_last_colon(s@) {
            Some(t) => {
                &&& r matches Some((before, behind))
                &&& before@ == before_last_colon(s@)
                &&& behind@ == t
            },
            None => r is None,
        },
{
    let v = chars_of(s);
    let mut i: usize = v.len();
    while i > 0 && v[i - 1] != ':'
        invariant
            i <= v@.len(),
            forall|k: int| i <= k < v@.len() ==> v@[k] != ':',
        ensures
            i <= v@.len(),
            forall|k: int| i <= k < v@.len() ==> v@[k] != ':',
            i > 0 ==> v@[i - 1] == ':',
        decreases i,
    {
        i = i - 1;
    }
    proof {
        lemma_behind_last_colon(s@, i - 1);
    }
    if i > 0 {
        let behind = text_of(&v, i, v.len());
        let before = text_of(&v, 0, i - 1);
        assert(behind@ =~= s@.skip(i as int));
        assert(before@ =~= s@.take(i - 1));
        Some((before, behind))
    } else {
        None
    }
}

} // verus!
