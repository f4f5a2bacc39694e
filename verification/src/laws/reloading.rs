//! Laws on watching the configuration file.

use crate::config::Directive;
use crate::duration;
use crate::laws::durations;
use crate::metrics::{Amount, Family, Sample};
use crate::outside;
use crate::plugin::reload;
use crate::plugin::reload::{ReloadPlugin, WatchStep};
use crate::plugin::{Plugin, Setting};
use crate::text;
use vstd::prelude::*;

verus! {

/// The hexadecimal digits in order.
pub open spec fn hex_digits() -> Seq<char> {
    seq!['0', '1', '2', '3', '4', '5', '6', '7', '8', '9', 'a', 'b', 'c', 'd', 'e', 'f']
}

/// The digits are those that the encoding uses.
pub proof fn lemma_hex_digit(n: int)
    requires
        0 <= n < 16,
    ensures
        outside::hex_digit(n) == hex_digits()[n],
{
}

/// The fingerprint of a file is its whole content's SHA-512 digest, each byte as
/// two lower-case hexadecimal digits, the more significant one first.
pub proof fn law_fingerprint(content: Seq<u8>)
    ensures
        reload::fingerprint(content).len() == 2 * outside::sha512(content).len(),
        forall|i: int|
            0 <= i < outside::sha512(content).len() ==> reload::fingerprint(content)[2 * i]
                == hex_digits()[(#[trigger] outside::sha512(content)[i]) as int / 16],
        forall|i: int|
            0 <= i < outside::sha512(content).len() ==> reload::fingerprint(content)[2 * i + 1]
                == hex_digits()[(#[trigger] outside::sha512(content)[i]) as int % 16],
{
    let d = outside::sha512(content);
    assert forall|i: int| 0 <= i < d.len() implies reload::fingerprint(content)[2 * i]
        == hex_digits()[(#[trigger] d[i]) as int / 16] && reload::fingerprint(content)[2 * i + 1]
        == hex_digits()[d[i] as int % 16] by {
        lemma_hex_digit(d[i] as int / 16);
        lemma_hex_digit(d[i] as int % 16);
        assert((2 * i) / 2 == i && (2 * i) % 2 == 0);
        assert((2 * i + 1) / 2 == i && (2 * i + 1) % 2 == 1);
    }
}

/// Two files have the same fingerprint exactly if the SHA-512 digests of their
/// whole contents are the same.
pub proof fn law_fingerprints_tell_digests_apart(a: Seq<u8>, b: Seq<u8>)
    ensures
        reload::fingerprint(a) == reload::fingerprint(b) <==> outside::sha512(a)
            == outside::sha512(b),
{
    law_fingerprint(a);
    law_fingerprint(b);
    let x = outside::sha512(a);
    let y = outside::sha512(b);
    if reload::fingerprint(a) == reload::fingerprint(b) {
        assert forall|i: int| 0 <= i < x.len() implies x[i] == y[i] by {
            let p = x[i] as int;
            let q = y[i] as int;
            assert(hex_digits()[p / 16] == hex_digits()[q / 16]);
            assert(hex_digits()[p % 16] == hex_digits()[q % 16]);
            lemma_hex_digits_differ(p / 16, q / 16);
            lemma_hex_digits_differ(p % 16, q % 16);
        }
        assert(x =~= y);
    }
}

/// The hexadecimal digits differ.
proof fn lemma_hex_digits_differ(p: int, q: int)
    requires
        0 <= p < 16,
        0 <= q < 16,
        hex_digits()[p] == hex_digits()[q],
    ensures
        p == q,
{
}

/// While one version of the file is in use, a look at another says to reload
/// where the digests of the two whole contents differ, and to go on watching
/// where they are the same. On a reload the old version is marked as out of
/// use and the new one as in use.
pub proof fn law_reload_where_the_content_changed(
    first: Seq<u8>,
    second: Seq<u8>,
    step: WatchStep,
    samples: Seq<Sample>,
    samples_after: Seq<Sample>,
)
    requires
        reload::looked(
            reload::first_hash(Some(first)),
            Some(second),
            step,
            samples,
            samples_after,
        ),
    ensures
        outside::sha512(first) != outside::sha512(second) ==> {
            &&& step == WatchStep::Reload
            &&& samples_after == samples.push(in_use(first, 0)).push(in_use(second, 1))
        },
        outside::sha512(first) == outside::sha512(second) ==> step == WatchStep::Watch
            && samples_after == samples,
{
    law_fingerprints_tell_digests_apart(first, second);
}

/// The measurement that tells whether a version of the file is in use.
pub open spec fn in_use(content: Seq<u8>, level: u64) -> Sample {
    Sample {
        family: Family::ReloadVersionInfo,
        labels: seq!["sha512"@, reload::fingerprint(content)],
        amount: Amount::Level(level),
    }
}

/// A file that cannot be read is counted, and the watch goes on; a file that
/// could not be read at first is loaded as soon as it can be.
pub proof fn law_unreadable_file(
    hash: Seq<char>,
    content: Seq<u8>,
    step: WatchStep,
    later: WatchStep,
    samples: Seq<Sample>,
    samples_after: Seq<Sample>,
    samples_later: Seq<Sample>,
)
    requires
        reload::looked(hash, None, step, samples, samples_after),
        reload::looked(
            reload::first_hash(None),
            Some(content),
            later,
            samples,
            samples_later,
        ),
        outside::sha512(content).len() > 0,
    ensures
        step == WatchStep::Watch,
        samples_after == samples.push(
            Sample { family: Family::ReloadFailed, labels: Seq::empty(), amount: Amount::Inc },
        ),
        later == WatchStep::Reload,
{
    law_fingerprint(content);
}

/// A number of seconds as it is written.
pub open spec fn seconds(n: nat) -> Seq<char> {
    text::decimal(n) + seq!['s']
}

/// The file is looked at every 30 seconds, give or take 15, or as often as the
/// arguments say: at least two seconds apart, with a variation of at least one
/// second but never more than half the time.
pub proof fn law_times(n: nat, m: nat)
    requires
        n <= u64::MAX,
        m <= u64::MAX,
    ensures
        reload::interval_of(Seq::empty()) == 30_000,
        reload::jitter_of(Seq::empty()) == 15_000,
        reload::interval_of(seq![seconds(n)]) == if n < 2 {
            2_000
        } else {
            1_000 * n
        },
        reload::jitter_of(seq![seconds(n)]) == if n < 2 {
            1_000
        } else if n < 30 {
            500 * n
        } else {
            15_000
        },
        reload::interval_of(seq![seconds(n), seconds(m)]) == if n < 2 {
            2_000
        } else {
            1_000 * n
        },
        n >= 2 ==> reload::jitter_of(seq![seconds(n), seconds(m)]) == if m < 1 {
            1_000
        } else if 2 * m <= n {
            1_000 * m
        } else {
            500 * n
        },
{
    let none = Seq::<char>::empty();
    durations::law_units(n, none, none, true);
    durations::law_units(m, none, none, true);
    assert(none + seconds(n) + none =~= seconds(n));
    assert(none + seconds(m) + none =~= seconds(m));
}

/// A time that is said is used, raised to its least value; one that cannot be
/// read stands for the usual one. Further arguments do not matter.
pub proof fn law_times_as_said(first: Seq<char>, second: Seq<char>, more: Seq<Seq<char>>)
    ensures
        ({
            let args = seq![first, second] + more;
            let interval = match duration::duration_of(first, true) {
                Some(ms) => ms as u128,
                None => 30_000,
            };
            let jitter = match duration::duration_of(second, true) {
                Some(ms) => ms as u128,
                None => 15_000,
            };
            let raised = if interval < 2_000 {
                2_000
            } else {
                interval
            };
            let wanted = if jitter < 1_000 {
                1_000
            } else {
                jitter
            };
            &&& reload::interval_of(args) == raised
            &&& reload::interval_of(seq![first]) == raised
            &&& reload::jitter_of(args) == if 2 * wanted <= raised {
                wanted
            } else {
                raised / 2
            }
        }),
{
    let args = seq![first, second] + more;
    assert(args[0] == first && args[1] == second);
}

/// The middle of the range that is drawn from is the plain interval; each step
/// away from it is one millisecond.
pub proof fn law_pauses(interval: u128, jitter: u128, drawn: int)
    ensures
        reload::pause(interval, jitter, jitter as int) == interval,
        reload::pause(interval, jitter, drawn + 1) == reload::pause(interval, jitter, drawn) + 1,
        reload::pause(interval, jitter, 0) == interval - jitter,
        reload::pause(interval, jitter, 2 * jitter as int) == interval + jitter,
{
}

/// A plugin has the times of its arguments and watches the file from which the
/// configuration came.
pub proof fn law_configured(plugin: ReloadPlugin, d: Directive, shared: Setting)
    requires
        plugin.configured(d, shared),
    ensures
        plugin.interval == reload::interval_of(d.args),
        plugin.jitter == reload::jitter_of(d.args),
        plugin.path@ == shared.config_path,
{
}

} // verus!
