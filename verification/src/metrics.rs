//! Measurements that the plugins ask to be recorded.

use crate::text;
use crate::text::{concat, decimal_text};
use vstd::prelude::*;

verus! {

/// The families of measurements.
#[derive(Debug, Clone, Copy, PartialEq, Eq, Structural)]
pub enum Family {
    DnsRequests,
    DnsResponses,
    DnsRequestDuration,
    DnsRequestSize,
    DnsResponseSize,
    CacheEntries,
    CacheRequests,
    CacheHits,
    CacheMisses,
    ProxyRequestDuration,
    ProxyConnCacheHits,
    ProxyConnCacheMisses,
    ForwardMaxConcurrentRejects,
    PluginEnabled,
    BuildInfo,
    ReloadVersionInfo,
    ReloadFailed,
}

/// What to do with a measurement: count one more, set a level, or observe a
/// size or a number of nanoseconds.
#[derive(Debug, Clone, Copy, PartialEq, Eq, Structural)]
pub enum Amount {
    Inc,
    Level(u64),
    Observe(u64),
    ObserveNanos(u128),
}

/// One measurement, with the values of the labels of its family in order.
#[derive(Debug)]
pub struct Metric {
    pub family: Family,
    pub labels: Vec<String>,
    pub amount: Amount,
}

/// What a measurement says.
pub struct Sample {
    pub family: Family,
    pub labels: Seq<Seq<char>>,
    pub amount: Amount,
}

impl View for Metric {
    type V = Sample;

    open spec fn view(&self) -> Sample {
        Sample { family: self.family, labels: text::texts(self.labels@), amount: self.amount }
    }
}

/// What each measurement of a list says.
pub open spec fn samples(v: Seq<Metric>) -> Seq<Sample> {
    v.map_values(|m: Metric| m@)
}

/// A measurement from its parts.
pub open spec fn sample(family: Family, labels: Seq<Seq<char>>, amount: Amount) -> Sample {
    Sample { family, labels, amount }
}

/// Adds a measurement to a list.
pub fn record(metrics: &mut Vec<Metric>, family: Family, labels: &[&str], amount: Amount)
    ensures
        samples(final(metrics)@) == samples(old(metrics)@).push(
            sample(family, labels@.map_values(|s: &str| s@), amount),
        ),
{
    let mut owned: Vec<String> = Vec::new();
    let mut i: usize = 0;
    while i < labels.len()
        invariant
            i <= labels@.len(),
            text::texts(owned@) =~= labels@.map_values(|s: &str| s@).take(i as int),
        decreases labels@.len() - i,
    {
        let ghost before = owned@;
        let s = labels[i].to_owned();
        owned.push(s);
        assert(text::texts(owned@) =~= text::texts(before).push(s@));
        i = i + 1;
    }
    let m = Metric { family, labels: owned, amount };
    assert(m@.labels =~= labels@.map_values(|s: &str| s@));
    metrics.push(m);
    assert(samples(metrics@) =~= samples(old(metrics)@).push(m@));
}

/// The label of the listener on a port.
pub open spec fn server_label(port: u16) -> Seq<char> {
    "dns://:"@ + text::decimal(port as nat)
}

/// The label of the listener on a port.
pub fn server_label_of(port: u16) -> (s: String)
    ensures
        s@ == server_label(port),
{
    concat("dns://:", decimal_text(port as u64).as_str())
}

} // verus!
