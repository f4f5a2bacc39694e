//! The log plugin: it reports incoming queries and outgoing answers.

use crate::config::{clone_texts, Directive, PluginConfig};
use crate::metrics::Metric;
use crate::outside;
use crate::outside::hex_encode;
use crate::plugin::cache::CacheStore;
use crate::plugin::prometheus;
use crate::plugin::prometheus::rcode_to_str;
use crate::plugin::{Pass, Plugin, PluginError, Progress, Setting, SharedState};
use crate::text;
use crate::text::{concat, decimal_wide};
use crate::types::DnsMessage;
use crate::wire;
use vstd::prelude::*;

verus! {

/// The line with which an incoming query is reported: its identifier in four
/// hexadecimal digits.
pub open spec fn query_line(id: u16) -> Seq<char> {
    "=> [Incoming Query] TxID: 0x"@ + outside::hex(seq![(id / 256) as u8, (id % 256) as u8])
}

/// The line with which an incoming query is reported.
pub fn incoming_line(id: u16) -> (r: String)
    ensures
        r@ == query_line(id),
{
    let mut bytes: Vec<u8> = Vec::new();
    bytes.push((id / 256) as u8);
    bytes.push((id % 256) as u8);
    assert(bytes@ =~= seq![(id / 256) as u8, (id % 256) as u8]);
    concat("=> [Incoming Query] TxID: 0x", hex_encode(bytes.as_slice()).as_str())
}

/// The three decimal digits of a number below a thousand.
pub open spec fn three_digits(n: int) -> Seq<char> {
    seq![
        text::digit_char(n / 100),
        text::digit_char(n / 10 % 10),
        text::digit_char(n % 10),
    ]
}

/// A time in nanoseconds as milliseconds with three decimal places.
pub open spec fn millis_text(nanos: u128) -> Seq<char> {
    let micros = nanos as int / 1000;
    text::decimal((micros / 1000) as nat) + "."@ + three_digits(micros % 1000) + "ms"@
}

/// The status of an answer: its response code by name, or `NONE` where there is
/// no answer that holds one.
pub open spec fn status(response: Option<Seq<u8>>) -> Seq<char> {
    match response {
        Some(r) => if r.len() >= 4 {
            prometheus::rcode_name(wire::rcode_of(r))
        } else {
            "NONE"@
        },
        None => "NONE"@,
    }
}

/// The line with which an outgoing answer is reported: the identifier of the
/// query, the status of the answer and the time it took.
pub open spec fn answer_text(id: u16, response: Option<Seq<u8>>, nanos: u128) -> Seq<char> {
    "<= [Outgoing Answer] TxID: 0x"@ + outside::hex(
        seq![(id / 256) as u8, (id % 256) as u8],
    ) + " RCODE: "@ + status(response) + " in "@ + millis_text(nanos)
}

/// The line with which an outgoing answer is reported, after `nanos`
/// nanoseconds.
pub fn answer_line(id: u16, response: &Option<Vec<u8>>, nanos: u128) -> (r: String)
    ensures
        r@ == answer_text(
            id,
            match response {
                Some(v) => Some(v@),
                None => None,
            },
            nanos,
        ),
{
    let mut bytes: Vec<u8> = Vec::new();
    bytes.push((id / 256) as u8);
    bytes.push((id % 256) as u8);
    assert(bytes@ =~= seq![(id / 256) as u8, (id % 256) as u8]);
    let mut s = concat("<= [Outgoing Answer] TxID: 0x", hex_encode(bytes.as_slice()).as_str());
    s.append(" RCODE: ");
    let status: &str = match response {
        Some(v) => if v.len() >= 4 {
            rcode_to_str(v[3] & 0x0f)
        } else {
            "NONE"
        },
        None => "NONE",
    };
    s.append(status);
    s.append(" in ");
    let micros: u128 = nanos / 1000;
    let f: u128 = micros % 1000;
    let mut t = decimal_wide(micros / 1000);
    t.append(".");
    let ghost whole = t@;
    proof {
        assert(text::decimal((f / 100) as nat) =~= seq![text::digit_char(f as int / 100)]);
        assert(text::decimal((f / 10 % 10) as nat) =~= seq![text::digit_char(f as int / 10 % 10)]);
        assert(text::decimal((f % 10) as nat) =~= seq![text::digit_char(f as int % 10)]);
    }
    t.append(decimal_wide(f / 100).as_str());
    t.append(decimal_wide(f / 10 % 10).as_str());
    t.append(decimal_wide(f % 10).as_str());
    assert(t@ =~= whole + three_digits(f as int));
    t.append("ms");
    assert(t@ =~= millis_text(nanos));
    s.append(t.as_str());
    s
}

/// A plugin that lets every message pass; the run of a query reports it where it
/// passes this plugin.
#[derive(Debug)]
pub struct LogPlugin {
    /// The zones that the directive names; they are only reported.
    pub zones: Vec<String>,
}

impl Plugin for LogPlugin {
    open spec fn called() -> Seq<char> {
        "log"@
    }

    open spec fn rank() -> u8 {
        255
    }

    open spec fn reads_errors() -> bool {
        false
    }

    open spec fn configured(self, config: Directive, shared: Setting) -> bool {
        text::texts(self.zones@) == config.args
    }

    open spec fn accepts(self, msg: DnsMessage) -> bool {
        true
    }

    open spec fn processed(self, after: Self, pass: Pass, progress: Progress) -> bool {
        &&& after == self
        &&& progress is Passed
        &&& pass.untouched()
    }

    open spec fn accepts_back(self, msg: DnsMessage) -> bool {
        true
    }

    open spec fn post_processed(self, pass: Pass) -> bool {
        pass.untouched()
    }

    fn name(&self) -> (r: &'static str) {
        "log"
    }

    fn priority(&self) -> (r: u8) {
        255
    }

    fn from_config(config: &PluginConfig, _shared: &mut SharedState) -> (r: Result<
        Self,
        PluginError,
    >) {
        Ok(LogPlugin { zones: clone_texts(&config.args) })
    }

    fn process(
        &mut self,
        _msg: &mut DnsMessage,
        _store: &mut CacheStore,
        _now: u128,
        _metrics: &mut Vec<Metric>,
    ) -> (progress: Progress) {
        Progress::Passed
    }

    fn post_process(
        &self,
        _msg: &mut DnsMessage,
        _store: &mut CacheStore,
        _now: u128,
        _metrics: &mut Vec<Metric>,
    ) {
    }
}

} // verus!
