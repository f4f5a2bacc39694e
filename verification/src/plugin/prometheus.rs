//! The prometheus plugin: it measures queries and answers, and serves the
//! measurements to a scraper.

use crate::config::{clone_texts, Directive, PluginConfig};
use crate::metrics;
use crate::metrics::{record, server_label_of, Amount, Family, Metric, Sample};
use crate::plugin::cache::CacheStore;
use crate::plugin::health;
use crate::plugin::health::listen_address;
use crate::plugin::{Pass, Plugin, PluginError, Progress, Scope, Setting, SharedState};
use crate::text;
use crate::text::{decimal_text, has_text, same_text, split_last_colon};
use crate::types::{ClientIp, DnsMessage};
use crate::wire;
use crate::wire::question_type_of;
use vstd::prelude::*;

verus! {

/// The name of a response code.
pub open spec fn rcode_name(rcode: u8) -> Seq<char> {
    if rcode == 0 {
        "NOERROR"@
    } else if rcode == 1 {
        "FORMERR"@
    } else if rcode == 2 {
        "SERVFAIL"@
    } else if rcode == 3 {
        "NXDOMAIN"@
    } else if rcode == 4 {
        "NOTIMP"@
    } else if rcode == 5 {
        "REFUSED"@
    } else {
        "UNKNOWN"@
    }
}

/// The name of a response code.
pub fn rcode_to_str(rcode: u8) -> (r: &'static str)
    ensures
        r@ == rcode_name(rcode),
{
    if rcode == 0 {
        "NOERROR"
    } else if rcode == 1 {
        "FORMERR"
    } else if rcode == 2 {
        "SERVFAIL"
    } else if rcode == 3 {
        "NXDOMAIN"
    } else if rcode == 4 {
        "NOTIMP"
    } else if rcode == 5 {
        "REFUSED"
    } else {
        "UNKNOWN"
    }
}

/// The name of a query type; `UNKNOWN` where the query has none.
pub open spec fn qtype_name(t: Option<u16>) -> Seq<char> {
    match t {
        None => "UNKNOWN"@,
        Some(n) => if n == 1 {
            "A"@
        } else if n == 28 {
            "AAAA"@
        } else if n == 33 {
            "SRV"@
        } else if n == 5 {
            "CNAME"@
        } else if n == 15 {
            "MX"@
        } else if n == 16 {
            "TXT"@
        } else if n == 2 {
            "NS"@
        } else if n == 6 {
            "SOA"@
        } else if n == 12 {
            "PTR"@
        } else if n == 255 {
            "ANY"@
        } else {
            "OTHER"@
        },
    }
}

/// The name of the type of the first question of a query.
pub fn get_qtype_str(query: &[u8]) -> (r: &'static str)
    ensures
        r@ == qtype_name(wire::question_type(query@)),
{
    match question_type_of(query) {
        None => "UNKNOWN",
        Some(n) => if n == 1 {
            "A"
        } else if n == 28 {
            "AAAA"
        } else if n == 33 {
            "SRV"
        } else if n == 5 {
            "CNAME"
        } else if n == 15 {
            "MX"
        } else if n == 16 {
            "TXT"
        } else if n == 2 {
            "NS"
        } else if n == 6 {
            "SOA"
        } else if n == 12 {
            "PTR"
        } else if n == 255 {
            "ANY"
        } else {
            "OTHER"
        },
    }
}

/// The port of the listener that took a message, 53 where it is not known.
pub fn get_port_from_msg(msg: &DnsMessage) -> (r: u16)
    ensures
        r == msg.port(),
{
    msg.server_port.unwrap_or(53)
}

/// The label for the address family of the client: `2` for IPv6, else `1`.
pub open spec fn family_label(msg: DnsMessage) -> Seq<char> {
    match msg.client_addr {
        Some(a) => if a.ip is V6 {
            "2"@
        } else {
            "1"@
        },
        None => "1"@,
    }
}

/// The label for the address family of the client.
fn family_of(msg: &DnsMessage) -> (r: &'static str)
    ensures
        r@ == family_label(*msg),
{
    match msg.client_addr {
        Some(a) => match a.ip {
            ClientIp::V6(_) => "2",
            ClientIp::V4(_) => "1",
        },
        None => "1",
    }
}

/// The label for the transport over which a message came.
pub open spec fn proto_label(msg: DnsMessage) -> Seq<char> {
    if msg.protocol@ == "tcp"@ {
        "tcp"@
    } else {
        "udp"@
    }
}

/// The label for the transport over which a message came.
fn proto_of(msg: &DnsMessage) -> (r: &'static str)
    ensures
        r@ == proto_label(*msg),
{
    if same_text(msg.protocol.as_str(), "tcp") {
        "tcp"
    } else {
        "udp"
    }
}

/// The measurement that tells whether a plugin is in use in a zone.
pub open spec fn enabled(name: Seq<char>, server: Seq<char>, zone: Seq<char>, on: bool) -> Sample {
    metrics::sample(
        Family::PluginEnabled,
        seq![name, server, ""@, zone],
        Amount::Level(
            if on {
                1
            } else {
                0
            },
        ),
    )
}

/// The measurement of the time that a message took.
pub open spec fn duration_samples(msg: DnsMessage, now: u128, zone: Seq<char>) -> Seq<Sample> {
    match msg.start_time {
        Some(start) => seq![
            metrics::sample(
                Family::DnsRequestDuration,
                seq![metrics::server_label(msg.port()), ""@, zone],
                Amount::ObserveNanos(if now >= start {
                    (now - start) as u128
                } else {
                    0
                }),
            ),
        ],
        None => Seq::empty(),
    }
}

/// The measurements of an answer: its size, who gave it and its code. They are
/// kept for the server as a whole, under one transport and one zone.
pub open spec fn answer_samples(msg: DnsMessage) -> Seq<Sample> {
    let server = metrics::server_label(msg.port());
    match msg.response() {
        Some(r) => seq![
            metrics::sample(
                Family::DnsResponseSize,
                seq!["udp"@, server, ""@, "."@],
                Amount::Observe(r.len() as u64),
            ),
            metrics::sample(
                Family::DnsResponses,
                seq![
                    if msg.answered_by@.len() == 0 {
                        "unknown"@
                    } else {
                        msg.answered_by@
                    },
                    rcode_name(wire::rcode_of(r)),
                    server,
                    ""@,
                    "."@,
                ],
                Amount::Inc,
            ),
        ],
        None => Seq::empty(),
    }
}

/// Records which revision and version is running.
pub fn record_build(metrics: &mut Vec<Metric>, revision: &str, version: &str)
    ensures
        metrics::samples(final(metrics)@) == metrics::samples(old(metrics)@).push(
            metrics::sample(
                Family::BuildInfo,
                seq!["rustc"@, revision@, version@],
                Amount::Level(1),
            ),
        ),
{
    record(metrics, Family::BuildInfo, &["rustc", revision, version], Amount::Level(1));
    assert(metrics::samples(metrics@).last().labels =~= seq![
        "rustc"@,
        revision@,
        version@,
    ]);
}

/// Whether bytes from a scraper are a request for the measurements.
pub open spec fn is_get(n: int, buf: Seq<u8>) -> bool {
    n > 0 && seq![0x47u8, 0x45, 0x54, 0x20].is_prefix_of(buf)
}

/// Whether a buffer of which `n` bytes were read holds a request for the
/// measurements, that is begins with `GET` and a space.
pub fn is_get_request(n: usize, buf: &[u8]) -> (r: bool)
    ensures
        r == is_get(n as int, buf@),
{
    let r = n > 0 && buf.len() >= 4 && buf[0] == 0x47 && buf[1] == 0x45 && buf[2] == 0x54 && buf[3]
        == 0x20;
    proof {
        let get = seq![0x47u8, 0x45, 0x54, 0x20];
        if r {
            assert(get =~= buf@.subrange(0, 4));
        } else if is_get(n as int, buf@) {
            assert(buf@.subrange(0, 4)[0] == get[0]);
            assert(buf@.subrange(0, 4)[1] == get[1]);
            assert(buf@.subrange(0, 4)[2] == get[2]);
            assert(buf@.subrange(0, 4)[3] == get[3]);
        }
    }
    r
}

/// The answer to a scraper: a header with the length of the body, and the body.
pub open spec fn scrape_answer(body: Seq<u8>) -> Seq<u8> {
    vstd::utf8::encode_utf8(
        "HTTP/1.1 200 OK\r\nContent-Type: text/plain; version=0.0.4\r\nContent-Length: "@
            + text::decimal(body.len()) + "\r\nConnection: close\r\n\r\n"@,
    ) + body
}

/// The answer to a scraper.
pub fn metrics_response(body: &[u8]) -> (r: Vec<u8>)
    ensures
        r@ == scrape_answer(body@),
{
    let mut header =
        "HTTP/1.1 200 OK\r\nContent-Type: text/plain; version=0.0.4\r\nContent-Length: ".to_owned();
    header.append(decimal_text(body.len() as u64).as_str());
    header.append("\r\nConnection: close\r\n\r\n");
    let mut r: Vec<u8> = Vec::new();
    r.extend_from_slice(header.as_str().as_bytes());
    r.extend_from_slice(body);
    assert(r@ =~= scrape_answer(body@));
    r
}

/// The label for a zone: its name without the port.
pub open spec fn zone_label(zone: Option<Scope>) -> Seq<char> {
    match zone {
        Some(z) => text::before_last_colon(z.name),
        None => "."@,
    }
}

/// The prometheus plugin.
#[derive(Debug)]
pub struct PrometheusPlugin {
    /// Where the listener for scrapers is to be bound.
    pub addr: String,
    /// The label for the zone.
    pub zone: String,
    /// The names of the plugins in the zone, where they are known.
    pub plugins: Option<Vec<String>>,
}

impl PrometheusPlugin {
    /// Whether the zone has a plugin, as far as is known.
    pub open spec fn has(self, name: Seq<char>) -> bool {
        match self.plugins {
            Some(v) => text::texts(v@).contains(name),
            None => true,
        }
    }

    /// The measurements of an incoming query.
    pub open spec fn query_samples(self, msg: DnsMessage) -> Seq<Sample> {
        let server = metrics::server_label(msg.port());
        let kind = qtype_name(wire::question_type(msg.raw_query@));
        let zone = self.zone@;
        seq![
            metrics::sample(
                Family::DnsRequests,
                seq![family_label(msg), proto_label(msg), server, kind, ""@, zone],
                Amount::Inc,
            ),
            metrics::sample(
                Family::DnsRequestSize,
                seq![proto_label(msg), server, ""@, zone],
                Amount::Observe(msg.raw_query@.len() as u64),
            ),
            enabled("cache"@, server, zone, self.has("cache"@)),
            enabled("errors"@, server, zone, self.has("errors"@)),
            enabled("forward"@, server, zone, self.has("forward"@)),
            enabled("log"@, server, zone, self.has("log"@)),
            enabled("prometheus"@, server, zone, self.has("prometheus"@)),
        ]
    }

    /// Records whether a plugin is in use in the zone.
    fn record_enabled(&self, metrics: &mut Vec<Metric>, name: &str, server: &str)
        ensures
            metrics::samples(final(metrics)@) == metrics::samples(old(metrics)@).push(
                enabled(name@, server@, self.zone@, self.has(name@)),
            ),
    {
        let on: bool = match &self.plugins {
            Some(v) => has_text(v, name),
            None => true,
        };
        let level: u64 = if on {
            1
        } else {
            0
        };
        let zone = self.zone.as_str();
        record(metrics, Family::PluginEnabled, &[name, server, "", zone], Amount::Level(level));
        assert(metrics::samples(metrics@).last().labels =~= seq![name@, server@, ""@, zone@]);
    }
}

impl Plugin for PrometheusPlugin {
    open spec fn called() -> Seq<char> {
        "prometheus"@
    }

    open spec fn rank() -> u8 {
        150
    }

    open spec fn reads_errors() -> bool {
        false
    }

    open spec fn configured(self, config: Directive, shared: Setting) -> bool {
        &&& self.addr@ == health::listen_on(config.args, ":9153"@)
        &&& self.zone@ == zone_label(shared.zone)
        &&& match shared.zone {
            Some(z) => self.plugins matches Some(v) && text::texts(v@) == z.plugins,
            None => self.plugins is None,
        }
    }

    open spec fn accepts(self, msg: DnsMessage) -> bool {
        true
    }

    /// The query is measured and its start time noted.
    open spec fn processed(self, after: Self, pass: Pass, progress: Progress) -> bool {
        &&& after == self
        &&& progress is Passed
        &&& pass.kept_after == pass.kept
        &&& pass.samples_after == pass.samples + self.query_samples(pass.msg)
        &&& pass.msg_after == (DnsMessage { start_time: Some(pass.now), ..pass.msg })
    }

    open spec fn accepts_back(self, msg: DnsMessage) -> bool {
        msg.response() matches Some(r) ==> r.len() >= 4
    }

    /// The time taken and the answer are measured.
    open spec fn post_processed(self, pass: Pass) -> bool {
        &&& pass.msg_after == pass.msg
        &&& pass.kept_after == pass.kept
        &&& pass.samples_after == pass.samples + duration_samples(
            pass.msg,
            pass.now,
            self.zone@,
        ) + answer_samples(pass.msg)
    }

    fn name(&self) -> (r: &'static str) {
        "prometheus"
    }

    fn priority(&self) -> (r: u8) {
        150
    }

    fn from_config(config: &PluginConfig, shared: &mut SharedState) -> (r: Result<
        Self,
        PluginError,
    >) {
        let addr = listen_address(&config.args, ":9153");
        match &shared.zone {
            Some(z) => {
                let zone = match split_last_colon(z.name.as_str()) {
                    Some((name, _)) => name,
                    None => z.name.clone(),
                };
                Ok(PrometheusPlugin { addr, zone, plugins: Some(clone_texts(&z.plugins)) })
            },
            None => Ok(PrometheusPlugin { addr, zone: ".".to_owned(), plugins: None }),
        }
    }

    fn process(
        &mut self,
        msg: &mut DnsMessage,
        _store: &mut CacheStore,
        now: u128,
        metrics: &mut Vec<Metric>,
    ) -> (progress: Progress) {
        let label = server_label_of(get_port_from_msg(msg));
        let server = label.as_str();
        let zone = self.zone.as_str();
        let family = family_of(msg);
        let proto = proto_of(msg);
        let kind = get_qtype_str(msg.raw_query.as_slice());
        record(
            metrics,
            Family::DnsRequests,
            &[family, proto, server, kind, "", zone],
            Amount::Inc,
        );
        assert(metrics::samples(metrics@).last().labels =~= seq![
            family@,
            proto@,
            server@,
            kind@,
            ""@,
            zone@,
        ]);
        let size: u64 = msg.raw_query.len() as u64;
        record(
            metrics,
            Family::DnsRequestSize,
            &[proto, server, "", zone],
            Amount::Observe(size),
        );
        assert(metrics::samples(metrics@).last().labels =~= seq![proto@, server@, ""@, zone@]);
        self.record_enabled(metrics, "cache", server);
        self.record_enabled(metrics, "errors", server);
        self.record_enabled(metrics, "forward", server);
        self.record_enabled(metrics, "log", server);
        self.record_enabled(metrics, "prometheus", server);
        assert(metrics::samples(metrics@) =~= metrics::samples(old(metrics)@)
            + self.query_samples(*old(msg)));
        msg.start_time = Some(now);
        Progress::Passed
    }

    fn post_process(
        &self,
        msg: &mut DnsMessage,
        _store: &mut CacheStore,
        now: u128,
        metrics: &mut Vec<Metric>,
    ) {
        let label = server_label_of(get_port_from_msg(msg));
        let server = label.as_str();
        let zone = self.zone.as_str();
        match msg.start_time {
            Some(start) => {
                let took: u128 = if now >= start {
                    now - start
                } else {
                    0
                };
                record(
                    metrics,
                    Family::DnsRequestDuration,
                    &[server, "", zone],
                    Amount::ObserveNanos(took),
                );
                assert(metrics::samples(metrics@).last().labels =~= seq![server@, ""@, zone@]);
            },
            None => {},
        }
        assert(metrics::samples(metrics@) =~= metrics::samples(old(metrics)@) + duration_samples(
            *old(msg),
            now,
            self.zone@,
        ));
        match &msg.raw_response {
            Some(resp) => {
                let size: u64 = resp.len() as u64;
                record(
                    metrics,
                    Family::DnsResponseSize,
                    &["udp", server, "", "."],
                    Amount::Observe(size),
                );
                assert(metrics::samples(metrics@).last().labels =~= seq![
                    "udp"@,
                    server@,
                    ""@,
                    "."@,
                ]);
                let rcode: u8 = resp[3] & 0x0f;
                let rcode_str = rcode_to_str(rcode);
                let by: &str = if msg.answered_by.as_str().is_empty() {
                    "unknown"
                } else {
                    msg.answered_by.as_str()
                };
                record(
                    metrics,
                    Family::DnsResponses,
                    &[by, rcode_str, server, "", "."],
                    Amount::Inc,
                );
                assert(metrics::samples(metrics@).last().labels =~= seq![
                    by@,
                    rcode_str@,
                    server@,
                    ""@,
                    "."@,
                ]);
            },
            None => {},
        }
        assert(metrics::samples(metrics@) =~= metrics::samples(old(metrics)@) + duration_samples(
            *old(msg),
            now,
            self.zone@,
        ) + answer_samples(*old(msg)));
    }
}

} // verus!
