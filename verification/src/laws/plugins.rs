//! Laws on the plugins that measure, introduce, report and listen.

use crate::config::Directive;
use crate::laws::caching;
use crate::laws::reloading;
use crate::laws::texts;
use crate::laws::wires;
use crate::metrics::{Amount, Family, Sample};
use crate::outside;
use crate::plugin::health;
use crate::plugin::health::HealthPlugin;
use crate::plugin::log;
use crate::plugin::prometheus;
use crate::plugin::prometheus::PrometheusPlugin;
use crate::plugin::whoami::WhoamiPlugin;
use crate::plugin::{Pass, Plugin, Progress, Setting};
use crate::text;
use crate::types::{ClientIp, DnsMessage};
use vstd::prelude::*;

verus! {

/// An identifier in four hexadecimal digits.
pub open spec fn four_digits(id: u16) -> Seq<char> {
    seq![
        reloading::hex_digits()[id as int / 4096],
        reloading::hex_digits()[id as int / 256 % 16],
        reloading::hex_digits()[id as int / 16 % 16],
        reloading::hex_digits()[id as int % 16],
    ]
}

/// The line for an answer: the identifier, the code by name where the answer
/// holds one, and the time in milliseconds with three decimal places.
pub open spec fn answer_report(id: u16, response: Option<Vec<u8>>, nanos: u128) -> Seq<char> {
    let micros = nanos as int / 1000;
    "<= [Outgoing Answer] TxID: 0x"@ + four_digits(id) + " RCODE: "@ + (match response {
        Some(r) => if r@.len() >= 4 {
            prometheus::rcode_name((r@[3] % 16) as u8)
        } else {
            "NONE"@
        },
        None => "NONE"@,
    }) + " in "@ + (text::decimal((micros / 1000) as nat) + seq![
        '.',
        texts::numeral(micros / 100 % 10),
        texts::numeral(micros / 10 % 10),
        texts::numeral(micros % 10),
        'm',
        's',
    ])
}

/// Quotients and remainders by powers of sixteen.
proof fn lemma_sixteenths(n: int)
    requires
        0 <= n < 65536,
    ensures
        n / 256 / 16 == n / 4096,
        n % 256 / 16 == n / 16 % 16,
        n % 256 % 16 == n % 16,
        0 <= n / 4096 < 16,
{
}

/// Two bytes in hexadecimal digits.
proof fn lemma_identifier(id: u16)
    ensures
        outside::hex(seq![(id / 256) as u8, (id % 256) as u8]) == four_digits(id),
{
    let n = id as int;
    let h = outside::hex(seq![(id / 256) as u8, (id % 256) as u8]);
    lemma_sixteenths(n);
    reloading::lemma_hex_digit(n / 4096);
    reloading::lemma_hex_digit(n / 256 % 16);
    reloading::lemma_hex_digit(n / 16 % 16);
    reloading::lemma_hex_digit(n % 16);
    assert(h.len() == 4);
    assert(h[0] == outside::hex_digit(n / 256 / 16));
    assert(h[1] == outside::hex_digit(n / 256 % 16));
    assert(h[2] == outside::hex_digit(n % 256 / 16));
    assert(h[3] == outside::hex_digit(n % 256 % 16));
    assert(h =~= four_digits(id));
}

/// The digits of a number below a thousand.
proof fn lemma_thousandths(m: int)
    requires
        0 <= m,
    ensures
        m % 1000 / 100 == m / 100 % 10,
        m % 1000 / 10 % 10 == m / 10 % 10,
        m % 1000 % 10 == m % 10,
{
    let q = m / 1000;
    let r = m % 1000;
    assert(m / 100 == 10 * q + r / 100);
    assert(m / 10 == 100 * q + r / 10);
    assert(0 <= r / 100 < 10);
    assert((10 * q + r / 100) % 10 == r / 100);
    assert((100 * q + r / 10) % 10 == r / 10 % 10);
    assert((1000 * q + r) % 10 == r % 10);
}

/// A time in milliseconds with three decimal places.
proof fn lemma_millis(nanos: u128)
    ensures
        ({
            let micros = nanos as int / 1000;
            log::millis_text(nanos) == text::decimal((micros / 1000) as nat) + seq![
                '.',
                texts::numeral(micros / 100 % 10),
                texts::numeral(micros / 10 % 10),
                texts::numeral(micros % 10),
                'm',
                's',
            ]
        }),
{
    let micros = nanos as int / 1000;
    lemma_thousandths(micros);
    reveal_strlit(".");
    reveal_strlit("ms");
    assert(log::millis_text(nanos) =~= text::decimal((micros / 1000) as nat) + seq![
        '.',
        texts::numeral(micros / 100 % 10),
        texts::numeral(micros / 10 % 10),
        texts::numeral(micros % 10),
        'm',
        's',
    ]);
}

/// The lines with which queries and answers are reported.
pub proof fn law_log_lines(id: u16, response: Option<Vec<u8>>, nanos: u128)
    ensures
        log::query_line(id) == "=> [Incoming Query] TxID: 0x"@ + four_digits(id),
        log::answer_text(
            id,
            match response {
                Some(r) => Some(r@),
                None => None,
            },
            nanos,
        ) == answer_report(id, response, nanos),
{
    lemma_identifier(id);
    lemma_millis(nanos);
    if let Some(r) = response {
        wires::law_response_code(r@);
    }
}

/// The code of a response by name.
pub proof fn law_code_names(code: u8)
    ensures
        prometheus::rcode_name(code) == if code == 0 {
            "NOERROR"@
        } else if code == 1 {
            "FORMERR"@
        } else if code == 2 {
            "SERVFAIL"@
        } else if code == 3 {
            "NXDOMAIN"@
        } else if code == 4 {
            "NOTIMP"@
        } else if code == 5 {
            "REFUSED"@
        } else {
            "UNKNOWN"@
        },
{
}

/// The types of questions that have a name of their own, with that name.
pub open spec fn named_types() -> Seq<(u16, Seq<char>)> {
    seq![
        (1u16, "A"@),
        (2u16, "NS"@),
        (5u16, "CNAME"@),
        (6u16, "SOA"@),
        (12u16, "PTR"@),
        (15u16, "MX"@),
        (16u16, "TXT"@),
        (28u16, "AAAA"@),
        (33u16, "SRV"@),
        (255u16, "ANY"@),
    ]
}

/// The type of a question goes by its name, `OTHER` where it has none, and
/// `UNKNOWN` where there is no question to be read.
pub proof fn law_type_names(t: u16)
    ensures
        prometheus::qtype_name(None) == "UNKNOWN"@,
        forall|k: int|
            0 <= k < 10 ==> prometheus::qtype_name(Some((#[trigger] named_types()[k]).0))
                == named_types()[k].1,
        (forall|k: int| 0 <= k < 10 ==> (#[trigger] named_types()[k]).0 != t)
            ==> prometheus::qtype_name(Some(t)) == "OTHER"@,
{
    if forall|k: int| 0 <= k < 10 ==> (#[trigger] named_types()[k]).0 != t {
        assert(named_types()[0].0 != t);
        assert(named_types()[1].0 != t);
        assert(named_types()[2].0 != t);
        assert(named_types()[3].0 != t);
        assert(named_types()[4].0 != t);
        assert(named_types()[5].0 != t);
        assert(named_types()[6].0 != t);
        assert(named_types()[7].0 != t);
        assert(named_types()[8].0 != t);
        assert(named_types()[9].0 != t);
    }
}

/// The transport of a message as it is labelled.
pub open spec fn transport_label(msg: DnsMessage) -> Seq<char> {
    if msg.protocol@ == "tcp"@ {
        "tcp"@
    } else {
        "udp"@
    }
}

/// The plugins whose use is reported.
pub open spec fn watched_plugins() -> Seq<Seq<char>> {
    seq!["cache"@, "errors"@, "forward"@, "log"@, "prometheus"@]
}

/// A query is counted by family, transport, listener, type and zone, its size
/// is observed, and for each of the watched plugins it is said whether the zone
/// has it. Its start time is noted, and nothing else changes.
pub proof fn law_queries_are_measured(
    plugin: PrometheusPlugin,
    after: PrometheusPlugin,
    pass: Pass,
    progress: Progress,
    labels: Seq<Seq<u8>>,
    kind: (u8, u8),
    class: (u8, u8),
)
    requires
        plugin.processed(after, pass, progress),
        caching::puts(pass.msg, labels, kind, class),
    ensures
        ({
            let n = pass.samples.len() as int;
            let server = caching::listener_label(pass.msg);
            let proto = transport_label(pass.msg);
            let zone = plugin.zone@;
            &&& pass.samples_after.len() == n + 7
            &&& pass.samples_after.take(n) == pass.samples
            &&& pass.samples_after[n] == (Sample {
                family: Family::DnsRequests,
                labels: seq![
                    if pass.msg.client_addr is Some && pass.msg.client_addr->0.ip is V6 {
                        "2"@
                    } else {
                        "1"@
                    },
                    proto,
                    server,
                    prometheus::qtype_name(Some((kind.0 * 256 + kind.1) as u16)),
                    ""@,
                    zone,
                ],
                amount: Amount::Inc,
            })
            &&& pass.samples_after[n + 1] == (Sample {
                family: Family::DnsRequestSize,
                labels: seq![proto, server, ""@, zone],
                amount: Amount::Observe(pass.msg.raw_query@.len() as u64),
            })
            &&& forall|k: int|
                0 <= k < 5 ==> pass.samples_after[n + 2 + k] == (Sample {
                    family: Family::PluginEnabled,
                    labels: seq![#[trigger] watched_plugins()[k], server, ""@, zone],
                    amount: Amount::Level(
                        if zone_has(plugin, watched_plugins()[k]) {
                            1
                        } else {
                            0
                        },
                    ),
                })
        }),
        pass.msg_after == (DnsMessage { start_time: Some(pass.now), ..pass.msg }),
        pass.kept_after == pass.kept,
        after == plugin,
        progress is Passed,
{
    let (header, rest) = choose|header: Seq<u8>, rest: Seq<u8>|
        header.len() == 12 && pass.msg.raw_query@ == #[trigger] wires::query(
            header,
            labels,
            kind,
            class,
            rest,
        );
    wires::law_question_is_found(header, labels, kind, class, rest);
    let n = pass.samples.len() as int;
    assert(pass.samples_after.take(n) =~= pass.samples);
    assert forall|k: int| 0 <= k < 5 implies zone_has(plugin, #[trigger] watched_plugins()[k])
        == plugin.has(watched_plugins()[k]) by {
        if let Some(v) = plugin.plugins {
            let name = watched_plugins()[k];
            let all = text::texts(v@);
            if all.contains(name) {
                let j = choose|j: int| 0 <= j < all.len() && all[j] == name;
                assert(v@[j]@ == name);
            }
            if zone_has(plugin, name) {
                let j = choose|j: int| 0 <= j < v@.len() && (#[trigger] v@[j])@ == name;
                assert(all[j] == name);
            }
        }
    }
    let q = plugin.query_samples(pass.msg);
    assert forall|k: int| 0 <= k < 7 implies pass.samples_after[n + k] == #[trigger] q[k] by {}
    assert(pass.samples_after[n + 0] == q[0]);
    assert(pass.samples_after[n + 2] == q[2]);
    assert(pass.samples_after[n + 3] == q[3]);
    assert(pass.samples_after[n + 4] == q[4]);
    assert(pass.samples_after[n + 5] == q[5]);
    assert(pass.samples_after[n + 6] == q[6]);
    assert(zone_has(plugin, watched_plugins()[0]) == plugin.has(watched_plugins()[0]));
    assert(zone_has(plugin, watched_plugins()[1]) == plugin.has(watched_plugins()[1]));
    assert(zone_has(plugin, watched_plugins()[2]) == plugin.has(watched_plugins()[2]));
    assert(zone_has(plugin, watched_plugins()[3]) == plugin.has(watched_plugins()[3]));
    assert(zone_has(plugin, watched_plugins()[4]) == plugin.has(watched_plugins()[4]));
}

/// Whether the zone has a plugin, as far as its plugins are known.
pub open spec fn zone_has(plugin: PrometheusPlugin, name: Seq<char>) -> bool {
    plugin.plugins matches Some(v) ==> exists|j: int|
        0 <= j < v@.len() && (#[trigger] v@[j])@ == name
}

/// An answer is counted with who gave it and its code, and its size and the
/// time it took are observed; the message and the kept answers stay.
pub proof fn law_answers_are_measured(plugin: PrometheusPlugin, pass: Pass)
    requires
        plugin.post_processed(pass),
        pass.msg.start_time is Some,
        pass.msg.start_time->0 <= pass.now,
        pass.msg.raw_response is Some,
        pass.msg.raw_response->0@.len() >= 4,
    ensures
        ({
            let server = caching::listener_label(pass.msg);
            let r = pass.msg.raw_response->0@;
            pass.samples_after == pass.samples.push(
                Sample {
                    family: Family::DnsRequestDuration,
                    labels: seq![server, ""@, plugin.zone@],
                    amount: Amount::ObserveNanos((pass.now - pass.msg.start_time->0) as u128),
                },
            ).push(
                Sample {
                    family: Family::DnsResponseSize,
                    labels: seq!["udp"@, server, ""@, "."@],
                    amount: Amount::Observe(r.len() as u64),
                },
            ).push(
                Sample {
                    family: Family::DnsResponses,
                    labels: seq![
                        if pass.msg.answered_by@.len() == 0 {
                            "unknown"@
                        } else {
                            pass.msg.answered_by@
                        },
                        prometheus::rcode_name((r[3] % 16) as u8),
                        server,
                        ""@,
                        "."@,
                    ],
                    amount: Amount::Inc,
                },
            )
        }),
        pass.msg_after == pass.msg,
        pass.kept_after == pass.kept,
{
    let r = pass.msg.raw_response->0@;
    wires::law_response_code(r);
    let server = caching::listener_label(pass.msg);
    assert(crate::metrics::server_label(pass.msg.port()) == server);
    let all = pass.samples.push(
        Sample {
            family: Family::DnsRequestDuration,
            labels: seq![server, ""@, plugin.zone@],
            amount: Amount::ObserveNanos((pass.now - pass.msg.start_time->0) as u128),
        },
    ).push(
        Sample {
            family: Family::DnsResponseSize,
            labels: seq!["udp"@, server, ""@, "."@],
            amount: Amount::Observe(r.len() as u64),
        },
    ).push(
        Sample {
            family: Family::DnsResponses,
            labels: seq![
                if pass.msg.answered_by@.len() == 0 {
                    "unknown"@
                } else {
                    pass.msg.answered_by@
                },
                prometheus::rcode_name((r[3] % 16) as u8),
                server,
                ""@,
                "."@,
            ],
            amount: Amount::Inc,
        },
    );
    assert(pass.samples_after =~= all);
}

/// A message that was not answered gives no measurement of an answer, and one
/// whose start was not noted none of its time.
pub proof fn law_unanswered_messages(plugin: PrometheusPlugin, pass: Pass)
    requires
        plugin.post_processed(pass),
        pass.msg.raw_response is None,
        pass.msg.start_time is None,
    ensures
        pass.samples_after == pass.samples,
        pass.msg_after == pass.msg,
{
    assert(pass.samples_after =~= pass.samples);
}

/// The zone is labelled with its name, without the port behind the last colon.
pub proof fn law_measuring_is_configured(
    plugin: PrometheusPlugin,
    d: Directive,
    shared: Setting,
    name: Seq<char>,
    port: Seq<char>,
)
    requires
        plugin.configured(d, shared),
        !port.contains(':'),
    ensures
        (shared.zone matches Some(z) && z.name == name + seq![':'] + port) ==> plugin.zone@
            == name,
        (shared.zone matches Some(z) && z.name == port) ==> plugin.zone@ == port,
        shared.zone matches Some(z) ==> {
            &&& plugin.plugins matches Some(v)
            &&& v@.len() == z.plugins.len()
            &&& forall|k: int| 0 <= k < v@.len() ==> (#[trigger] v@[k])@ == z.plugins[k]
        },
{
    texts::law_last_colon(name, port);
    if let Some(z) = shared.zone {
        let v = plugin.plugins->0;
        assert(text::texts(v@).len() == v@.len());
        assert forall|k: int| 0 <= k < v@.len() implies (#[trigger] v@[k])@ == z.plugins[k] by {
            assert(text::texts(v@)[k] == v@[k]@);
        }
    }
}

/// A listener for requests is bound on all interfaces, to the port of the first
/// argument, with or without a colon in front, or to the usual port.
pub proof fn law_listening(port: Seq<char>, more: Seq<Seq<char>>, usual: Seq<char>)
    requires
        !port.contains(':'),
    ensures
        health::listen_on(seq![port] + more, usual) == "0.0.0.0"@ + seq![':'] + port,
        health::listen_on(seq![seq![':'] + port] + more, usual) == "0.0.0.0"@ + seq![':'] + port,
        health::listen_on(Seq::empty(), seq![':'] + port) == "0.0.0.0"@ + seq![':'] + port,
{
    reveal_strlit(":");
    assert(":"@ =~= seq![':']);
    assert((seq![':'] + port)[0] == ':');
    assert((seq![':'] + port).contains(':'));
    assert((seq![port] + more)[0] == port);
    assert((seq![seq![':'] + port] + more)[0] == seq![':'] + port);
    assert("0.0.0.0"@ + (seq![':'] + port) =~= "0.0.0.0"@ + seq![':'] + port);
}

/// The usual ports of the listeners are 8080 and 9153.
pub proof fn law_usual_ports(
    health_plugin: HealthPlugin,
    measuring: PrometheusPlugin,
    d: Directive,
    shared: Setting,
)
    requires
        health_plugin.configured(d, shared),
        measuring.configured(d, shared),
    ensures
        d.args.len() == 0 ==> health_plugin.addr@ == "0.0.0.0:8080"@,
        d.args.len() == 0 ==> measuring.addr@ == "0.0.0.0:9153"@,
        d.args.len() > 0 ==> health_plugin.addr@ == measuring.addr@,
{
    reveal_strlit(":8080");
    reveal_strlit(":9153");
    reveal_strlit("0.0.0.0");
    reveal_strlit("0.0.0.0:8080");
    reveal_strlit("0.0.0.0:9153");
    assert(":8080"@[0] == ':' && ":9153"@[0] == ':');
    assert(":8080"@.contains(':') && ":9153"@.contains(':'));
    assert("0.0.0.0:8080"@ =~= "0.0.0.0"@ + ":8080"@);
    assert("0.0.0.0:9153"@ =~= "0.0.0.0"@ + ":9153"@);
}

/// A scraper gets the measurements whole, behind a header that says how many
/// bytes they are; only what begins with `GET` and a space is such a request.
pub proof fn law_scrapes(n: int, buf: Seq<u8>, body: Seq<u8>)
    ensures
        prometheus::is_get(n, buf) <==> n > 0 && buf.len() >= 4 && buf[0] == 71 && buf[1] == 69
            && buf[2] == 84 && buf[3] == 32,
        prometheus::scrape_answer(body) == vstd::utf8::encode_utf8(
            "HTTP/1.1 200 OK\r\nContent-Type: text/plain; version=0.0.4\r\nContent-Length: "@ + (
            text::decimal(body.len()) + "\r\nConnection: close\r\n\r\n"@),
        ) + body,
{
    let get = seq![0x47u8, 0x45, 0x54, 0x20];
    if n > 0 && buf.len() >= 4 && buf[0] == 71 && buf[1] == 69 && buf[2] == 84 && buf[3] == 32 {
        assert(buf.subrange(0, 4) =~= get);
    }
    if prometheus::is_get(n, buf) {
        assert(buf.subrange(0, 4)[0] == get[0]);
        assert(buf.subrange(0, 4)[1] == get[1]);
        assert(buf.subrange(0, 4)[2] == get[2]);
        assert(buf.subrange(0, 4)[3] == get[3]);
    }
    let h = "HTTP/1.1 200 OK\r\nContent-Type: text/plain; version=0.0.4\r\nContent-Length: "@;
    let t = "\r\nConnection: close\r\n\r\n"@;
    assert(h + text::decimal(body.len()) + t =~= h + (text::decimal(body.len()) + t));
}

/// The bytes of a record behind a reference to the name in question: its type,
/// class IN, no time to live, the length of its data and the data.
pub open spec fn record(kind: u8, data: Seq<u8>) -> Seq<u8> {
    seq![0xc0u8, 0x0c, 0, kind, 0, 1, 0, 0, 0, 0, 0, data.len() as u8] + data
}

/// The data of the record with the address of a client.
pub open spec fn address_data(ip: ClientIp) -> Seq<u8> {
    match ip {
        ClientIp::V4(octets) => octets@,
        ClientIp::V6(octets) => octets@,
    }
}

/// A client that asks for an address learns its own: the answer keeps the
/// identifier and the question, announces one question and two further
/// records, and holds an address record with the address of the client and a
/// service record below the transport with its port. Any other question, and
/// any client that is not known, is left to the other plugins.
pub proof fn law_clients_learn_their_address(
    plugin: WhoamiPlugin,
    after: WhoamiPlugin,
    pass: Pass,
    progress: Progress,
    labels: Seq<Seq<u8>>,
    kind: (u8, u8),
    class: (u8, u8),
)
    requires
        plugin.processed(after, pass, progress),
        caching::puts(pass.msg, labels, kind, class),
    ensures
        ({
            let q = pass.msg.raw_query@;
            let wanted = kind == (0u8, 1u8) || kind == (0u8, 28u8);
            if !pass.msg.halt_chain && pass.msg.client_addr is Some && wanted {
                let client = pass.msg.client_addr->0;
                let v6 = client.ip is V6;
                let transport = if pass.msg.protocol@ == "tcp"@ {
                    seq![4u8, 95, 116, 99, 112]
                } else {
                    seq![4u8, 95, 117, 100, 112]
                };
                let port = seq![(client.port / 256) as u8, (client.port % 256) as u8];
                &&& pass.msg_after.raw_response matches Some(r)
                &&& r@ == seq![q[0], q[1], 0x81u8, 0x80, 0, 1, 0, 0, 0, 0, 0, 2]
                    + wires::question(labels, kind, class) + record(
                    if v6 {
                        28
                    } else {
                        1
                    },
                    address_data(client.ip),
                ) + (transport + record(33, seq![0u8, 0, 0, 0] + port + seq![0u8]))
                &&& pass.msg_after.halt_chain
                &&& pass.msg_after.answered_by@ == pass.msg.answered_by@
                &&& pass.msg_after.raw_query == pass.msg.raw_query
            } else {
                pass.msg_after == pass.msg
            }
        }),
        pass.kept_after == pass.kept,
        pass.samples_after == pass.samples,
        progress is Passed,
{
    let (header, rest) = choose|header: Seq<u8>, rest: Seq<u8>|
        header.len() == 12 && pass.msg.raw_query@ == #[trigger] wires::query(
            header,
            labels,
            kind,
            class,
            rest,
        );
    wires::law_question_is_found(header, labels, kind, class, rest);
    let q = pass.msg.raw_query@;
    assert((kind.0 * 256 + kind.1) as u16 == 1 <==> kind == (0u8, 1u8));
    assert((kind.0 * 256 + kind.1) as u16 == 28 <==> kind == (0u8, 28u8));
    if let Some(client) = pass.msg.client_addr {
        let tcp = pass.msg.protocol@ == "tcp"@;
        let port = seq![(client.port / 256) as u8, (client.port % 256) as u8];
        let transport = if tcp {
            seq![4u8, 95, 116, 99, 112]
        } else {
            seq![4u8, 95, 117, 100, 112]
        };
        let address = record(
            if client.ip is V6 {
                28
            } else {
                1
            },
            address_data(client.ip),
        );
        let service = transport + record(33, seq![0u8, 0, 0, 0] + port + seq![0u8]);
        assert(crate::plugin::whoami::address_record(client.ip) =~= address);
        assert(crate::plugin::whoami::service_record(client.port, tcp) =~= service);
        assert(crate::plugin::whoami::introduction(q, client, tcp) =~= seq![
            q[0],
            q[1],
            0x81u8,
            0x80,
            0,
            1,
            0,
            0,
            0,
            0,
            0,
            2,
        ] + wires::question(labels, kind, class) + address + service);
    }
}

} // verus!
