//! Laws on the listeners, the run of a query and what is sent back.

use crate::config::ZoneConfig;
use crate::dns_server;
use crate::dns_server::{Event, Listener, Moment, Stage};
use crate::laws::plugins;
use crate::laws::texts;
use crate::laws::wires;
use crate::plugin::forward::Verdict;
use crate::plugin::{Pass, PluginInstance, Progress};
use crate::text;
use crate::types::{ClientAddr, DnsHeader, DnsMessage, HeaderFlags};
use vstd::prelude::*;

verus! {

/// What stands behind the last separator is the last part.
proof fn lemma_last_part(before: Seq<char>, sep: char, last: Seq<char>)
    requires
        !last.contains(sep),
    ensures
        text::split(before + seq![sep] + last, sep).len() > 0,
        text::split(before + seq![sep] + last, sep).last() == last,
    decreases before.len(),
{
    let s = before + seq![sep] + last;
    let stops = text::at_char(sep);
    let n = text::span(before, stops) as int;
    text::lemma_span_bounds(before, stops);
    if n >= before.len() {
        assert forall|c: char| before.contains(c) implies c != sep by {
            let k = choose|k: int| 0 <= k < before.len() && before[k] == c;
            assert(!stops(before[k]));
        }
        texts::law_split(before, sep, last);
        texts::law_split(last, sep, Seq::empty());
        assert((seq![before] + seq![last]).last() == last);
    } else {
        let head = before.take(n);
        let tail = before.skip(n + 1);
        assert forall|c: char| head.contains(c) implies c != sep by {
            let k = choose|k: int| 0 <= k < head.len() && head[k] == c;
            assert(!stops(before[k]));
        }
        let rest = tail + seq![sep] + last;
        assert(before[n] == sep);
        assert(s =~= head + seq![sep] + rest);
        texts::law_split(head, sep, rest);
        lemma_last_part(tail, sep, last);
        let parts = text::split(rest, sep);
        assert((seq![head] + parts).last() == parts.last());
    }
}

/// A zone is served at the interface of the default address, of which the port
/// does not matter, on the port behind the last colon of its name, or on 53
/// where its name has none.
pub proof fn law_where_a_zone_is_served(
    host: Seq<char>,
    other: Seq<char>,
    name: Seq<char>,
    port: Seq<char>,
)
    requires
        !host.contains(':'),
        !port.contains(':'),
    ensures
        dns_server::base_ip(host) == host,
        dns_server::base_ip(host + seq![':'] + other) == host,
        dns_server::zone_address(host, name + seq![':'] + port) == host + seq![':'] + port,
        dns_server::zone_address(host, port) == host + seq![':', '5', '3'],
{
    texts::law_split(host, ':', other);
    texts::law_last_colon(name, port);
    reveal_strlit(":");
    reveal_strlit("53");
    assert(":"@ =~= seq![':']);
    assert(host + ":"@ + "53"@ =~= host + seq![':', '5', '3']);
}

/// The port of a listener is the number behind the last colon of its address,
/// and 53 where that is no port.
pub proof fn law_ports(addr: Seq<char>, port: u16, other: Seq<char>)
    requires
        !other.contains(':'),
    ensures
        dns_server::port_of(addr + seq![':'] + text::decimal(port as nat)) == port,
        text::number_of(other, 65535) is None ==> dns_server::port_of(addr + seq![':'] + other)
            == 53,
{
    let d = text::decimal(port as nat);
    texts::law_number_is_read_back(port as nat, 65535);
    texts::law_decimal(port as nat, 0);
    assert forall|c: char| d.contains(c) implies c != ':' by {
        let k = choose|k: int| 0 <= k < d.len() && d[k] == c;
        assert('0' <= d[k] <= '9');
    }
    lemma_last_part(addr, ':', d);
    lemma_last_part(addr, ':', other);
}

/// Every zone has the address that its name and the interface say.
pub proof fn law_addresses_of_zones(base: Seq<char>, zones: Seq<ZoneConfig>, i: int)
    requires
        0 <= i < zones.len(),
    ensures
        dns_server::zone_addresses(base, zones).len() == zones.len(),
        dns_server::zone_addresses(base, zones)[i] == dns_server::zone_address(
            base,
            zones[i].name@,
        ),
{
}

/// There is one listener for each address, with exactly the zones on that
/// address behind it, in order; the one that answers is the first of them.
pub proof fn law_listeners(listeners: Seq<Listener>, addrs: Seq<Seq<char>>, k: int)
    requires
        dns_server::listeners_for(listeners, addrs),
        addrs.len() <= usize::MAX,
        0 <= k < listeners.len(),
    ensures
        listeners[k].port == dns_server::port_of(listeners[k].addr@),
        listeners[k].zones@.len() > 0,
        listeners[k].serving() < addrs.len(),
        addrs[listeners[k].serving() as int] == listeners[k].addr@,
        forall|i: int|
            0 <= i < addrs.len() ==> (#[trigger] addrs[i] == listeners[k].addr@
                <==> listeners[k].zones@.contains(i as usize)),
        forall|i: int|
            0 <= i < addrs.len() && #[trigger] addrs[i] == listeners[k].addr@
                ==> listeners[k].serving() <= i,
        forall|a: int, b: int|
            0 <= a < b < listeners[k].zones@.len() ==> listeners[k].zones@[a]
                < listeners[k].zones@[b],
        forall|j: int|
            0 <= j < listeners.len() && j != k ==> (#[trigger] listeners[j]).addr@
                != listeners[k].addr@,
{
    let addr = listeners[k].addr@;
    let zones = listeners[k].zones@;
    dns_server::lemma_distinct(addrs);
    dns_server::lemma_places(addrs, addr);
    dns_server::law_every_zone_has_one_listener(listeners, addrs);
    assert(zones == dns_server::places(addrs, addr));
    assert forall|i: int| 0 <= i < addrs.len() implies (#[trigger] addrs[i] == addr
        <==> zones.contains(i as usize)) by {
        if zones.contains(i as usize) {
            let j = choose|j: int| 0 <= j < zones.len() && zones[j] == i as usize;
            assert(addrs[zones[j] as int] == addr);
        }
    }
    assert(addrs[zones[0] as int] == addr);
    assert forall|i: int| 0 <= i < addrs.len() && #[trigger] addrs[i] == addr implies zones[0]
        <= i by {
        assert(zones.contains(i as usize));
        let j = choose|j: int| 0 <= j < zones.len() && zones[j] == i as usize;
        if j > 0 {
            assert(zones[0] < zones[j]);
        }
    }
    assert forall|j: int| 0 <= j < listeners.len() && j != k implies (
    #[trigger] listeners[j]).addr@ != addr by {
        if j < k {
            assert(listeners[j].addr@ != listeners[k].addr@);
        } else {
            assert(listeners[k].addr@ != listeners[j].addr@);
        }
    }
}

/// Every address has a listener.
pub proof fn law_every_address_has_a_listener(
    listeners: Seq<Listener>,
    addrs: Seq<Seq<char>>,
    i: int,
)
    requires
        dns_server::listeners_for(listeners, addrs),
        addrs.len() <= usize::MAX,
        0 <= i < addrs.len(),
    ensures
        exists|k: int|
            0 <= k < listeners.len() && (#[trigger] listeners[k]).addr@ == addrs[i],
{
    dns_server::law_every_zone_has_one_listener(listeners, addrs);
}

/// A query from a client becomes a message that holds it byte for byte, with
/// the identifier of its first two bytes where it has a whole header, and is
/// not answered yet.
pub proof fn law_received(
    msg: DnsMessage,
    query: Vec<u8>,
    client: ClientAddr,
    protocol: Seq<char>,
    port: u16,
)
    requires
        dns_server::received(msg, query, client, protocol, port),
    ensures
        msg.raw_query == query,
        query@.len() >= 12 ==> msg.header.id == query@[0] * 256 + query@[1],
        query@.len() < 12 ==> msg.header.id == 0,
        msg.raw_response is None,
        !msg.halt_chain,
        msg.client_addr == Some(client),
        msg.protocol@ == protocol,
        msg.server_port == Some(port),
        msg.start_time is None,
        msg.answered_by@.len() == 0,
        msg.header == (DnsHeader {
            id: msg.header.id,
            flags: HeaderFlags {
                qr: false,
                opcode: 0,
                aa: false,
                tc: false,
                rd: false,
                ra: false,
                rcode: 0,
            },
            question_count: 0,
            answer_count: 0,
            authority_count: 0,
            additional_count: 0,
        }),
{
}

/// Over UDP an answer of up to 1232 bytes is sent as it is; a longer one is cut
/// to that length and differs from its beginning only in the bit that marks it
/// as truncated, which is set.
pub proof fn law_datagrams(response: Seq<u8>)
    ensures
        response.len() <= 1232 ==> dns_server::datagram(response) == response,
        response.len() > 1232 ==> {
            &&& dns_server::datagram(response).len() == 1232
            &&& forall|i: int|
                0 <= i < 1232 && i != 2 ==> dns_server::datagram(response)[i] == response[i]
            &&& dns_server::datagram(response)[2] / 2 % 2 == 1
            &&& dns_server::datagram(response)[2] / 4 == response[2] / 4
            &&& dns_server::datagram(response)[2] % 2 == response[2] % 2
        },
{
    let b = response[2];
    assert((b | 0x02) / 2 % 2 == 1) by (bit_vector);
    assert((b | 0x02) / 4 == b / 4) by (bit_vector);
    assert((b | 0x02) % 2 == b % 2) by (bit_vector);
}

/// A message that is not halted is taken by the plugin in front of which it
/// is, and goes on as that says: to the next plugin, to a wait for a permit, or
/// to the first of the servers that are to be asked.
pub proof fn law_step_in(a: Moment, b: Moment, i: usize)
    requires
        a.leads_to(b),
        a.run.stage == Stage::Inbound(i),
        !a.run.msg.halt_chain,
        i < a.plugins.len(),
        a.plugins[i as int].accepts(a.run.msg),
    ensures
        exists|progress: Progress|
            {
                &&& #[trigger] a.plugins[i as int].processed(
                    b.plugins[i as int],
                    a.pass(b),
                    progress,
                )
                &&& match progress {
                    Progress::Passed => b.run.stage == Stage::Inbound((i + 1) as usize),
                    Progress::AwaitPermit => b.run.stage == Stage::Permit(i),
                    Progress::Ask(order) => if order@.len() > 0 {
                        b.run.stage == Stage::Exchange(i, 0) && b.run.order == order
                    } else {
                        b.run.stage == Stage::Inbound((i + 1) as usize)
                    },
                }
            },
        forall|j: int|
            0 <= j < a.plugins.len() && j != i ==> #[trigger] b.plugins[j] == a.plugins[j],
{
    assert(a.event is Step);
    let progress = choose|progress: Progress|
        {
            &&& #[trigger] a.plugins[i as int].processed(b.plugins[i as int], a.pass(b), progress)
            &&& a.run.goes_on(b.run, i, progress)
        };
    assert(a.plugins[i as int].processed(b.plugins[i as int], a.pass(b), progress));
}

/// Behind the last plugin, or halted, a message turns back to pass all plugins;
/// behind the last one on its way out it is done.
pub proof fn law_turns(a: Moment, b: Moment)
    requires
        a.leads_to(b),
        a.plugins.len() <= usize::MAX,
    ensures
        (a.run.stage matches Stage::Inbound(i) && (a.run.msg.halt_chain || i
            >= a.plugins.len())) ==> {
            &&& b.run.stage == Stage::Outbound(a.plugins.len() as usize)
            &&& b.run.msg == a.run.msg
        },
        a.run.stage == Stage::Outbound(0) ==> b.run.stage == Stage::Done && b.run.msg
            == a.run.msg,
{
}

/// On its way out a message is taken by the plugins one by one.
pub proof fn law_step_out(a: Moment, b: Moment, left: usize)
    requires
        a.leads_to(b),
        a.run.stage == Stage::Outbound(left),
        0 < left <= a.plugins.len(),
        a.plugins[left - 1].accepts_back(a.run.msg),
    ensures
        a.plugins[left - 1].post_processed(a.pass(b)),
        b.run.stage == Stage::Outbound((left - 1) as usize),
        b.plugins == a.plugins,
{
}

/// A query that waits for a permit goes on as the plugin says that forwards it:
/// refused, it goes to the next plugin; granted, the first server is asked.
pub proof fn law_permit_in_a_run(a: Moment, b: Moment, p: usize, granted: bool)
    requires
        a.leads_to(b),
        a.run.stage == Stage::Permit(p),
        a.event == Event::Permit(granted),
        p < a.plugins.len(),
        a.plugins[p as int] is Forward,
    ensures
        b.plugins[p as int] is Forward,
        forall|j: int|
            0 <= j < a.plugins.len() && j != p ==> #[trigger] b.plugins[j] == a.plugins[j],
        exists|progress: Progress|
            {
                &&& #[trigger] a.plugins[p as int]->Forward_0.permitted(
                    b.plugins[p as int]->Forward_0,
                    a.run.msg,
                    b.run.msg,
                    granted,
                    progress,
                    a.samples,
                    b.samples,
                )
                &&& match progress {
                    Progress::Ask(order) => if order@.len() > 0 {
                        b.run.stage == Stage::Exchange(p, 0) && b.run.order == order
                    } else {
                        b.run.stage == Stage::Inbound((p + 1) as usize)
                    },
                    Progress::Passed => b.run.stage == Stage::Inbound((p + 1) as usize),
                    Progress::AwaitPermit => b.run.stage == Stage::Permit(p),
                }
            },
        !granted ==> b.run.stage == Stage::Inbound((p + 1) as usize),
{
    let f = a.plugins[p as int]->Forward_0;
    let g = b.plugins[p as int]->Forward_0;
    assert(b.plugins[p as int] == PluginInstance::Forward(g));
    let progress = choose|progress: Progress|
        {
            &&& #[trigger] f.permitted(
                g,
                a.run.msg,
                b.run.msg,
                granted,
                progress,
                a.samples,
                b.samples,
            )
            &&& a.run.goes_on(b.run, p, progress)
        };
    assert(f.permitted(g, a.run.msg, b.run.msg, granted, progress, a.samples, b.samples));
}

/// Every plugin takes every message with a well-formed question on its way in,
/// and every message without an answer, or with one that holds a response code,
/// on its way out.
pub proof fn law_what_plugins_take(
    plugin: PluginInstance,
    msg: DnsMessage,
    header: Seq<u8>,
    labels: Seq<Seq<u8>>,
    kind: (u8, u8),
    class: (u8, u8),
    rest: Seq<u8>,
)
    requires
        header.len() == 12,
        wires::labels_fit(labels),
        msg.raw_query@ == wires::query(header, labels, kind, class, rest),
    ensures
        plugin.accepts(msg),
        (msg.raw_response matches Some(r) ==> r@.len() >= 4) ==> plugin.accepts_back(msg),
        !(plugin is Whoami) ==> forall|other: DnsMessage| #[trigger] plugin.accepts(other),
{
    wires::law_question_is_found(header, labels, kind, class, rest);
}

/// A query is put into the log where it passes the log plugin, on its way in
/// with its identifier, on its way out also with the code of its answer and the
/// time since it came; no other plugin puts it there.
pub proof fn law_log(run: dns_server::QueryRun, plugins: Seq<PluginInstance>, now: u128)
    requires
        run.fits(plugins),
        now >= run.started,
    ensures
        run.stage matches Stage::Inbound(i) ==> (run.reported(plugins, now) == if i < plugins.len()
            && plugins[i as int] is Log && !run.msg.halt_chain {
            Some("=> [Incoming Query] TxID: 0x"@ + plugins::four_digits(run.msg.header.id))
        } else {
            None
        }),
        run.stage matches Stage::Outbound(left) ==> (run.reported(plugins, now) == if left > 0
            && plugins[left - 1] is Log {
            Some(
                plugins::answer_report(
                    run.msg.header.id,
                    run.msg.raw_response,
                    (now - run.started) as u128,
                ),
            )
        } else {
            None
        }),
        !(run.stage is Inbound) && !(run.stage is Outbound) ==> run.reported(plugins, now) is None,
{
    plugins::law_log_lines(run.msg.header.id, run.msg.raw_response, (now - run.started) as u128);
}

/// A reply goes to the plugin that forwards the query, as one of the server
/// that was to be asked; the next server is asked or the next plugin takes the
/// message, as it says. Where a server cannot be asked the message stays as it
/// is. A reply too short for a response code ends the run.
pub proof fn law_exchange_in_a_run(a: Moment, b: Moment, p: usize, at: usize)
    requires
        a.leads_to(b),
        a.run.stage == Stage::Exchange(p, at),
        a.run.fits(a.plugins),
    ensures
        b.plugins == a.plugins,
        b.kept == a.kept,
        b.run.order == a.run.order,
        (a.event matches Event::Reply(reply, elapsed) && reply.len() >= 4) ==> {
            let reply = a.event->Reply_0;
            let elapsed = a.event->Reply_1;
            exists|verdict: Verdict|
                {
                    &&& #[trigger] a.plugins[p as int]->Forward_0.replied(
                        a.run.msg,
                        b.run.msg,
                        a.run.order@[at as int] as int,
                        reply,
                        elapsed,
                        verdict,
                        a.samples,
                        b.samples,
                    )
                    &&& verdict == Verdict::Answered ==> b.run.stage == Stage::Inbound(
                        (p + 1) as usize,
                    )
                    &&& verdict == Verdict::AskNext ==> b.run.stage == if at + 1
                        < a.run.order@.len() {
                        Stage::Exchange(p, (at + 1) as usize)
                    } else {
                        Stage::Inbound((p + 1) as usize)
                    }
                }
        },
        (a.event matches Event::Reply(reply, _) && reply.len() < 4) ==> b.run.stage
            == Stage::Dropped,
        a.event is Failure ==> {
            &&& b.run.msg == a.run.msg
            &&& b.run.stage == if at + 1 < a.run.order@.len() {
                Stage::Exchange(p, (at + 1) as usize)
            } else {
                Stage::Inbound((p + 1) as usize)
            }
            &&& b.samples.len() == a.samples.len() + 1
            &&& b.samples.drop_last() == a.samples
            &&& b.samples.last().labels[1] == "SERVFAIL"@
        },
{
    if a.event is Failure {
        assert(b.samples.drop_last() =~= a.samples);
    }
    if let Event::Reply(reply, elapsed) = a.event {
        if reply.len() >= 4 {
            let f = a.plugins[p as int]->Forward_0;
            let verdict = choose|verdict: Verdict|
                {
                    &&& #[trigger] f.replied(
                        a.run.msg,
                        b.run.msg,
                        a.run.order@[at as int] as int,
                        reply,
                        elapsed,
                        verdict,
                        a.samples,
                        b.samples,
                    )
                    &&& b.run.stage == match verdict {
                        Verdict::Answered => Stage::Inbound((p + 1) as usize),
                        Verdict::AskNext => a.run.after_server(p, at),
                    }
                };
            assert(f.replied(
                a.run.msg,
                b.run.msg,
                a.run.order@[at as int] as int,
                reply,
                elapsed,
                verdict,
                a.samples,
                b.samples,
            ));
        }
    }
}

/// The answer of a message is sent back once the run is through, whole, and
/// nothing before that or where the run was given up.
pub proof fn law_what_is_sent_back(run: dns_server::QueryRun)
    ensures
        run.stage is Done ==> (run.msg.raw_response matches Some(r) ==> run.sent_back() == Some(
            r@,
        )),
        run.stage is Done && run.msg.raw_response is None ==> run.sent_back() is None,
        !(run.stage is Done) ==> run.sent_back() is None,
{
}

/// The plugins that log, fold errors, watch the file, tell the health or do
/// nothing let every message pass as it is; on the way out no plugin changes
/// the message, and only the cache changes what is kept.
pub proof fn law_plugins_that_let_pass(
    plugin: PluginInstance,
    after: PluginInstance,
    pass: Pass,
    progress: Progress,
    back: Pass,
)
    requires
        plugin.processed(after, pass, progress),
        plugin.post_processed(back),
    ensures
        plugin is Log || plugin is Errors || plugin is Reload || plugin is Health
            || plugin is Dummy ==> {
            &&& progress is Passed
            &&& after == plugin
            &&& pass.msg_after == pass.msg
            &&& pass.kept_after == pass.kept
            &&& pass.samples_after == pass.samples
        },
        back.msg_after == back.msg,
        !(plugin is Cache) ==> back.kept_after == back.kept,
        !(plugin is Cache) && !(plugin is Prometheus) ==> back.samples_after == back.samples,
        !(plugin is Cache) ==> pass.kept_after == pass.kept,
        !(plugin is Forward) ==> progress is Passed && after == plugin,
{
}

} // verus!
