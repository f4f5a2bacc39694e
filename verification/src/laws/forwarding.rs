//! Laws on forwarding: which servers there are, who is asked and in what order,
//! what becomes of replies, and the health of the servers.

use crate::config::Directive;
use crate::duration;
use crate::laws::texts;
use crate::laws::wires;
use crate::metrics::{Amount, Family, Sample};
use crate::outside;
use crate::plugin::forward;
use crate::plugin::forward::{
    ForwardOptions, ForwardPlugin, IdleConnection, Policy, Transport, Upstream, UpstreamText,
    Verdict,
};
use crate::plugin::prometheus;
use crate::plugin::{Pass, Plugin, Progress, Setting};
use crate::text;
use crate::types::DnsMessage;
use crate::wire;
use vstd::prelude::*;

verus! {

/// Whether no server of a plugin is healthy.
pub open spec fn all_down(plugin: ForwardPlugin) -> bool {
    forall|i: int|
        0 <= i < plugin.upstreams@.len() ==> !(#[trigger] plugin.upstreams@[i]).is_healthy
}

/// The health of the servers as their list shows it.
proof fn lemma_down(plugin: ForwardPlugin)
    ensures
        forward::healthy(plugin.servers()).len() == 0 <==> all_down(plugin),
        forward::none_healthy(plugin.servers()) <==> all_down(plugin),
{
    let servers = plugin.servers();
    assert(plugin.upstreams.len() == servers.len());
    assert forall|i: int| 0 <= i < servers.len() implies (#[trigger] servers[i]).is_healthy
        == plugin.upstreams@[i].is_healthy by {}
    forward::law_candidates(servers);
    lemma_healthy_len(servers);
    if all_down(plugin) {
        assert forall|k: int| 0 <= k < servers.len() implies !(
        #[trigger] servers[k]).is_healthy by {
            assert(!plugin.upstreams@[k].is_healthy);
        }
    }
    if forward::none_healthy(servers) {
        assert forall|i: int| 0 <= i < plugin.upstreams@.len() implies !(
        #[trigger] plugin.upstreams@[i]).is_healthy by {
            assert(!servers[i].is_healthy);
        }
    }
}

/// There are healthy servers exactly if one is listed.
proof fn lemma_healthy_len(servers: Seq<UpstreamText>)
    ensures
        forward::healthy(servers).len() == 0 <==> forward::none_healthy(servers),
    decreases servers.len(),
{
    if servers.len() > 0 {
        let front = servers.drop_last();
        lemma_healthy_len(front);
        assert(servers[servers.len() - 1] == servers.last());
        if forward::none_healthy(front) && !servers.last().is_healthy {
            assert forall|k: int| 0 <= k < servers.len() implies !(
            #[trigger] servers[k]).is_healthy by {
                if k < front.len() {
                    assert(!front[k].is_healthy);
                }
            }
        }
        if forward::none_healthy(servers) {
            assert forall|k: int| 0 <= k < front.len() implies !(#[trigger] front[k]).is_healthy by {
                assert(!servers[k].is_healthy);
            }
        }
    }
}

/// Whatever the policy: exactly the healthy servers are asked, or all of them
/// where none is healthy, each once, and the message stays as it is. Where none
/// is healthy and that is to fail at once, nobody is asked.
pub proof fn law_who_is_asked(
    plugin: ForwardPlugin,
    after: ForwardPlugin,
    msg: DnsMessage,
    msg_after: DnsMessage,
    progress: Progress,
)
    requires
        plugin.dispatched(after, msg, msg_after, progress),
    ensures
        all_down(plugin) && plugin.failfast ==> progress is Passed,
        !(all_down(plugin) && plugin.failfast) ==> {
            &&& msg_after == msg
            &&& progress matches Progress::Ask(order)
            &&& order@.no_duplicates()
            &&& forall|k: int|
                0 <= k < order@.len() ==> (#[trigger] order@[k]) < plugin.upstreams@.len()
            &&& forall|i: usize|
                i < plugin.upstreams@.len() ==> (#[trigger] order@.contains(i) <==> (
                plugin.upstreams@[i as int].is_healthy || all_down(plugin)))
        },
        after.upstreams == plugin.upstreams,
{
    let servers = plugin.servers();
    let chosen = forward::candidates(servers);
    assert(plugin.upstreams.len() == servers.len());
    lemma_down(plugin);
    forward::law_candidates(servers);
    if let Progress::Ask(order) = progress {
        forward::law_order_is_a_permutation(plugin.policy, plugin.rr_counter, chosen, order@);
        forward::law_only_known_servers_are_asked(plugin, after, msg, msg_after, progress);
        order@.to_multiset_ensures();
        chosen.to_multiset_ensures();
        assert(chosen.no_duplicates());
        chosen.lemma_multiset_has_no_duplicates();
        assert(order@.no_duplicates()) by {
            order@.lemma_multiset_has_no_duplicates_conv();
        }
        assert forall|i: usize| i < plugin.upstreams@.len() implies (
        #[trigger] order@.contains(i) <==> (plugin.upstreams@[i as int].is_healthy || all_down(
            plugin,
        ))) by {
            assert(order@.to_multiset().count(i) == chosen.to_multiset().count(i));
            assert(servers[i as int].is_healthy == plugin.upstreams@[i as int].is_healthy);
            assert(chosen.contains(i) <==> servers[i as int].is_healthy
                || forward::none_healthy(servers));
        }
    }
}

/// Under the sequential policy the servers are asked in the order in which they
/// are configured: their numbers ascend, so the first one asked is the healthy
/// one with the lowest number.
pub proof fn law_sequential_order(
    plugin: ForwardPlugin,
    after: ForwardPlugin,
    msg: DnsMessage,
    msg_after: DnsMessage,
    order: Vec<usize>,
)
    requires
        plugin.dispatched(after, msg, msg_after, Progress::Ask(order)),
        plugin.policy == Policy::Sequential,
    ensures
        forall|j: int, k: int| 0 <= j < k < order@.len() ==> order@[j] < order@[k],
        forall|i: int|
            0 <= i < plugin.upstreams@.len() && (#[trigger] plugin.upstreams@[i]).is_healthy
                ==> order@.len() > 0 && order@[0] <= i,
        after == plugin,
{
    let servers = plugin.servers();
    assert(plugin.upstreams.len() == servers.len());
    forward::law_candidates(servers);
    law_who_is_asked(plugin, after, msg, msg_after, Progress::Ask(order));
    assert forall|i: int|
        0 <= i < plugin.upstreams@.len() && (
        #[trigger] plugin.upstreams@[i]).is_healthy implies order@.len() > 0 && order@[0] <= i by {
        assert(order@.contains(i as usize));
        let k = choose|k: int| 0 <= k < order@.len() && order@[k] == i as usize;
        if k > 0 {
            assert(order@[0] < order@[k]);
        }
    }
}

/// Under the round-robin policy the servers are asked in the configured order,
/// begun at a later one: as many further on as queries have been handed out,
/// counted round and round. Each query counts one more.
pub proof fn law_round_robin_order(
    plugin: ForwardPlugin,
    after: ForwardPlugin,
    msg: DnsMessage,
    msg_after: DnsMessage,
    order: Vec<usize>,
)
    requires
        plugin.dispatched(after, msg, msg_after, Progress::Ask(order)),
        plugin.policy == Policy::RoundRobin,
        plugin.upstreams@.len() > 0,
    ensures
        order@.len() > 0,
        ({
            let m = order@.len() as int;
            let turned = m - plugin.rr_counter as int % m;
            let back = order@.skip(turned) + order@.take(turned);
            forall|j: int, k: int| 0 <= j < k < m ==> back[j] < back[k]
        }),
        plugin.rr_counter < usize::MAX ==> after.rr_counter == plugin.rr_counter + 1,
        plugin.rr_counter == usize::MAX ==> after.rr_counter == 0,
        after.upstreams == plugin.upstreams,
        after.policy == plugin.policy,
{
    let servers = plugin.servers();
    let chosen = forward::candidates(servers);
    let m = chosen.len() as int;
    assert(plugin.upstreams.len() == servers.len());
    forward::law_candidates(servers);
    forward::law_order_is_a_permutation(plugin.policy, plugin.rr_counter, chosen, order@);
    let n = plugin.rr_counter as int % m;
    assert(0 <= n < m);
    let turned = m - n;
    assert(order@ == chosen.skip(n) + chosen.take(n));
    assert(order@.skip(turned) + order@.take(turned) =~= chosen);
}

/// Under the random policy the plugin keeps no count.
pub proof fn law_random_order(
    plugin: ForwardPlugin,
    after: ForwardPlugin,
    msg: DnsMessage,
    msg_after: DnsMessage,
    progress: Progress,
)
    requires
        plugin.dispatched(after, msg, msg_after, progress),
        plugin.policy != Policy::RoundRobin,
    ensures
        after == plugin,
{
}

/// Whether a message is a query for a name, told label by label.
pub open spec fn asks_for(msg: DnsMessage, labels: Seq<Seq<u8>>) -> bool {
    &&& wires::labels_fit(labels)
    &&& exists|header: Seq<u8>, kind: (u8, u8), class: (u8, u8), rest: Seq<u8>|
        header.len() == 12 && msg.raw_query@ == #[trigger] wires::query(
            header,
            labels,
            kind,
            class,
            rest,
        )
}

/// A name as it is shown: those of its labels that are text, with dots between
/// them, or a single dot.
pub open spec fn dotted(labels: Seq<Seq<u8>>) -> Seq<char> {
    if wires::label_texts(labels).len() == 0 {
        seq!['.']
    } else {
        text::joined(wires::label_texts(labels), seq!['.'])
    }
}

/// A query is forwarded unless it is halted already, there are no servers, or
/// its name ends in one of the excepted texts. Where the number of queries is
/// limited it waits for a permit, else servers are asked, or it fails at once.
pub proof fn law_which_queries_are_forwarded(
    plugin: ForwardPlugin,
    after: ForwardPlugin,
    pass: Pass,
    progress: Progress,
    labels: Seq<Seq<u8>>,
)
    requires
        plugin.processed(after, pass, progress),
        asks_for(pass.msg, labels),
    ensures
        ({
            let excepted = exists|k: int|
                0 <= k < plugin.except_domains@.len() && (
                #[trigger] plugin.except_domains@[k]@).is_suffix_of(dotted(labels));
            if pass.msg.halt_chain || plugin.upstreams@.len() == 0 || excepted {
                progress is Passed && pass.msg_after == pass.msg && after == plugin
            } else if plugin.max_concurrent is Some {
                progress is AwaitPermit && pass.msg_after == pass.msg && after == plugin
            } else {
                &&& plugin.dispatched(after, pass.msg, pass.msg_after, progress)
                &&& progress is Ask || (all_down(plugin) && plugin.failfast)
            }
        }),
        pass.kept_after == pass.kept,
        pass.samples_after == pass.samples,
{
    let (header, kind, class, rest) = choose|
        header: Seq<u8>,
        kind: (u8, u8),
        class: (u8, u8),
        rest: Seq<u8>,
    |
        header.len() == 12 && pass.msg.raw_query@ == #[trigger] wires::query(
            header,
            labels,
            kind,
            class,
            rest,
        );
    wires::law_name_is_read(header, labels, kind, class, rest);
    let name = forward::shown_name(pass.msg.raw_query@);
    let domains = text::texts(plugin.except_domains@);
    assert(name == dotted(labels));
    assert(pass.msg.raw_query@.len() > 0);
    if forward::excepted(domains, name) {
        let k = choose|k: int| 0 <= k < domains.len() && (#[trigger] domains[k]).is_suffix_of(name);
        assert(plugin.except_domains@[k]@.is_suffix_of(dotted(labels)));
    }
    if exists|k: int|
        0 <= k < plugin.except_domains@.len() && (
        #[trigger] plugin.except_domains@[k]@).is_suffix_of(dotted(labels)) {
        let k = choose|k: int|
            0 <= k < plugin.except_domains@.len() && (
            #[trigger] plugin.except_domains@[k]@).is_suffix_of(dotted(labels));
        assert(domains[k] == plugin.except_domains@[k]@);
    }
    if plugin.takes(pass.msg) && plugin.max_concurrent is None {
        law_who_is_asked(plugin, after, pass.msg, pass.msg_after, progress);
    }
}

/// Whether a message was answered by the plugin itself, with nothing but a
/// response code: the query comes back, marked as a response, with the code
/// where it had none; the chain halts.
pub open spec fn answered_with_code(msg: DnsMessage, after: DnsMessage, code: int) -> bool {
    let q = msg.raw_query@;
    &&& after.raw_response matches Some(r)
    &&& r@.len() == q.len()
    &&& forall|i: int| 0 <= i < q.len() && i != 2 && i != 3 ==> r@[i] == q[i]
    &&& q.len() >= 4 ==> {
        &&& r@[2] >= 128
        &&& r@[2] % 128 == q[2] % 128
        &&& r@[3] / 16 == q[3] / 16
        &&& q[3] % 16 == 0 ==> r@[3] % 16 == code
    }
    &&& q.len() < 4 ==> r@ == q
    &&& after.halt_chain
    &&& after.answered_by@ == "forward"@
    &&& after.raw_query == msg.raw_query
    &&& after.header == msg.header
}

/// What the answer with nothing but a code looks like.
proof fn lemma_code_answer(msg: DnsMessage, after: DnsMessage, code: u8)
    requires
        code < 16,
        msg.answered(after, forward::error_response(msg.raw_query@, code), "forward"@, true),
    ensures
        answered_with_code(msg, after, code as int),
{
    let q = msg.raw_query@;
    if q.len() >= 4 {
        let a = q[2];
        let b = q[3];
        assert((a | 0x80) >= 128 && (a | 0x80) % 128 == a % 128) by (bit_vector);
        assert(code < 16 ==> (b | (code & 0x0f)) / 16 == b / 16) by (bit_vector);
        assert(code < 16 && b % 16 == 0 ==> (b | (code & 0x0f)) % 16 == code) by (bit_vector);
    }
}

/// A query for which there is no permit is refused; one with a permit goes on
/// as if there were no limit.
pub proof fn law_permits(
    plugin: ForwardPlugin,
    after: ForwardPlugin,
    msg: DnsMessage,
    msg_after: DnsMessage,
    granted: bool,
    progress: Progress,
    samples: Seq<Sample>,
    samples_after: Seq<Sample>,
)
    requires
        plugin.permitted(after, msg, msg_after, granted, progress, samples, samples_after),
    ensures
        granted ==> plugin.dispatched(after, msg, msg_after, progress) && samples_after == samples,
        !granted ==> {
            &&& progress is Passed
            &&& after == plugin
            &&& answered_with_code(msg, msg_after, 5)
            &&& samples_after == samples.push(
                Sample {
                    family: Family::ForwardMaxConcurrentRejects,
                    labels: Seq::empty(),
                    amount: Amount::Inc,
                },
            )
        },
{
    if !granted {
        lemma_code_answer(msg, msg_after, 5);
    }
}

/// While no server is healthy and that is to fail at once, a query is answered
/// with a server failure.
pub proof fn law_fail_fast(
    plugin: ForwardPlugin,
    after: ForwardPlugin,
    msg: DnsMessage,
    msg_after: DnsMessage,
    progress: Progress,
)
    requires
        plugin.dispatched(after, msg, msg_after, progress),
        all_down(plugin),
        plugin.failfast,
    ensures
        progress is Passed,
        after == plugin,
        answered_with_code(msg, msg_after, 2),
{
    lemma_down(plugin);
    lemma_code_answer(msg, msg_after, 2);
}

/// A reply becomes the answer unless its code is one for which the next server
/// is asked; then the chain halts unless the code is one with which the message
/// goes on. The time of the exchange is measured with the code and the address.
pub proof fn law_replies(
    plugin: ForwardPlugin,
    msg: DnsMessage,
    msg_after: DnsMessage,
    idx: int,
    reply: Seq<u8>,
    elapsed: u128,
    verdict: Verdict,
    samples: Seq<Sample>,
    samples_after: Seq<Sample>,
)
    requires
        plugin.replied(msg, msg_after, idx, reply, elapsed, verdict, samples, samples_after),
        reply.len() >= 4,
        0 <= idx < plugin.upstreams@.len(),
    ensures
        ({
            let code = (reply[3] % 16) as u8;
            if plugin.failover_rcodes@.contains(code) {
                verdict == Verdict::AskNext && msg_after == msg
            } else {
                &&& verdict == Verdict::Answered
                &&& msg_after.raw_response matches Some(r)
                &&& r@ == reply
                &&& msg_after.halt_chain == !plugin.next_rcodes@.contains(code)
                &&& msg_after.answered_by@ == "forward"@
                &&& msg_after.raw_query == msg.raw_query
                &&& msg_after.header == msg.header
                &&& msg_after.client_addr == msg.client_addr
                &&& msg_after.protocol == msg.protocol
                &&& msg_after.server_port == msg.server_port
                &&& msg_after.start_time == msg.start_time
            }
        }),
        samples_after == samples.push(
            Sample {
                family: Family::ProxyRequestDuration,
                labels: seq![
                    "forward"@,
                    prometheus::rcode_name((reply[3] % 16) as u8),
                    plugin.upstreams@[idx].ip@ + seq![':'] + text::decimal(
                        plugin.upstreams@[idx].port as nat,
                    ),
                ],
                amount: Amount::ObserveNanos(elapsed),
            },
        ),
{
    wires::law_response_code(reply);
    law_addresses(plugin.upstreams@[idx]@);
}

/// The address of a server is its name, a colon and its port.
pub proof fn law_addresses(up: UpstreamText)
    ensures
        forward::address(up) == up.ip + seq![':'] + text::decimal(up.port as nat),
{
    reveal_strlit(":");
    assert(":"@ =~= seq![':']);
}

/// How a server is asked: over TLS where it was named so, else over TCP where
/// that is forced, else over UDP.
pub proof fn law_transports(plugin: ForwardPlugin, up: UpstreamText)
    ensures
        plugin.transport_to(up) == Transport::Tls <==> up.is_tls,
        plugin.transport_to(up) == Transport::Tcp <==> !up.is_tls && plugin.force_tcp,
        plugin.transport_to(up) == Transport::Udp <==> !up.is_tls && !plugin.force_tcp,
{
}

/// A connection is counted as reused or new, by transport and address; over
/// UDP none is reused.
pub proof fn law_connections(transport: Transport, reused: bool, addr: Seq<char>)
    ensures
        forward::connection_sample(transport, reused, addr) == (Sample {
            family: if reused && (transport == Transport::Tcp || transport == Transport::Tls) {
                Family::ProxyConnCacheHits
            } else {
                Family::ProxyConnCacheMisses
            },
            labels: seq![
                if transport == Transport::Tls {
                    "tcp-tls"@
                } else if transport == Transport::Tcp {
                    "tcp"@
                } else {
                    "udp"@
                },
                "forward"@,
                addr,
            ],
            amount: Amount::Inc,
        }),
{
}

/// A failed exchange is measured as a server failure and reported with the
/// address, the name and the reason.
pub proof fn law_failures(addr: Seq<char>, name: Seq<char>, error: Seq<char>, elapsed: u128)
    ensures
        forward::failure_report(addr, name, error) == "Failed to connect to "@ + (addr
            + " for '"@ + (name + "': "@ + error)),
        forward::exchange_sample("SERVFAIL"@, addr, elapsed) == (Sample {
            family: Family::ProxyRequestDuration,
            labels: seq!["forward"@, "SERVFAIL"@, addr],
            amount: Amount::ObserveNanos(elapsed),
        }),
{
    assert(forward::failure_report(addr, name, error) =~= "Failed to connect to "@ + (addr
        + " for '"@ + (name + "': "@ + error)));
}

/// A health check, whatever its outcome, changes nothing of a server but its
/// health and its count of failures.
pub proof fn law_checks_keep_the_server(up: UpstreamText, limit: usize, ok: bool)
    ensures
        forward::probed(up, limit, ok).ip == up.ip,
        forward::probed(up, limit, ok).port == up.port,
        forward::probed(up, limit, ok).is_tls == up.is_tls,
        ok ==> forward::probed(up, limit, ok).is_healthy && forward::probed(up, limit, ok).fails
            == 0,
        !ok && up.fails < usize::MAX ==> {
            &&& forward::probed(up, limit, ok).fails == up.fails + 1
            &&& forward::probed(up, limit, ok).is_healthy <==> up.is_healthy && up.fails + 1
                < limit
        },
{
}

/// A server without a port is asked on the usual one, 53, or 853 over TLS;
/// with a port it is asked on that. The name in front of the port is kept, and
/// a new server is healthy.
pub proof fn law_servers_by_argument(ip: Seq<char>, port: Seq<char>)
    requires
        !ip.contains(':'),
        !port.contains(':'),
        !port.contains('/'),
    ensures
        forward::upstream_of(ip) == (UpstreamText {
            ip,
            port: 53,
            is_tls: false,
            is_healthy: true,
            fails: 0,
        }),
        forward::upstream_of("tls://"@ + ip) == (UpstreamText {
            ip,
            port: 853,
            is_tls: true,
            is_healthy: true,
            fails: 0,
        }),
        forward::upstream_of(ip + seq![':'] + port) == (UpstreamText {
            ip,
            port: match text::number_of(port, 65535) {
                Some(n) => n as u16,
                None => 53,
            },
            is_tls: false,
            is_healthy: true,
            fails: 0,
        }),
        forward::upstream_of("tls://"@ + (ip + seq![':'] + port)) == (UpstreamText {
            ip,
            port: match text::number_of(port, 65535) {
                Some(n) => n as u16,
                None => 853,
            },
            is_tls: true,
            is_healthy: true,
            fails: 0,
        }),
{
    let tls = "tls://"@;
    reveal_strlit("tls://");
    let full = ip + seq![':'] + port;
    assert(tls[3] == ':' && tls[4] == '/' && tls.len() == 6);
    assert forall|i: int| !#[trigger] texts::stands_in(ip, tls, i) by {
        if texts::stands_in(ip, tls, i) {
            assert(ip.subrange(i, i + 6)[3] == ip[i + 3]);
            assert(ip.contains(ip[i + 3]));
        }
    }
    assert forall|i: int| !#[trigger] texts::stands_in(full, tls, i) by {
        if texts::stands_in(full, tls, i) {
            assert(full.subrange(i, i + 6)[3] == full[i + 3]);
            assert(full.subrange(i, i + 6)[4] == full[i + 4]);
            if i + 3 < ip.len() {
                assert(ip.contains(ip[i + 3]));
            } else if i + 3 == ip.len() {
                assert(full[i + 4] == port[0]);
                assert(port.contains(port[0]));
            } else {
                assert(full[i + 3] == port[i + 3 - ip.len() - 1]);
                assert(port.contains(port[i + 3 - ip.len() - 1]));
            }
        }
    }
    texts::law_nothing_to_remove(ip, tls);
    texts::law_nothing_to_remove(full, tls);
    texts::law_first_occurrence_is_removed(Seq::empty(), tls, ip);
    texts::law_first_occurrence_is_removed(Seq::empty(), tls, full);
    assert(Seq::<char>::empty() + tls + ip =~= tls + ip);
    assert(Seq::<char>::empty() + tls + full =~= tls + full);
    assert(Seq::<char>::empty() + ip =~= ip);
    assert(Seq::<char>::empty() + full =~= full);
    assert(tls.is_prefix_of(tls + ip)) by {
        assert((tls + ip).subrange(0, 6) =~= tls);
    }
    assert(tls.is_prefix_of(tls + full)) by {
        assert((tls + full).subrange(0, 6) =~= tls);
    }
    assert(!tls.is_prefix_of(ip)) by {
        assert(!texts::stands_in(ip, tls, 0));
    }
    assert(!tls.is_prefix_of(full)) by {
        assert(!texts::stands_in(full, tls, 0));
    }
    texts::law_split(ip, ':', port);
    texts::law_split(port, ':', Seq::empty());
    assert(full[ip.len() as int] == ':');
    assert(full.contains(':'));
}

/// What stands behind a second colon does not matter.
pub proof fn law_further_colons(ip: Seq<char>, port: Seq<char>, more: Seq<char>)
    requires
        !ip.contains(':'),
        !port.contains(':'),
        !port.contains('/'),
        !more.contains('/'),
    ensures
        forward::upstream_of(ip + seq![':'] + (port + seq![':'] + more)) == forward::upstream_of(
            ip + seq![':'] + port,
        ),
{
    let tls = "tls://"@;
    reveal_strlit("tls://");
    let behind = port + seq![':'] + more;
    let full = ip + seq![':'] + behind;
    assert(tls[3] == ':' && tls[4] == '/' && tls.len() == 6);
    law_servers_by_argument(ip, port);
    assert forall|i: int| !#[trigger] texts::stands_in(full, tls, i) by {
        if texts::stands_in(full, tls, i) {
            assert(full.subrange(i, i + 6)[3] == full[i + 3]);
            assert(full.subrange(i, i + 6)[4] == full[i + 4]);
            if i + 3 < ip.len() {
                assert(ip.contains(ip[i + 3]));
            } else {
                let k = i + 4 - ip.len() - 1;
                assert(full[i + 4] == behind[k]);
                if k < port.len() {
                    assert(port.contains(port[k]));
                } else if k > port.len() {
                    assert(behind[k] == more[k - port.len() - 1]);
                    assert(more.contains(more[k - port.len() - 1]));
                }
            }
        }
    }
    texts::law_nothing_to_remove(full, tls);
    assert(!tls.is_prefix_of(full)) by {
        assert(!texts::stands_in(full, tls, 0));
    }
    texts::law_split(ip, ':', behind);
    texts::law_split(port, ':', more);
    assert(full[ip.len() as int] == ':');
    assert(full.contains(':'));
    let parts = text::split(full, ':');
    assert(parts =~= seq![ip] + (seq![port] + text::split(more, ':')));
}

/// A port that is written as a number below 65536 is the port.
pub proof fn law_ports_by_argument(port: u16)
    ensures
        text::number_of(text::decimal(port as nat), 65535) == Some(port as int),
        !text::decimal(port as nat).contains(':'),
        !text::decimal(port as nat).contains('/'),
{
    let d = text::decimal(port as nat);
    texts::law_number_is_read_back(port as nat, 65535);
    texts::law_decimal(port as nat, 0);
    assert forall|c: char| d.contains(c) implies '0' <= c <= '9' by {
        let k = choose|k: int| 0 <= k < d.len() && d[k] == c;
        assert('0' <= d[k] <= '9');
    }
}

/// Holds of the arguments that name a server.
pub open spec fn names_a_server() -> spec_fn(Seq<char>) -> bool {
    |arg: Seq<char>| arg != seq!['.'] && arg != seq!['{', '}']
}

/// There is a server for each argument but `.` and `{}`, in order.
pub proof fn law_every_argument_makes_a_server(args: Seq<Seq<char>>)
    ensures
        forward::upstreams_of(args) == args.filter(names_a_server()).map_values(
            |arg: Seq<char>| forward::upstream_of(arg),
        ),
    decreases args.len(),
{
    reveal(Seq::filter);
    reveal_strlit(".");
    reveal_strlit("{}");
    assert("."@ =~= seq!['.']);
    assert("{}"@ =~= seq!['{', '}']);
    if args.len() > 0 {
        law_every_argument_makes_a_server(args.drop_last());
    }
    assert(forward::upstreams_of(args) =~= args.filter(names_a_server()).map_values(
        |arg: Seq<char>| forward::upstream_of(arg),
    ));
}

/// The response code that a name stands for.
pub open spec fn code_named(name: Seq<char>) -> u8 {
    if name == "NOERROR"@ {
        0
    } else if name == "FORMERR"@ {
        1
    } else if name == "SERVFAIL"@ {
        2
    } else if name == "NXDOMAIN"@ {
        3
    } else if name == "NOTIMP"@ {
        4
    } else if name == "REFUSED"@ {
        5
    } else {
        2
    }
}

/// The names of the codes differ.
proof fn lemma_code_names()
    ensures
        "NOERROR"@ != "FORMERR"@,
        "NOERROR"@ != "SERVFAIL"@,
        "NOERROR"@ != "NXDOMAIN"@,
        "NOERROR"@ != "NOTIMP"@,
        "NOERROR"@ != "REFUSED"@,
        "FORMERR"@ != "SERVFAIL"@,
        "FORMERR"@ != "NXDOMAIN"@,
        "FORMERR"@ != "NOTIMP"@,
        "FORMERR"@ != "REFUSED"@,
        "SERVFAIL"@ != "NXDOMAIN"@,
        "SERVFAIL"@ != "NOTIMP"@,
        "SERVFAIL"@ != "REFUSED"@,
        "NXDOMAIN"@ != "NOTIMP"@,
        "NXDOMAIN"@ != "REFUSED"@,
        "NOTIMP"@ != "REFUSED"@,
{
    reveal_strlit("NOERROR");
    reveal_strlit("FORMERR");
    reveal_strlit("SERVFAIL");
    reveal_strlit("NXDOMAIN");
    reveal_strlit("NOTIMP");
    reveal_strlit("REFUSED");
    assert("NOERROR"@[0] == 'N' && "NOERROR"@[1] == 'O');
    assert("FORMERR"@[0] == 'F');
    assert("SERVFAIL"@[0] == 'S');
    assert("NXDOMAIN"@[0] == 'N' && "NXDOMAIN"@[1] == 'X');
    assert("NOTIMP"@[0] == 'N' && "NOTIMP"@.len() == 6);
    assert("NOERROR"@.len() == 7);
    assert("REFUSED"@[0] == 'R');
}

/// The name of a code below six, given as an option, stands for that code; any
/// other name stands for a server failure.
pub proof fn law_codes_by_name(code: u8, name: Seq<char>)
    ensures
        forward::rcode_called(name) == code_named(name),
        code < 6 ==> forward::rcode_called(prometheus::rcode_name(code)) == code,
        code < 6 ==> code_named(prometheus::rcode_name(code)) == code,
        code >= 6 ==> prometheus::rcode_name(code) == "UNKNOWN"@,
{
    lemma_code_names();
}

/// Where the block says nothing: any order, no exceptions, no limit, two
/// failures make a server unhealthy, half a second between checks, ten seconds
/// for an idle connection, and a thousand of those.
pub proof fn law_usual_options()
    ensures
        ({
            let o = forward::settled(forward::options_of(Seq::empty()));
            &&& o.tls_servername is None
            &&& o.failover_rcodes.len() == 0
            &&& o.next_rcodes.len() == 0
            &&& o.policy == Policy::Random
            &&& o.except_domains.len() == 0
            &&& !o.force_tcp
            &&& o.max_concurrent is None
            &&& !o.failfast
            &&& o.max_idle_conns == 1000
            &&& o.expire_duration == 10_000
            &&& o.max_fails == 2
            &&& o.health_check_interval == 500
        }),
{
}

/// The names of the options differ.
proof fn lemma_option_names()
    ensures
        "tls_servername"@.len() == 14,
        "failover"@.len() == 8,
        "failover"@[0] == 'f',
        "next"@.len() == 4,
        "except"@.len() == 6,
        "except"@[2] == 'c',
        "force_tcp"@.len() == 9,
        "force_tcp"@[0] == 'f',
        "failfast_all_unhealthy_upstreams"@.len() == 32,
        "max_fails"@.len() == 9,
        "max_fails"@[0] == 'm',
        "max_idle_conns"@.len() == 14,
        "max_idle_conns"@[0] == 'm',
        "tls_servername"@[0] == 't',
        "expire"@.len() == 6,
        "expire"@[2] == 'p',
        "max_concurrent"@.len() == 14,
        "max_concurrent"@[0] == 'm',
        "max_concurrent"@[4] == 'c',
        "max_idle_conns"@[4] == 'i',
        "health_check"@.len() == 12,
        "policy"@.len() == 6,
        "policy"@[0] == 'p',
        "except"@[0] == 'e',
        "expire"@[0] == 'e',
{
    reveal_strlit("tls_servername");
    reveal_strlit("failover");
    reveal_strlit("next");
    reveal_strlit("except");
    reveal_strlit("force_tcp");
    reveal_strlit("failfast_all_unhealthy_upstreams");
    reveal_strlit("max_fails");
    reveal_strlit("max_idle_conns");
    reveal_strlit("expire");
    reveal_strlit("max_concurrent");
    reveal_strlit("health_check");
    reveal_strlit("policy");
}

/// Each option of the block sets what it is named after, to what its first
/// argument says, and leaves every other option as it was; so of two that set
/// the same one the later wins, and codes add up. Where an argument cannot be
/// read the usual value comes back, but for the limit on queries, which then
/// stays; an option that lacks its argument, or that is not known, does
/// nothing, but for the name to prove, which is then taken back.
pub proof fn law_options(block: Seq<Directive>, d: Directive)
    ensures
        ({
            let o = forward::options_of(block);
            let p = forward::options_of(block.push(d));
            let given = d.args.len() > 0;
            let arg = d.args[0];
            let number = text::number_of(arg, usize::MAX as int);
            let time = duration::duration_of(arg, false);
            let codes = d.args.map_values(|s: Seq<char>| code_named(outside::uppercase(s)));
            &&& d.name == "max_fails"@ && given ==> p == (ForwardOptions {
                max_fails: match number {
                    Some(n) => n as usize,
                    None => 2,
                },
                ..o
            })
            &&& d.name == "max_idle_conns"@ && given ==> p == (ForwardOptions {
                max_idle_conns: match number {
                    Some(n) => n as usize,
                    None => 0,
                },
                ..o
            })
            &&& d.name == "max_concurrent"@ && given ==> p == (ForwardOptions {
                max_concurrent: match number {
                    Some(n) => Some(n as usize),
                    None => o.max_concurrent,
                },
                ..o
            })
            &&& d.name == "expire"@ && given ==> p == (ForwardOptions {
                expire_duration: match time {
                    Some(ms) => ms as u128,
                    None => 10_000,
                },
                ..o
            })
            &&& d.name == "health_check"@ && given ==> p == (ForwardOptions {
                health_check_interval: match time {
                    Some(ms) => ms as u128,
                    None => 500,
                },
                ..o
            })
            &&& d.name == "tls_servername"@ ==> p == (ForwardOptions {
                tls_servername: if given {
                    Some(arg)
                } else {
                    None
                },
                ..o
            })
            &&& d.name == "except"@ ==> p == (ForwardOptions { except_domains: d.args, ..o })
            &&& d.name == "failfast_all_unhealthy_upstreams"@ ==> p == (ForwardOptions {
                failfast: true,
                ..o
            })
            &&& d.name == "force_tcp"@ ==> p == (ForwardOptions {
                force_tcp: !given || arg != "false"@,
                ..o
            })
            &&& d.name == "policy"@ && given ==> p == (ForwardOptions {
                policy: if arg == "sequential"@ {
                    Policy::Sequential
                } else if arg == "round_robin"@ {
                    Policy::RoundRobin
                } else {
                    Policy::Random
                },
                ..o
            })
            &&& d.name == "failover"@ ==> p == (ForwardOptions {
                failover_rcodes: o.failover_rcodes + codes,
                ..o
            })
            &&& d.name == "next"@ ==> p == (ForwardOptions {
                next_rcodes: o.next_rcodes + codes,
                ..o
            })
            &&& !given && needs_an_argument(d.name) ==> p == o
            &&& !is_an_option(d.name) ==> p == o
        }),
{
    assert(block.push(d).drop_last() =~= block);
    assert(block.push(d).last() == d);
    lemma_option_names();
    assert forall|s: Seq<char>| #[trigger] code_named(s) == forward::rcode_called(s) by {
        law_codes_by_name(0, s);
    }
    let codes = d.args.map_values(|s: Seq<char>| code_named(outside::uppercase(s)));
    assert(forward::rcodes_of(d.args) =~= codes);
}

/// Whether an option says nothing without an argument.
pub open spec fn needs_an_argument(name: Seq<char>) -> bool {
    ||| name == "max_fails"@
    ||| name == "max_idle_conns"@
    ||| name == "max_concurrent"@
    ||| name == "expire"@
    ||| name == "health_check"@
    ||| name == "policy"@
}

/// Whether an option is known.
pub open spec fn is_an_option(name: Seq<char>) -> bool {
    ||| needs_an_argument(name)
    ||| name == "tls_servername"@
    ||| name == "except"@
    ||| name == "failfast_all_unhealthy_upstreams"@
    ||| name == "force_tcp"@
    ||| name == "failover"@
    ||| name == "next"@
}

/// The limit on idle connections is as it was said, but zero means a thousand;
/// nothing else changes when the options are put to use.
pub proof fn law_idle_limit(o: ForwardOptions)
    ensures
        o.max_idle_conns > 0 ==> forward::settled(o) == o,
        o.max_idle_conns == 0 ==> forward::settled(o) == (ForwardOptions {
            max_idle_conns: 1000,
            ..o
        }),
{
}

/// Whether a server is the one that an argument names, not checked yet.
pub open spec fn made_from(server: Upstream, arg: Seq<char>) -> bool {
    let up = forward::upstream_of(arg);
    &&& server.ip@ == up.ip
    &&& server.port == up.port
    &&& server.is_tls == up.is_tls
    &&& server.is_healthy
    &&& server.fails == 0
}

/// A plugin works with the servers and options of its directive, field by
/// field.
pub proof fn law_configured(plugin: ForwardPlugin, d: Directive, shared: Setting)
    requires
        plugin.configured(d, shared),
    ensures
        plugin.rr_counter == 0,
        ({
            let servers = d.args.filter(names_a_server());
            &&& plugin.upstreams@.len() == servers.len()
            &&& forall|k: int|
                0 <= k < servers.len() ==> #[trigger] made_from(plugin.upstreams@[k], servers[k])
        }),
        ({
            let o = forward::settled(forward::options_of(d.block));
            &&& (o.tls_servername matches Some(name) ==> plugin.tls_servername matches Some(s)
                && s@ == name)
            &&& (o.tls_servername is None ==> plugin.tls_servername is None)
            &&& plugin.failover_rcodes@ == o.failover_rcodes
            &&& plugin.next_rcodes@ == o.next_rcodes
            &&& plugin.policy == o.policy
            &&& plugin.except_domains@.len() == o.except_domains.len()
            &&& forall|k: int|
                0 <= k < o.except_domains.len() ==> (#[trigger] plugin.except_domains@[k])@
                    == o.except_domains[k]
            &&& plugin.force_tcp == o.force_tcp
            &&& plugin.max_concurrent == o.max_concurrent
            &&& plugin.failfast == o.failfast
            &&& plugin.max_idle_conns == o.max_idle_conns
            &&& plugin.expire_duration == o.expire_duration
            &&& plugin.max_fails == o.max_fails
            &&& plugin.health_check_interval == o.health_check_interval
        }),
{
    let servers = d.args.filter(names_a_server());
    law_every_argument_makes_a_server(d.args);
    assert(plugin.servers().len() == plugin.upstreams@.len());
    assert forall|k: int| 0 <= k < servers.len() implies #[trigger] made_from(
        plugin.upstreams@[k],
        servers[k],
    ) by {
        assert(plugin.servers()[k] == plugin.upstreams@[k]@);
        assert(plugin.servers()[k] == forward::upstream_of(servers[k]));
    }
    let o = forward::settled(forward::options_of(d.block));
    assert(plugin.options() == o);
    assert(plugin.options().except_domains.len() == plugin.except_domains@.len());
    assert forall|k: int| 0 <= k < o.except_domains.len() implies (
    #[trigger] plugin.except_domains@[k])@ == o.except_domains[k] by {
        assert(plugin.options().except_domains[k] == plugin.except_domains@[k]@);
    }
}

/// The connection that is taken out of a pool has not expired, and every one
/// that was put in after it has; where none is taken out all have expired.
pub proof fn law_which_connection_is_reused<S>(idle: Seq<IdleConnection<S>>, now: u128)
    ensures
        match forward::last_fresh(idle, now) {
            Some(k) => {
                &&& 0 <= k < idle.len()
                &&& idle[k].expires_at > now
                &&& forall|j: int| k < j < idle.len() ==> (#[trigger] idle[j]).expires_at <= now
            },
            None => forall|j: int|
                0 <= j < idle.len() ==> (#[trigger] idle[j]).expires_at <= now,
        },
    decreases idle.len(),
{
    if idle.len() > 0 && idle.last().expires_at <= now {
        let front = idle.drop_last();
        law_which_connection_is_reused(front, now);
        assert forall|j: int| 0 <= j < front.len() implies #[trigger] idle[j] == front[j] by {}
    }
}

/// A connection is put at the end of a pool with room, and dropped where there
/// is none; the others stay.
pub proof fn law_connections_are_put_back<S>(
    idle: Seq<IdleConnection<S>>,
    c: IdleConnection<S>,
    limit: usize,
)
    ensures
        idle.len() < limit ==> forward::checked_in(idle, c, limit) == idle.push(c),
        idle.len() >= limit ==> forward::checked_in(idle, c, limit) == idle,
{
}

/// The query of a health check is well formed: it asks for the name servers of
/// the root.
pub proof fn law_health_probe()
    ensures
        forward::health_probe().len() == 17,
        wire::question_bytes(forward::health_probe()) == Some(seq![0u8, 0, 2, 0, 1]),
        wire::question_type(forward::health_probe()) == Some(2u16),
        wire::question_name(forward::health_probe()) == Some(seq!['.']),
{
    let q = forward::health_probe();
    let none = Seq::<Seq<u8>>::empty();
    assert(wires::name_bytes(none) =~= Seq::empty());
    reveal(Seq::filter);
    assert(wires::label_texts(none) =~= Seq::empty());
    assert(wires::query(q.take(12), none, (0, 2), (0, 1), Seq::empty()) =~= q);
    assert(wires::question(none, (0, 2), (0, 1)) =~= seq![0u8, 0, 2, 0, 1]);
    wires::law_question_is_found(q.take(12), none, (0, 2), (0, 1), Seq::empty());
    wires::law_name_is_read(q.take(12), none, (0, 2), (0, 1), Seq::empty());
}

/// A connection put back now may be used for as many milliseconds as are said,
/// each a million nanoseconds.
pub proof fn law_idle_time(now: u128, expire: u128, more: u128)
    requires
        more == expire + 1,
    ensures
        forward::expiry(now, 0) == now,
        forward::expiry(now, more) == forward::expiry(now, expire) + 1_000_000,
{
}

/// Over TLS a server has to prove the configured name, or else its own; its
/// health is checked over TLS too, and over UDP where it is not asked over TLS.
pub proof fn law_names_to_prove(plugin: ForwardPlugin, up: UpstreamText)
    ensures
        plugin.tls_servername matches Some(name) ==> plugin.name_to_prove(up) == name@,
        plugin.tls_servername is None ==> plugin.name_to_prove(up) == up.ip,
        plugin.probed_over(up) == Transport::Tls <==> up.is_tls,
        plugin.probed_over(up) == Transport::Udp <==> !up.is_tls,
{
}

/// The excepted ending that is named for a query is the first that its name
/// ends in.
pub proof fn law_except_rule(plugin: ForwardPlugin, msg: DnsMessage, labels: Seq<Seq<u8>>, k: int)
    requires
        asks_for(msg, labels),
        !msg.halt_chain,
        plugin.upstreams@.len() > 0,
        0 <= k < plugin.except_domains@.len(),
    ensures
        plugin.excepting(msg, k) <==> plugin.except_domains@[k]@.is_suffix_of(dotted(labels))
            && forall|j: int|
            0 <= j < k ==> !(#[trigger] plugin.except_domains@[j]@).is_suffix_of(dotted(labels)),
{
    let (header, kind, class, rest) = choose|
        header: Seq<u8>,
        kind: (u8, u8),
        class: (u8, u8),
        rest: Seq<u8>,
    |
        header.len() == 12 && msg.raw_query@ == #[trigger] wires::query(
            header,
            labels,
            kind,
            class,
            rest,
        );
    wires::law_name_is_read(header, labels, kind, class, rest);
    let domains = text::texts(plugin.except_domains@);
    assert forall|j: int| 0 <= j < domains.len() implies #[trigger] domains[j]
        == plugin.except_domains@[j]@ by {}
    if plugin.excepting(msg, k) {
        assert forall|j: int| 0 <= j < k implies !(
        #[trigger] plugin.except_domains@[j]@).is_suffix_of(dotted(labels)) by {
            assert(!domains[j].is_suffix_of(dotted(labels)));
        }
    }
    if plugin.except_domains@[k]@.is_suffix_of(dotted(labels)) && forall|j: int|
        0 <= j < k ==> !(#[trigger] plugin.except_domains@[j]@).is_suffix_of(dotted(labels)) {
        assert forall|j: int| 0 <= j < k implies !(#[trigger] domains[j]).is_suffix_of(
            dotted(labels),
        ) by {
            assert(!plugin.except_domains@[j]@.is_suffix_of(dotted(labels)));
        }
    }
}

/// A health check of one server leaves all others as they were, and everything
/// that was configured; it is reported when the server becomes unhealthy by it,
/// after as many failures in a row as are allowed.
pub proof fn law_checks_touch_one_server(
    plugin: ForwardPlugin,
    after: ForwardPlugin,
    idx: int,
    ok: bool,
    down: Option<usize>,
)
    requires
        plugin.checked(after, idx, ok, down),
        0 <= idx < plugin.upstreams@.len(),
        plugin.upstreams@[idx].fails < usize::MAX,
    ensures
        after.upstreams@.len() == plugin.upstreams@.len(),
        forall|k: int|
            0 <= k < plugin.upstreams@.len() ==> {
                &&& (#[trigger] after.upstreams@[k]).ip@ == plugin.upstreams@[k].ip@
                &&& after.upstreams@[k].port == plugin.upstreams@[k].port
                &&& after.upstreams@[k].is_tls == plugin.upstreams@[k].is_tls
            },
        forall|k: int|
            0 <= k < plugin.upstreams@.len() && k != idx ==> {
                &&& (#[trigger] after.upstreams@[k]).is_healthy == plugin.upstreams@[k].is_healthy
                &&& after.upstreams@[k].fails == plugin.upstreams@[k].fails
            },
        ok ==> after.upstreams@[idx].is_healthy && after.upstreams@[idx].fails == 0 && down is None,
        !ok ==> {
            &&& after.upstreams@[idx].fails == plugin.upstreams@[idx].fails + 1
            &&& after.upstreams@[idx].is_healthy <==> plugin.upstreams@[idx].is_healthy
                && plugin.upstreams@[idx].fails + 1 < plugin.max_fails
            &&& down == if plugin.upstreams@[idx].is_healthy && plugin.upstreams@[idx].fails + 1
                >= plugin.max_fails {
                Some((plugin.upstreams@[idx].fails + 1) as usize)
            } else {
                None
            }
        },
        after.max_fails == plugin.max_fails,
        after.policy == plugin.policy,
        after.force_tcp == plugin.force_tcp,
        after.failfast == plugin.failfast,
        after.failover_rcodes@ == plugin.failover_rcodes@,
        after.next_rcodes@ == plugin.next_rcodes@,
        after.max_concurrent == plugin.max_concurrent,
        after.rr_counter == plugin.rr_counter,
{
    let before = plugin.servers();
    let now = after.servers();
    assert(before.len() == plugin.upstreams@.len());
    assert(now.len() == after.upstreams@.len());
    assert forall|k: int| 0 <= k < before.len() implies #[trigger] before[k]
        == plugin.upstreams@[k]@ by {}
    assert forall|k: int| 0 <= k < now.len() implies #[trigger] now[k] == after.upstreams@[k]@ by {}
    law_checks_keep_the_server(before[idx], plugin.max_fails, ok);
    assert(now[idx] == after.upstreams@[idx]@);
    assert(plugin.options().max_fails == plugin.max_fails);
    assert(after.options().max_fails == after.max_fails);
    assert forall|k: int| 0 <= k < plugin.upstreams@.len() implies {
        &&& (#[trigger] after.upstreams@[k]).ip@ == plugin.upstreams@[k].ip@
        &&& after.upstreams@[k].port == plugin.upstreams@[k].port
        &&& after.upstreams@[k].is_tls == plugin.upstreams@[k].is_tls
    } by {
        assert(now[k] == after.upstreams@[k]@);
        assert(before[k] == plugin.upstreams@[k]@);
    }
    assert forall|k: int| 0 <= k < plugin.upstreams@.len() && k != idx implies {
        &&& (#[trigger] after.upstreams@[k]).is_healthy == plugin.upstreams@[k].is_healthy
        &&& after.upstreams@[k].fails == plugin.upstreams@[k].fails
    } by {
        assert(now[k] == after.upstreams@[k]@);
        assert(before[k] == plugin.upstreams@[k]@);
    }
}

/// The connection used last that has not expired is the one taken out; those
/// in front of it stay, and the expired ones behind it go.
pub proof fn law_connections_are_taken_out<S>(
    idle: Seq<IdleConnection<S>>,
    after: Seq<IdleConnection<S>>,
    now: u128,
    stream: Option<S>,
    k: int,
)
    requires
        forward::taken_out(idle, after, now, stream),
        0 <= k <= idle.len(),
        forall|j: int| k <= j < idle.len() ==> (#[trigger] idle[j]).expires_at <= now,
        k > 0 ==> idle[k - 1].expires_at > now,
    ensures
        k > 0 ==> stream == Some(idle[k - 1].stream) && after == idle.take(k - 1),
        k == 0 ==> stream is None && after.len() == 0,
{
    law_which_connection_is_reused(idle, now);
    match forward::last_fresh(idle, now) {
        Some(f) => {
            if f >= k {
                assert(idle[f].expires_at <= now);
            }
            if f < k - 1 {
                assert(idle[k - 1].expires_at <= now);
            }
        },
        None => {
            if k > 0 {
                assert(idle[k - 1].expires_at <= now);
            }
        },
    }
}

/// A query with no bytes is not forwarded, and one too short for a header has
/// the name of the root.
pub proof fn law_short_queries(
    plugin: ForwardPlugin,
    after: ForwardPlugin,
    pass: Pass,
    progress: Progress,
)
    requires
        plugin.processed(after, pass, progress),
    ensures
        pass.msg.raw_query@.len() == 0 ==> progress is Passed && pass.msg_after == pass.msg,
        pass.msg.raw_query@.len() < 12 ==> forward::shown_name(pass.msg.raw_query@) == seq!['.'],
{
    reveal_strlit(".");
    assert("."@ =~= seq!['.']);
}

} // verus!
