use coredns_rust::config::PluginConfig;
use coredns_rust::metrics::{Amount, Family, Metric};
use coredns_rust::plugin::cache::CacheStore;
use coredns_rust::plugin::forward::{
    build_error_response, build_health_probe, extract_qname_string, parse_duration, parse_rcode,
    rcode_of_uppercase, ForwardPlugin, IdlePool, Policy, Transport, Verdict,
};
use coredns_rust::plugin::{Plugin, Progress, SharedState};
use coredns_rust::types::DnsMessage;

fn option(name: &str, args: &[&str]) -> PluginConfig {
    PluginConfig {
        name: name.to_string(),
        args: args.iter().map(|a| a.to_string()).collect(),
        block: Vec::new(),
    }
}

fn plugin(args: &[&str], block: Vec<PluginConfig>) -> ForwardPlugin {
    let mut shared = SharedState::new_with_cache(CacheStore::new(), String::new());
    let mut config = option("forward", args);
    config.block = block;
    match ForwardPlugin::from_config(&config, &mut shared) {
        Ok(p) => p,
        Err(_) => panic!("forwarding can always be configured"),
    }
}

fn message(name: &[u8]) -> DnsMessage {
    let mut m = DnsMessage::default();
    m.raw_query = vec![0x12, 0x34, 1, 0, 0, 1, 0, 0, 0, 0, 0, 0];
    m.raw_query.extend_from_slice(name);
    m.raw_query.extend_from_slice(&[0, 1, 0, 1]);
    m
}

const NAME: &[u8] = b"\x03www\x05local\x00";

fn process(p: &mut ForwardPlugin, m: &mut DnsMessage) -> Progress {
    let mut metrics = Vec::new();
    let progress = p.process(m, &mut CacheStore::new(), 0, &mut metrics);
    assert_eq!(metrics.len(), 0);
    progress
}

fn order(p: &mut ForwardPlugin) -> Vec<usize> {
    match process(p, &mut message(NAME)) {
        Progress::Ask(order) => order,
        _ => panic!("servers are to be asked"),
    }
}

#[test]
fn servers() {
    let p = plugin(
        &[
            ".", "1.1.1.1", "1.1.1.1:5353", "tls://8.8.8.8", "tls://8.8.4.4:1853", "{}", "9.9.9.9:x",
            "tls://9.9.9.9:99999", "[::1]:53", "a:1:2",
        ],
        vec![],
    );
    let seen: Vec<(&str, u16, bool)> =
        p.upstreams.iter().map(|u| (u.ip.as_str(), u.port, u.is_tls)).collect();
    assert_eq!(
        seen,
        vec![
            ("1.1.1.1", 53, false),
            ("1.1.1.1", 5353, false),
            ("8.8.8.8", 853, true),
            ("8.8.4.4", 1853, true),
            ("9.9.9.9", 53, false),
            ("9.9.9.9", 853, true),
            ("[", 53, false),
            ("a", 1, false),
        ]
    );
    assert!(p.upstreams.iter().all(|u| u.is_healthy && u.fails == 0));
    assert_eq!(p.upstreams[3].address(), "8.8.4.4:1853");
}

#[test]
fn usual_options() {
    let p = plugin(&["1.1.1.1"], vec![]);
    assert_eq!(p.tls_servername, None);
    assert_eq!(p.failover_rcodes, Vec::<u8>::new());
    assert_eq!(p.next_rcodes, Vec::<u8>::new());
    assert!(p.policy == Policy::Random);
    assert_eq!(p.except_domains, Vec::<String>::new());
    assert!(!p.force_tcp && !p.failfast);
    assert_eq!(p.max_concurrent, None);
    assert_eq!(p.max_idle_conns, 1000);
    assert_eq!(p.expire_duration, 10_000);
    assert_eq!(p.max_fails, 2);
    assert_eq!(p.health_check_interval, 500);
    assert_eq!(p.rr_counter, 0);
    assert!(p.checks_health());
}

#[test]
fn all_options() {
    let p = plugin(
        &["tls://8.8.8.8", "1.1.1.1"],
        vec![
            option("tls_servername", &["dns.google"]),
            option("failover", &["SERVFAIL", "refused"]),
            option("failover", &["notimp"]),
            option("next", &["NxDomain", "what"]),
            option("except", &["gone"]),
            option("except", &["local", "lan"]),
            option("force_tcp", &[]),
            option("failfast_all_unhealthy_upstreams", &[]),
            option("max_fails", &["0"]),
            option("max_idle_conns", &["7"]),
            option("expire", &["2m"]),
            option("max_concurrent", &["100000"]),
            option("health_check", &["0.5s"]),
            option("policy", &["round_robin"]),
            option("nonsense", &["1"]),
        ],
    );
    assert_eq!(p.tls_servername, Some("dns.google".to_string()));
    assert_eq!(p.failover_rcodes, vec![2, 5, 4]);
    assert_eq!(p.next_rcodes, vec![3, 2]);
    assert_eq!(p.except_domains, vec!["local", "lan"]);
    assert!(p.force_tcp && p.failfast);
    assert_eq!(p.max_concurrent, Some(100_000));
    assert_eq!(p.max_idle_conns, 7);
    assert_eq!(p.expire_duration, 120_000);
    assert_eq!(p.max_fails, 0);
    assert!(!p.checks_health());
    assert_eq!(p.health_check_interval, 500);
    assert!(p.policy == Policy::RoundRobin);
    assert_eq!(p.server_name(1), "dns.google");
    assert!(p.transport(0) == Transport::Tls);
    assert!(p.transport(1) == Transport::Tcp);
}

#[test]
fn unreadable_and_missing_arguments() {
    let p = plugin(
        &["1.1.1.1"],
        vec![
            option("tls_servername", &["a"]),
            option("tls_servername", &[]),
            option("max_fails", &["9"]),
            option("max_fails", &["x"]),
            option("max_idle_conns", &["5"]),
            option("max_idle_conns", &["-1"]),
            option("expire", &["5s"]),
            option("expire", &["1h"]),
            option("max_concurrent", &["5"]),
            option("max_concurrent", &["many"]),
            option("health_check", &["2s"]),
            option("health_check", &[]),
            option("policy", &["sequential"]),
            option("policy", &[]),
        ],
    );
    assert_eq!(p.tls_servername, None);
    assert_eq!(p.max_fails, 2);
    assert_eq!(p.max_idle_conns, 1000);
    assert_eq!(p.expire_duration, 10_000);
    assert_eq!(p.max_concurrent, Some(5));
    assert_eq!(p.health_check_interval, 2_000);
    assert!(p.policy == Policy::Sequential);
    assert_eq!(p.server_name(0), "1.1.1.1");
    assert!(p.transport(0) == Transport::Udp);
    let other = plugin(&["1.1.1.1"], vec![option("policy", &["Sequential"])]);
    assert!(other.policy == Policy::Random);
}

#[test]
fn response_codes_by_name() {
    let names =
        [("NOERROR", 0), ("FORMERR", 1), ("SERVFAIL", 2), ("NXDOMAIN", 3), ("NOTIMP", 4), ("REFUSED", 5)];
    for (name, code) in names {
        assert_eq!(rcode_of_uppercase(name), code);
        assert_eq!(parse_rcode(&name.to_lowercase()), code);
    }
    assert_eq!(parse_rcode("rEfUsEd"), 5);
    assert_eq!(rcode_of_uppercase("refused"), 2);
    assert_eq!(parse_rcode(""), 2);
    assert_eq!(parse_rcode("refuſed"), 5);
}

#[test]
fn hours_are_no_unit_here() {
    assert_eq!(parse_duration("1m"), Some(60_000));
    assert_eq!(parse_duration("1h"), None);
}

#[test]
fn messages_that_are_not_forwarded() {
    let mut p = plugin(&["1.1.1.1"], vec![option("except", &["lan", "local"])]);
    assert!(matches!(process(&mut p, &mut message(NAME)), Progress::Passed));
    assert_eq!(p.except_rule(&message(NAME)), Some(1));
    assert_eq!(p.except_rule(&message(b"\x05local\x01x\x00")), None);
    assert!(matches!(process(&mut p, &mut message(b"\x05local\x01x\x00")), Progress::Ask(_)));
    let mut halted = message(b"\x01x\x00");
    halted.halt_chain = true;
    let mut late = message(NAME);
    late.halt_chain = true;
    assert_eq!(p.except_rule(&late), None);
    assert!(matches!(process(&mut p, &mut halted), Progress::Passed));
    let mut empty = message(NAME);
    empty.raw_query = Vec::new();
    assert!(matches!(process(&mut p, &mut empty), Progress::Passed));
    let mut none = plugin(&["."], vec![]);
    assert!(matches!(process(&mut none, &mut message(NAME)), Progress::Passed));
    let mut root = plugin(&["1.1.1.1"], vec![option("except", &["."])]);
    let mut short = message(NAME);
    short.raw_query.truncate(3);
    assert!(matches!(process(&mut root, &mut short), Progress::Passed));
}

#[test]
fn healthy_servers_come_first_in_sequence() {
    let mut p = plugin(&["a", "b", "c"], vec![option("policy", &["sequential"])]);
    assert_eq!(order(&mut p), vec![0, 1, 2]);
    p.upstreams[1].is_healthy = false;
    assert_eq!(order(&mut p), vec![0, 2]);
    p.upstreams[0].is_healthy = false;
    p.upstreams[2].is_healthy = false;
    assert_eq!(order(&mut p), vec![0, 1, 2]);
}

#[test]
fn round_robin_takes_turns() {
    let mut p = plugin(&["a", "b", "c"], vec![option("policy", &["round_robin"])]);
    assert_eq!(order(&mut p), vec![0, 1, 2]);
    assert_eq!(order(&mut p), vec![1, 2, 0]);
    assert_eq!(order(&mut p), vec![2, 0, 1]);
    p.upstreams[0].is_healthy = false;
    assert_eq!(order(&mut p), vec![2, 1]);
    p.rr_counter = usize::MAX;
    order(&mut p);
    assert_eq!(p.rr_counter, 0);
}

#[test]
fn random_order_asks_everyone_once() {
    let names: Vec<String> = (0..40).map(|i| format!("s{}", i)).collect();
    let args: Vec<&str> = names.iter().map(|s| s.as_str()).collect();
    let mut p = plugin(&args, vec![]);
    let sorted: Vec<usize> = (0..40).collect();
    let mut moved = false;
    for _ in 0..20 {
        let mut o = order(&mut p);
        moved = moved || o != sorted;
        o.sort();
        assert_eq!(o, sorted);
    }
    assert!(moved);
}

#[test]
fn failing_fast() {
    let mut p =
        plugin(&["a", "b"], vec![option("failfast_all_unhealthy_upstreams", &[])]);
    assert_eq!(order(&mut p).len(), 2);
    p.upstreams[0].is_healthy = false;
    p.upstreams[1].is_healthy = false;
    let mut m = message(NAME);
    assert!(matches!(process(&mut p, &mut m), Progress::Passed));
    let mut expected = m.raw_query.clone();
    expected[2] = 0x81;
    expected[3] = 2;
    assert_eq!(m.raw_response, Some(expected));
    assert!(m.halt_chain);
    assert_eq!(m.answered_by, "forward");
}

#[test]
fn permits() {
    let mut p = plugin(&["a"], vec![option("max_concurrent", &["1"])]);
    let mut m = message(NAME);
    assert!(matches!(process(&mut p, &mut m), Progress::AwaitPermit));
    assert_eq!(m.raw_response, None);
    let mut metrics: Vec<Metric> = Vec::new();
    match p.on_permit(&mut m, true, &mut metrics) {
        Progress::Ask(o) => assert_eq!(o, vec![0]),
        _ => panic!("there is a permit"),
    }
    assert_eq!(metrics.len(), 0);
    assert!(matches!(p.on_permit(&mut m, false, &mut metrics), Progress::Passed));
    assert_eq!(m.raw_response.unwrap()[2..4], [0x81, 5]);
    assert!(m.halt_chain);
    assert_eq!(m.answered_by, "forward");
    assert_eq!(metrics.len(), 1);
    assert!(metrics[0].family == Family::ForwardMaxConcurrentRejects);
    assert_eq!(metrics[0].labels.len(), 0);
    assert!(metrics[0].amount == Amount::Inc);
}

#[test]
fn replies() {
    let p = plugin(
        &["10.0.0.1"],
        vec![option("failover", &["SERVFAIL"]), option("next", &["NXDOMAIN"])],
    );
    let reply = |rcode: u8| vec![0x12, 0x34, 0x81, 0x80 | rcode, 7];
    let mut metrics = Vec::new();
    let mut m = message(NAME);
    assert!(p.on_reply(&mut m, 0, reply(2), 5, &mut metrics) == Verdict::AskNext);
    assert_eq!(m.raw_response, None);
    assert_eq!(m.answered_by, "");
    assert!(p.on_reply(&mut m, 0, reply(3), 6, &mut metrics) == Verdict::Answered);
    assert_eq!(m.raw_response, Some(reply(3)));
    assert!(!m.halt_chain);
    assert!(p.on_reply(&mut m, 0, reply(0), 7, &mut metrics) == Verdict::Answered);
    assert_eq!(m.raw_response, Some(reply(0)));
    assert!(m.halt_chain);
    assert_eq!(m.answered_by, "forward");
    let labels: Vec<Vec<String>> = metrics.iter().map(|s| s.labels.clone()).collect();
    assert_eq!(
        labels,
        vec![
            vec!["forward", "SERVFAIL", "10.0.0.1:53"],
            vec!["forward", "NXDOMAIN", "10.0.0.1:53"],
            vec!["forward", "NOERROR", "10.0.0.1:53"],
        ]
    );
    assert!(metrics.iter().all(|s| s.family == Family::ProxyRequestDuration));
    assert!(metrics[2].amount == Amount::ObserveNanos(7));
}

#[test]
fn failures() {
    let p = plugin(&["10.0.0.1:5300"], vec![]);
    let mut metrics = Vec::new();
    assert_eq!(
        p.on_failure(&message(NAME), 0, "timed out", 9, &mut metrics),
        "Failed to connect to 10.0.0.1:5300 for 'www.local': timed out"
    );
    assert_eq!(metrics[0].labels, vec!["forward", "SERVFAIL", "10.0.0.1:5300"]);
    assert!(metrics[0].amount == Amount::ObserveNanos(9));
    let mut short = message(NAME);
    short.raw_query.truncate(4);
    assert_eq!(
        p.on_failure(&short, 0, "x", 0, &mut metrics),
        "Failed to connect to 10.0.0.1:5300 for '.': x"
    );
}

#[test]
fn connections_are_counted() {
    let p = plugin(&["10.0.0.1", "tls://10.0.0.2"], vec![]);
    let mut metrics = Vec::new();
    p.on_connection(0, false, &mut metrics);
    p.on_connection(1, false, &mut metrics);
    p.on_connection(1, true, &mut metrics);
    assert_eq!(metrics[0].labels, vec!["udp", "forward", "10.0.0.1:53"]);
    assert_eq!(metrics[1].labels, vec!["tcp-tls", "forward", "10.0.0.2:853"]);
    assert!(metrics[0].family == Family::ProxyConnCacheMisses);
    assert!(metrics[1].family == Family::ProxyConnCacheMisses);
    assert!(metrics[2].family == Family::ProxyConnCacheHits);
    let p = plugin(&["10.0.0.1"], vec![option("force_tcp", &["true"])]);
    p.on_connection(0, false, &mut metrics);
    p.on_connection(0, true, &mut metrics);
    assert_eq!(metrics[3].labels, vec!["tcp", "forward", "10.0.0.1:53"]);
    assert!(metrics[3].family == Family::ProxyConnCacheMisses);
    assert!(metrics[4].family == Family::ProxyConnCacheHits);
}

#[test]
fn forcing_tcp() {
    for (block, forced) in [
        (vec![], false),
        (vec![option("force_tcp", &[])], true),
        (vec![option("force_tcp", &["true"])], true),
        (vec![option("force_tcp", &["false"])], false),
        (vec![option("force_tcp", &[]), option("force_tcp", &["false"])], false),
    ] {
        let p = plugin(&["1.1.1.1", "tls://8.8.8.8"], block);
        assert_eq!(p.force_tcp, forced);
        let expected = if forced { Transport::Tcp } else { Transport::Udp };
        assert!(p.transport(0) == expected);
        assert!(p.transport(1) == Transport::Tls);
        assert!(p.probe_transport(0) == Transport::Udp);
        assert!(p.probe_transport(1) == Transport::Tls);
    }
}

#[test]
fn health_checks() {
    let mut p = plugin(&["a", "b"], vec![option("max_fails", &["3"])]);
    assert_eq!(p.on_probe(0, false), None);
    assert_eq!(p.on_probe(0, false), None);
    assert!(p.upstreams[0].is_healthy);
    assert_eq!(p.on_probe(0, false), Some(3));
    assert!(!p.upstreams[0].is_healthy);
    assert_eq!(p.on_probe(0, false), None);
    assert_eq!(p.upstreams[0].fails, 4);
    assert!(p.upstreams[1].is_healthy && p.upstreams[1].fails == 0);
    assert_eq!(p.on_probe(0, true), None);
    assert!(p.upstreams[0].is_healthy && p.upstreams[0].fails == 0);
    assert_eq!(p.upstreams[0].ip, "a");
    p.on_probe(0, false);
    p.on_probe(0, false);
    p.on_probe(0, false);
    p.upstreams[0].fails = usize::MAX;
    assert_eq!(p.on_probe(0, false), None);
    assert_eq!(p.upstreams[0].fails, 0);
    assert!(!p.upstreams[0].is_healthy);
}

#[test]
fn error_responses() {
    assert_eq!(build_error_response(&vec![1, 2, 1, 0x10, 9], 0x15), vec![1, 2, 0x81, 0x15, 9]);
    assert_eq!(build_error_response(&vec![1, 2, 3], 5), vec![1, 2, 3]);
    assert_eq!(build_error_response(&vec![], 5), Vec::<u8>::new());
}

#[test]
fn the_probe_asks_for_the_root() {
    assert_eq!(
        build_health_probe(),
        vec![0x12, 0x34, 1, 0, 0, 1, 0, 0, 0, 0, 0, 0, 0, 0, 2, 0, 1]
    );
    assert_eq!(extract_qname_string(&build_health_probe()), Some(".".to_string()));
    assert_eq!(extract_qname_string(&message(NAME).raw_query), Some("www.local".to_string()));
    assert_eq!(extract_qname_string(&[0; 5]), None);
}

#[test]
fn idle_connections() {
    let mut pool: IdlePool<&str> = IdlePool::new();
    assert_eq!(pool.checkout(0), None);
    pool.checkin("a", 0, 30, 3);
    pool.checkin("b", 0, 20, 3);
    pool.checkin("c", 0, 10, 3);
    pool.checkin("d", 0, 90, 3);
    assert_eq!(pool.idle.len(), 3);
    assert_eq!(pool.idle[0].expires_at, 30_000_000);
    assert_eq!(pool.checkout(10_000_000), Some("b"));
    assert_eq!(pool.idle.len(), 1);
    pool.checkin("e", 10_000_000, 5, 3);
    assert_eq!(pool.checkout(14_999_999), Some("e"));
    assert_eq!(pool.checkout(30_000_000), None);
    assert_eq!(pool.idle.len(), 0);
    pool.checkin("f", 0, 1, 0);
    assert_eq!(pool.idle.len(), 0);
}
