use coredns_rust::config::Config;
use coredns_rust::dns_server::{
    receive, tcp_reply, udp_reply, zone_port_of, DnsServer, QueryRun, Stage, UDP_LIMIT,
};
use coredns_rust::metrics::{Amount, Family, Metric};
use coredns_rust::plugin::cache::CacheStore;
use coredns_rust::plugin::{PluginInstance, SharedState};
use coredns_rust::types::{ClientAddr, ClientIp, DnsMessage};

fn server(content: &str) -> DnsServer {
    let mut shared = SharedState::new_with_cache(CacheStore::new(), String::new());
    let config = match Config::parse(content, &mut shared) {
        Ok(c) => c,
        Err(_) => panic!("a configuration is always readable"),
    };
    match DnsServer::new(config, shared) {
        Ok(s) => s,
        Err(_) => panic!("there is always a server"),
    }
}

fn query(id: u16) -> Vec<u8> {
    let mut q = id.to_be_bytes().to_vec();
    q.extend_from_slice(&[1, 0, 0, 1, 0, 0, 0, 0, 0, 0]);
    q.extend_from_slice(b"\x01a\x03org\x00\x00\x01\x00\x01");
    q
}

fn reply(id: u16, rcode: u8) -> Vec<u8> {
    let mut r = query(id);
    r[2] = 0x81;
    r[3] = rcode;
    r
}

fn from_client(query: Vec<u8>) -> DnsMessage {
    let client = ClientAddr { ip: ClientIp::V4([127, 0, 0, 1]), port: 4000 };
    receive(query, client, "udp", 1053)
}

fn steps(s: &mut DnsServer, run: &mut QueryRun, now: u128, metrics: &mut Vec<Metric>) {
    while matches!(run.stage, Stage::Inbound(_) | Stage::Outbound(_)) {
        assert!(run.fits_plugins(&s.config.zones[0].plugins));
        run.step(&mut s.config.zones[0].plugins, &mut s.shared.cache_preserve, now, metrics);
    }
}

#[test]
fn ports_of_zones() {
    assert_eq!(zone_port_of(".:1053"), "1053");
    assert_eq!(zone_port_of("example.org"), "53");
    assert_eq!(zone_port_of("dns://example.org:54"), "54");
    assert_eq!(zone_port_of("a:"), "");
    assert_eq!(zone_port_of(""), "53");
}

#[test]
fn zones_are_grouped_by_address() {
    let s = server("a:53 b c:1053 {\n}\nd:x e:53 {\n}\n f:x {\n}");
    let listeners = s.listeners("0.0.0.0:9");
    let seen: Vec<(&str, u16, &[usize])> =
        listeners.iter().map(|l| (l.addr.as_str(), l.port, l.zones.as_slice())).collect();
    assert_eq!(
        seen,
        vec![
            ("0.0.0.0:53", 53, &[0usize, 1, 4][..]),
            ("0.0.0.0:1053", 1053, &[2][..]),
            ("0.0.0.0:x", 53, &[3, 5][..]),
        ]
    );
    assert_eq!(s.listeners("127.0.0.1")[0].addr, "127.0.0.1:53");
    let serving: Vec<usize> = listeners.iter().map(|l| l.serving_zone()).collect();
    assert_eq!(serving, vec![0, 2, 3]);
    assert_eq!(s.listeners("")[0].addr, ":53");
    assert_eq!(server("").listeners("0.0.0.0:53").len(), 0);
}

#[test]
fn queries_from_clients() {
    let m = from_client(query(0xbeef));
    assert_eq!(m.header.id, 0xbeef);
    assert_eq!(m.raw_query, query(0xbeef));
    assert_eq!(m.protocol, "udp");
    assert_eq!(m.server_port, Some(1053));
    assert!(m.client_addr.is_some());
    assert_eq!(m.raw_response, None);
    assert!(!m.halt_chain);
    assert_eq!(from_client(vec![0xbe; 11]).header.id, 0);
}

#[test]
fn long_answers_are_truncated_over_udp() {
    let short = vec![5u8; UDP_LIMIT];
    assert_eq!(udp_reply(short.clone()), short);
    let mut long = vec![5u8; UDP_LIMIT + 1];
    long[2] = 0x80;
    let sent = udp_reply(long);
    assert_eq!(sent.len(), 1232);
    assert_eq!(sent[2], 0x82);
    assert_eq!(sent[3], 5);
    assert_eq!(udp_reply(Vec::new()), Vec::<u8>::new());
}

#[test]
fn answers_are_framed_over_tcp() {
    assert_eq!(tcp_reply(&vec![9, 8, 7]), vec![0, 3, 9, 8, 7]);
}

#[test]
fn a_query_goes_in_and_out() {
    let mut s = server(
        ". {\n cache\n log\n prometheus\n forward . 1.1.1.1 2.2.2.2 {\n policy sequential\n failover SERVFAIL\n }\n}",
    );
    let mut metrics = Vec::new();
    let mut run = QueryRun::start(from_client(query(7)), 0);
    steps(&mut s, &mut run, 1, &mut metrics);
    assert!(run.stage == Stage::Exchange(3, 0));
    match run.asked(&s.config.zones[0].plugins) {
        Some((f, idx)) => assert_eq!(f.upstreams[idx].address(), "1.1.1.1:53"),
        None => panic!("a server is to be asked"),
    }
    let report = run.on_failure(&s.config.zones[0].plugins, "no route", 3, &mut metrics);
    assert_eq!(report, "Failed to connect to 1.1.1.1:53 for 'a.org': no route");
    assert!(run.stage == Stage::Exchange(3, 1));
    run.on_reply(&s.config.zones[0].plugins, reply(7, 0), 4, &mut metrics);
    assert!(run.stage == Stage::Inbound(4));
    assert!(run.asked(&s.config.zones[0].plugins).is_none());
    steps(&mut s, &mut run, 9, &mut metrics);
    assert!(run.stage == Stage::Done);
    assert!(metrics.iter().any(|m| m.family == Family::DnsRequestDuration));
    assert_eq!(run.answer(), Some(reply(7, 0)));
    // The next one is answered by the cache, and no server is asked.
    let mut run = QueryRun::start(from_client(query(8)), 0);
    steps(&mut s, &mut run, 10, &mut metrics);
    assert!(run.stage == Stage::Done);
    assert_eq!(run.msg.answered_by, "cache");
    assert_eq!(run.answer(), Some(reply(8, 0)));
}

#[test]
fn a_failover_code_asks_the_next_server() {
    let mut s = server(
        ". {\n forward . 1.1.1.1 2.2.2.2 {\n policy sequential\n failover SERVFAIL\n }\n}",
    );
    let mut metrics = Vec::new();
    let mut run = QueryRun::start(from_client(query(7)), 0);
    steps(&mut s, &mut run, 0, &mut metrics);
    run.on_reply(&s.config.zones[0].plugins, reply(7, 2), 1, &mut metrics);
    assert!(run.stage == Stage::Exchange(0, 1));
    run.on_reply(&s.config.zones[0].plugins, reply(7, 2), 1, &mut metrics);
    assert!(run.stage == Stage::Inbound(1));
    steps(&mut s, &mut run, 0, &mut metrics);
    assert!(run.stage == Stage::Done);
    assert_eq!(run.answer(), None);
}

#[test]
fn a_next_code_goes_to_the_next_tier() {
    let mut s = server(
        ". {\n forward . 1.1.1.1 {\n next NXDOMAIN\n }\n forward . 2.2.2.2\n}",
    );
    let mut metrics = Vec::new();
    let mut run = QueryRun::start(from_client(query(7)), 0);
    steps(&mut s, &mut run, 0, &mut metrics);
    assert!(run.stage == Stage::Exchange(0, 0));
    run.on_reply(&s.config.zones[0].plugins, reply(7, 3), 1, &mut metrics);
    steps(&mut s, &mut run, 0, &mut metrics);
    assert!(run.stage == Stage::Exchange(1, 0));
    run.on_failure(&s.config.zones[0].plugins, "x", 1, &mut metrics);
    steps(&mut s, &mut run, 0, &mut metrics);
    assert_eq!(run.answer(), Some(reply(7, 3)));
}

#[test]
fn a_halted_query_skips_the_rest() {
    let mut s = server(". {\n whoami\n prometheus\n forward . 1.1.1.1\n}");
    let mut metrics = Vec::new();
    let mut run = QueryRun::start(from_client(query(7)), 0);
    run.step(&mut s.config.zones[0].plugins, &mut s.shared.cache_preserve, 0, &mut metrics);
    assert!(run.stage == Stage::Inbound(1));
    assert!(run.msg.halt_chain);
    run.step(&mut s.config.zones[0].plugins, &mut s.shared.cache_preserve, 0, &mut metrics);
    assert!(run.stage == Stage::Outbound(3));
    steps(&mut s, &mut run, 0, &mut metrics);
    assert!(run.answer().is_some());
    // The answer was measured on the way out, the query was not on the way in.
    assert!(metrics.iter().any(|m| m.family == Family::DnsResponses));
    assert!(!metrics.iter().any(|m| m.family == Family::DnsRequests));
}

#[test]
fn permits_in_a_run() {
    let mut s = server(". {\n forward . 1.1.1.1 {\n max_concurrent 1\n }\n}");
    for granted in [true, false] {
        let mut metrics = Vec::new();
        let mut run = QueryRun::start(from_client(query(7)), 0);
        steps(&mut s, &mut run, 0, &mut metrics);
        assert!(run.stage == Stage::Permit(0));
        run.on_permit(&mut s.config.zones[0].plugins, granted, &mut metrics);
        if granted {
            assert!(run.stage == Stage::Exchange(0, 0));
        } else {
            assert!(run.stage == Stage::Inbound(1));
            steps(&mut s, &mut run, 0, &mut metrics);
            assert_eq!(run.answer(), Some(reply(7, 5)));
        }
    }
}

#[test]
fn runs_that_are_given_up() {
    let mut s = server(". {\n forward . 1.1.1.1\n prometheus\n}");
    let mut metrics = Vec::new();
    let mut run = QueryRun::start(from_client(query(7)), 0);
    steps(&mut s, &mut run, 0, &mut metrics);
    run.on_reply(&s.config.zones[0].plugins, vec![1, 2, 3], 1, &mut metrics);
    assert!(run.stage == Stage::Dropped);
    assert_eq!(run.answer(), None);

    let mut s = server(". {\n whoami\n}");
    let mut cut = query(7);
    cut.truncate(cut.len() - 2);
    let mut run = QueryRun::start(from_client(cut), 0);
    steps(&mut s, &mut run, 0, &mut metrics);
    assert!(run.stage == Stage::Dropped);

    let mut s = server(". {\n prometheus\n}");
    let mut msg = from_client(query(7));
    msg.raw_response = Some(vec![0, 0]);
    let mut run = QueryRun::start(msg, 0);
    steps(&mut s, &mut run, 0, &mut metrics);
    assert!(run.stage == Stage::Dropped);
}

#[test]
fn a_run_fits_only_the_plugins_it_speaks_of() {
    let s = server(". {\n log\n forward . 1.1.1.1\n}");
    let plugins = &s.config.zones[0].plugins;
    let mut run = QueryRun::start(from_client(query(7)), 0);
    assert!(matches!(plugins[1], PluginInstance::Forward(_)));
    for (stage, fits) in [
        (Stage::Inbound(2), true),
        (Stage::Inbound(3), false),
        (Stage::Outbound(2), true),
        (Stage::Outbound(3), false),
        (Stage::Permit(0), false),
        (Stage::Permit(1), true),
        (Stage::Permit(2), false),
        (Stage::Exchange(1, 0), false),
        (Stage::Done, true),
        (Stage::Dropped, true),
    ] {
        run.stage = stage;
        assert_eq!(run.fits_plugins(plugins), fits);
    }
    run.stage = Stage::Exchange(1, 0);
    run.order = vec![0];
    assert!(run.fits_plugins(plugins));
    run.order = vec![1];
    assert!(!run.fits_plugins(plugins));
}

#[test]
fn kept_answers_survive_a_reload() {
    let mut s = server(". {\n cache\n}");
    let mut metrics = Vec::new();
    let mut msg = from_client(query(7));
    msg.raw_response = Some(reply(7, 0));
    msg.halt_chain = true;
    let mut run = QueryRun::start(msg, 0);
    steps(&mut s, &mut run, 0, &mut metrics);
    let mut shared = SharedState::new_with_cache(s.shared.cache_preserve, "new".to_string());
    assert!(shared.error_rx);
    let config = match Config::parse(". {\n log\n cache\n}", &mut shared) {
        Ok(c) => c,
        Err(_) => panic!("a configuration is always readable"),
    };
    let mut s = DnsServer { config, shared };
    let mut run = QueryRun::start(from_client(query(9)), 0);
    steps(&mut s, &mut run, 1, &mut metrics);
    assert_eq!(run.answer(), Some(reply(9, 0)));
}

#[test]
fn the_first_zone_of_a_listener_answers() {
    let s = server(".:1053 {\n}\na.com:53 {\n}\nb.com:53 {\n}\n. {\n}");
    let listeners = s.listeners("127.0.0.1:5353");
    assert_eq!(listeners.len(), 2);
    assert_eq!(listeners[0].addr, "127.0.0.1:1053");
    assert_eq!(listeners[0].serving_zone(), 0);
    assert_eq!(listeners[1].addr, "127.0.0.1:53");
    assert_eq!(listeners[1].zones, vec![1, 2, 3]);
    assert_eq!(listeners[1].serving_zone(), 1);
}

#[test]
fn a_logged_query_is_reported_twice() {
    let mut s = server(". {\n log\n whoami\n}");
    let mut metrics = Vec::new();
    let mut run = QueryRun::start(from_client(query(0x1f)), 1_000_000);
    let mut lines = Vec::new();
    while matches!(run.stage, Stage::Inbound(_) | Stage::Outbound(_)) {
        let line = run.step(
            &mut s.config.zones[0].plugins,
            &mut s.shared.cache_preserve,
            13_345_678,
            &mut metrics,
        );
        lines.extend(line);
    }
    assert_eq!(
        lines,
        vec![
            "=> [Incoming Query] TxID: 0x001f",
            "<= [Outgoing Answer] TxID: 0x001f RCODE: NOERROR in 12.345ms",
        ]
    );
    let mut s = server(". {\n whoami\n}");
    let mut run = QueryRun::start(from_client(query(1)), 0);
    while matches!(run.stage, Stage::Inbound(_) | Stage::Outbound(_)) {
        let plugins = &mut s.config.zones[0].plugins;
        assert_eq!(run.step(plugins, &mut s.shared.cache_preserve, 0, &mut metrics), None);
    }
}

#[test]
fn measurements_name_the_zone_and_its_plugins() {
    let mut s = server("a.org:1053 {\n prometheus\n cache\n log\n}");
    let mut metrics = Vec::new();
    let mut run = QueryRun::start(from_client(query(1)), 0);
    steps(&mut s, &mut run, 0, &mut metrics);
    assert!(metrics[0].family == Family::DnsRequests);
    assert_eq!(metrics[0].labels, vec!["1", "udp", "dns://:1053", "A", "", "a.org"]);
    let on: Vec<(String, bool)> = metrics
        .iter()
        .filter(|m| m.family == Family::PluginEnabled)
        .map(|m| (m.labels[0].clone(), m.amount == Amount::Level(1)))
        .collect();
    assert_eq!(
        on,
        vec![
            ("cache".to_string(), true),
            ("errors".to_string(), false),
            ("forward".to_string(), false),
            ("log".to_string(), true),
            ("prometheus".to_string(), true),
        ]
    );
}
