use coredns_rust::config::PluginConfig;
use coredns_rust::metrics::{Amount, Family, Metric};
use coredns_rust::plugin::cache::CacheStore;
use coredns_rust::plugin::health::{health_response, listen_address, HealthPlugin};
use coredns_rust::plugin::log::{answer_line, incoming_line, LogPlugin};
use coredns_rust::plugin::prometheus::{
    get_port_from_msg, get_qtype_str, is_get_request, metrics_response, rcode_to_str, record_build,
    PrometheusPlugin,
};
use coredns_rust::plugin::stubs::DummyPlugin;
use coredns_rust::plugin::whoami::{can_introduce, WhoamiPlugin};
use coredns_rust::plugin::{Plugin, Progress, SharedState, ZoneScope};
use coredns_rust::types::{ClientAddr, ClientIp, DnsMessage};

fn query(name: &[u8], qtype: u16) -> Vec<u8> {
    let mut q = vec![0x12, 0x34, 1, 0, 0, 1, 0, 0, 0, 0, 0, 0];
    q.extend_from_slice(name);
    q.extend_from_slice(&qtype.to_be_bytes());
    q.extend_from_slice(&[0, 1]);
    q
}

fn message(qtype: u16) -> DnsMessage {
    let mut m = DnsMessage::default();
    m.raw_query = query(b"\x01a\x00", qtype);
    m.client_addr = Some(ClientAddr { ip: ClientIp::V4([10, 0, 0, 7]), port: 0x1234 });
    m.protocol = "udp".to_string();
    m.server_port = Some(1053);
    m
}

fn introduce(m: &mut DnsMessage) {
    let mut metrics: Vec<Metric> = Vec::new();
    let progress = WhoamiPlugin.process(m, &mut CacheStore::new(), 0, &mut metrics);
    assert!(matches!(progress, Progress::Passed));
    assert_eq!(metrics.len(), 0);
}

fn config(name: &str, args: &[&str]) -> PluginConfig {
    PluginConfig {
        name: name.to_string(),
        args: args.iter().map(|a| a.to_string()).collect(),
        block: Vec::new(),
    }
}

#[test]
fn a_client_learns_its_address() {
    let mut m = message(1);
    introduce(&mut m);
    let mut expected = vec![0x12, 0x34, 0x81, 0x80, 0, 1, 0, 0, 0, 0, 0, 2];
    expected.extend_from_slice(b"\x01a\x00\x00\x01\x00\x01");
    expected.extend_from_slice(&[0xc0, 0x0c, 0, 1, 0, 1, 0, 0, 0, 0, 0, 4, 10, 0, 0, 7]);
    expected.extend_from_slice(b"\x04_udp\xc0\x0c");
    expected.extend_from_slice(&[0, 0x21, 0, 1, 0, 0, 0, 0, 0, 7, 0, 0, 0, 0, 0x12, 0x34, 0]);
    assert_eq!(m.raw_response, Some(expected));
    assert!(m.halt_chain);
    assert_eq!(m.answered_by, "");
}

#[test]
fn a_client_over_tcp_and_ipv6_learns_its_address() {
    let mut m = message(28);
    let ip = [0x20, 1, 0xd, 0xb8, 0, 0, 0, 0, 0, 0, 0, 0, 0, 0, 0, 9];
    m.client_addr = Some(ClientAddr { ip: ClientIp::V6(ip), port: 53 });
    m.protocol = "tcp".to_string();
    introduce(&mut m);
    let mut expected = vec![0x12, 0x34, 0x81, 0x80, 0, 1, 0, 0, 0, 0, 0, 2];
    expected.extend_from_slice(b"\x01a\x00\x00\x1c\x00\x01");
    expected.extend_from_slice(&[0xc0, 0x0c, 0, 0x1c, 0, 1, 0, 0, 0, 0, 0, 0x10]);
    expected.extend_from_slice(&ip);
    expected.extend_from_slice(b"\x04_tcp\xc0\x0c");
    expected.extend_from_slice(&[0, 0x21, 0, 1, 0, 0, 0, 0, 0, 7, 0, 0, 0, 0, 0, 53, 0]);
    assert_eq!(m.raw_response, Some(expected));
}

#[test]
fn other_messages_are_not_introduced() {
    let mut other = message(15);
    introduce(&mut other);
    assert_eq!(other.raw_response, None);
    let mut unknown = message(1);
    unknown.client_addr = None;
    introduce(&mut unknown);
    assert_eq!(unknown.raw_response, None);
    let mut halted = message(1);
    halted.halt_chain = true;
    introduce(&mut halted);
    assert_eq!(halted.raw_response, None);
    let mut short = message(1);
    short.raw_query.truncate(16);
    introduce(&mut short);
    assert_eq!(short.raw_response, None);
}

#[test]
fn a_question_without_a_class_cannot_be_introduced() {
    let mut m = message(1);
    assert!(can_introduce(&m));
    m.raw_query.truncate(18);
    assert!(!can_introduce(&m));
    m.raw_query[16] = 9;
    assert!(can_introduce(&m));
}

#[test]
fn listeners_on_all_interfaces() {
    assert_eq!(listen_address(&vec![], ":8080"), "0.0.0.0:8080");
    assert_eq!(listen_address(&vec!["9000".to_string()], ":8080"), "0.0.0.0:9000");
    assert_eq!(listen_address(&vec![":9000".to_string()], ":8080"), "0.0.0.0:9000");
    let mut shared = SharedState::new_with_cache(CacheStore::new(), String::new());
    match HealthPlugin::from_config(&config("health", &[]), &mut shared) {
        Ok(p) => assert_eq!(p.addr, "0.0.0.0:8080"),
        Err(_) => panic!("health can always be configured"),
    }
    match PrometheusPlugin::from_config(&config("prometheus", &[]), &mut shared) {
        Ok(p) => assert_eq!(p.addr, "0.0.0.0:9153"),
        Err(_) => panic!("measuring can always be configured"),
    }
    match PrometheusPlugin::from_config(&config("prometheus", &["1", "2"]), &mut shared) {
        Ok(p) => assert_eq!(p.addr, "0.0.0.0:1"),
        Err(_) => panic!("measuring can always be configured"),
    }
}

#[test]
fn the_server_is_alive() {
    assert_eq!(
        health_response(),
        b"HTTP/1.1 200 OK\r\nContent-Type: text/plain\r\nContent-Length: 2\r\n\r\nOK".to_vec()
    );
}

fn measuring() -> PrometheusPlugin {
    PrometheusPlugin { addr: String::new(), zone: ".".to_string(), plugins: None }
}

#[test]
fn a_query_over_tcp_is_measured_as_such() {
    let mut m = message(28);
    m.raw_query = vec![0; 12];
    m.raw_query.extend_from_slice(&[1, 0x61, 0, 0, 28, 0, 1]);
    m.protocol = "tcp".to_string();
    let mut ip = [0; 16];
    ip[15] = 1;
    m.client_addr = Some(ClientAddr { ip: ClientIp::V6(ip), port: 4000 });
    let mut metrics = Vec::new();
    measuring().process(&mut m, &mut CacheStore::new(), 5, &mut metrics);
    assert_eq!(metrics[0].labels, vec!["2", "tcp", "dns://:1053", "AAAA", "", "."]);
    assert_eq!(metrics[1].labels, vec!["tcp", "dns://:1053", "", "."]);
    m.raw_response = Some(vec![0; 4]);
    measuring().post_process(&mut m, &mut CacheStore::new(), 6, &mut metrics);
    assert!(metrics[8].family == Family::DnsResponseSize);
    assert_eq!(metrics[8].labels, vec!["udp", "dns://:1053", "", "."]);
}

#[test]
fn answers_are_measured_for_the_server_as_a_whole() {
    let p = PrometheusPlugin { zone: "a.org".to_string(), ..measuring() };
    let mut m = message(1);
    m.protocol = "tcp".to_string();
    m.start_time = Some(1);
    m.raw_response = Some(vec![0; 4]);
    let mut metrics = Vec::new();
    p.post_process(&mut m, &mut CacheStore::new(), 6, &mut metrics);
    assert_eq!(metrics[0].labels, vec!["dns://:1053", "", "a.org"]);
    assert_eq!(metrics[1].labels, vec!["udp", "dns://:1053", "", "."]);
    assert_eq!(metrics[2].labels, vec!["unknown", "NOERROR", "dns://:1053", "", "."]);
}

#[test]
fn zones_and_plugins_by_name() {
    let mut shared = SharedState::new_with_cache(CacheStore::new(), String::new());
    for (name, label) in [("a.org:53", "a.org"), (".", "."), (".:1053", "."), ("x:y:z", "x:y")] {
        shared.zone = Some(ZoneScope {
            name: name.to_string(),
            plugins: vec!["prometheus".to_string(), "forward".to_string()],
        });
        match PrometheusPlugin::from_config(&config("prometheus", &[]), &mut shared) {
            Ok(mut p) => {
                assert_eq!(p.zone, label);
                let mut metrics = Vec::new();
                p.process(&mut message(1), &mut CacheStore::new(), 5, &mut metrics);
                assert_eq!(metrics[2].labels, vec!["cache", "dns://:1053", "", label]);
                assert!(metrics[2].amount == Amount::Level(0));
                assert!(metrics[4].amount == Amount::Level(1));
            }
            Err(_) => panic!("measuring can always be configured"),
        }
    }
}

#[test]
fn answers_are_logged_with_time_and_code() {
    assert_eq!(
        answer_line(0xabcd, &Some(vec![0, 0, 0x81, 0x83]), 5_000_999),
        "<= [Outgoing Answer] TxID: 0xabcd RCODE: NXDOMAIN in 5.000ms"
    );
    assert_eq!(
        answer_line(1, &Some(vec![0, 0]), 7_000),
        "<= [Outgoing Answer] TxID: 0x0001 RCODE: NONE in 0.007ms"
    );
    assert_eq!(
        answer_line(1, &None, 1_234_567_890),
        "<= [Outgoing Answer] TxID: 0x0001 RCODE: NONE in 1234.567ms"
    );
}

#[test]
fn queries_are_measured() {
    let mut p = measuring();
    let mut m = message(28);
    let mut metrics = Vec::new();
    p.process(&mut m, &mut CacheStore::new(), 77, &mut metrics);
    assert_eq!(m.start_time, Some(77));
    assert_eq!(metrics.len(), 7);
    assert!(metrics[0].family == Family::DnsRequests);
    assert_eq!(metrics[0].labels, vec!["1", "udp", "dns://:1053", "AAAA", "", "."]);
    assert!(metrics[1].family == Family::DnsRequestSize);
    assert!(metrics[1].amount == Amount::Observe(19));
    let on: Vec<&str> = metrics[2..].iter().map(|s| s.labels[0].as_str()).collect();
    assert_eq!(on, vec!["cache", "errors", "forward", "log", "prometheus"]);
    assert!(metrics[2..].iter().all(|s| s.family == Family::PluginEnabled));
    assert!(metrics[6].amount == Amount::Level(1));
    m.client_addr = Some(ClientAddr { ip: ClientIp::V6([0; 16]), port: 1 });
    m.server_port = None;
    p.process(&mut m, &mut CacheStore::new(), 78, &mut metrics);
    assert_eq!(metrics[7].labels, vec!["2", "udp", "dns://:53", "AAAA", "", "."]);
}

#[test]
fn answers_are_measured() {
    let p = measuring();
    let mut m = message(1);
    let mut metrics = Vec::new();
    p.post_process(&mut m, &mut CacheStore::new(), 100, &mut metrics);
    assert_eq!(metrics.len(), 0);
    m.start_time = Some(60);
    m.raw_response = Some(vec![0, 0, 0x81, 0x83]);
    p.post_process(&mut m, &mut CacheStore::new(), 100, &mut metrics);
    assert_eq!(metrics.len(), 3);
    assert!(metrics[0].family == Family::DnsRequestDuration);
    assert!(metrics[0].amount == Amount::ObserveNanos(40));
    assert!(metrics[1].amount == Amount::Observe(4));
    assert_eq!(metrics[2].labels, vec!["unknown", "NXDOMAIN", "dns://:1053", "", "."]);
    m.answered_by = "cache".to_string();
    p.post_process(&mut m, &mut CacheStore::new(), 10, &mut metrics);
    assert!(metrics[3].amount == Amount::ObserveNanos(0));
    assert_eq!(metrics[5].labels[0], "cache");
}

#[test]
fn names_of_codes_and_types() {
    let codes = ["NOERROR", "FORMERR", "SERVFAIL", "NXDOMAIN", "NOTIMP", "REFUSED", "UNKNOWN"];
    for (i, name) in codes.iter().enumerate() {
        assert_eq!(rcode_to_str(i as u8), *name);
    }
    assert_eq!(rcode_to_str(255), "UNKNOWN");
    for (t, name) in [
        (1, "A"),
        (28, "AAAA"),
        (33, "SRV"),
        (5, "CNAME"),
        (15, "MX"),
        (16, "TXT"),
        (2, "NS"),
        (6, "SOA"),
        (12, "PTR"),
        (255, "ANY"),
        (65, "OTHER"),
        (0, "OTHER"),
    ] {
        assert_eq!(get_qtype_str(&query(b"\x01a\x00", t)), name);
    }
    assert_eq!(get_qtype_str(&[0; 11]), "UNKNOWN");
    assert_eq!(get_qtype_str(&[0; 14]), "UNKNOWN");
    assert_eq!(get_qtype_str(&[0; 15]), "OTHER");
    assert_eq!(get_port_from_msg(&message(1)), 1053);
    assert_eq!(get_port_from_msg(&DnsMessage::default()), 53);
}

#[test]
fn scrapers() {
    assert!(is_get_request(4, b"GET /metrics"));
    assert!(!is_get_request(0, b"GET /metrics"));
    assert!(!is_get_request(4, b"POST /"));
    assert!(!is_get_request(3, b"GET"));
    assert_eq!(
        metrics_response(b"x 1\n"),
        b"HTTP/1.1 200 OK\r\nContent-Type: text/plain; version=0.0.4\r\nContent-Length: 4\r\nConnection: close\r\n\r\nx 1\n".to_vec()
    );
    let mut metrics = Vec::new();
    record_build(&mut metrics, "r1", "0.1.0");
    assert!(metrics[0].family == Family::BuildInfo);
    assert_eq!(metrics[0].labels, vec!["rustc", "r1", "0.1.0"]);
    assert!(metrics[0].amount == Amount::Level(1));
}

#[test]
fn log_and_dummy_let_everything_pass() {
    let mut m = message(1);
    let mut metrics = Vec::new();
    let mut store = CacheStore::new();
    let mut log = LogPlugin { zones: Vec::new() };
    assert!(matches!(log.process(&mut m, &mut store, 0, &mut metrics), Progress::Passed));
    assert!(matches!(DummyPlugin.process(&mut m, &mut store, 0, &mut metrics), Progress::Passed));
    log.post_process(&mut m, &mut store, 0, &mut metrics);
    assert_eq!(m.raw_response, None);
    assert_eq!(metrics.len(), 0);
    let mut shared = SharedState::new_with_cache(CacheStore::new(), String::new());
    match LogPlugin::from_config(&config("log", &["a", "b.org"]), &mut shared) {
        Ok(p) => assert_eq!(p.zones, vec!["a", "b.org"]),
        Err(_) => panic!("logging can always be configured"),
    }
    for id in [0u16, 0xab, 0x1234, 0xffff] {
        assert_eq!(incoming_line(id), format!("=> [Incoming Query] TxID: {:#06x}", id));
    }
}
