use coredns_rust::config::PluginConfig;
use coredns_rust::metrics::{Amount, Family, Metric};
use coredns_rust::plugin::cache::{
    extract_question_bytes, settle, CachePlugin, CacheStore, CachedItem, Lookup,
};
use coredns_rust::plugin::{Plugin, SharedState};
use coredns_rust::types::DnsMessage;

const SECOND: u128 = 1_000_000_000;

fn query(id: u16, name: &[u8]) -> Vec<u8> {
    let mut q = id.to_be_bytes().to_vec();
    q.extend_from_slice(&[1, 0, 0, 1, 0, 0, 0, 0, 0, 0]);
    q.extend_from_slice(name);
    q.extend_from_slice(&[0, 1, 0, 1]);
    q
}

fn message(id: u16, name: &[u8]) -> DnsMessage {
    let mut m = DnsMessage::default();
    m.raw_query = query(id, name);
    m.server_port = Some(1053);
    m
}

fn answered(id: u16, name: &[u8], rcode: u8) -> DnsMessage {
    let mut m = message(id, name);
    let mut r = m.raw_query.clone();
    r[2] |= 0x80;
    r[3] = rcode;
    r.push(99);
    m.raw_response = Some(r);
    m
}

fn plugin() -> CachePlugin {
    CachePlugin { success_ttl: 10, denial_ttl: 4, servfail_ttl: 2 }
}

fn ask(p: &mut CachePlugin, store: &mut CacheStore, m: &mut DnsMessage, now: u128) -> Vec<Metric> {
    let mut metrics = Vec::new();
    p.process(m, store, now, &mut metrics);
    metrics
}

fn keep(p: &CachePlugin, store: &mut CacheStore, m: &mut DnsMessage, now: u128) -> Vec<Metric> {
    let mut metrics = Vec::new();
    p.post_process(m, store, now, &mut metrics);
    metrics
}

const NAME: &[u8] = b"\x01a\x03org\x00";
const OTHER: &[u8] = b"\x01b\x03org\x00";

#[test]
fn a_success_is_handed_out_until_it_is_stale() {
    let mut p = plugin();
    let mut store = CacheStore::new();
    let metrics = keep(&p, &mut store, &mut answered(1, NAME, 0), 0);
    assert_eq!(metrics.len(), 1);
    assert!(metrics[0].family == Family::CacheEntries);
    assert_eq!(metrics[0].labels, vec!["dns://:1053", "success", "", "."]);
    let mut m = message(0xabcd, NAME);
    let metrics = ask(&mut p, &mut store, &mut m, 10 * SECOND - 1);
    let mut expected = answered(1, NAME, 0).raw_response.unwrap();
    expected[0] = 0xab;
    expected[1] = 0xcd;
    assert_eq!(m.raw_response, Some(expected));
    assert!(m.halt_chain);
    assert_eq!(m.answered_by, "cache");
    assert_eq!(metrics.len(), 2);
    assert!(metrics[0].family == Family::CacheRequests);
    assert_eq!(metrics[0].labels, vec!["dns://:1053", "", "."]);
    assert!(metrics[1].family == Family::CacheHits);
    assert_eq!(metrics[1].labels, vec!["dns://:1053", "success", "", "."]);
    assert!(metrics[1].amount == Amount::Inc);
    let mut late = message(2, NAME);
    let metrics = ask(&mut p, &mut store, &mut late, 10 * SECOND);
    assert_eq!(late.raw_response, None);
    assert!(!late.halt_chain);
    assert!(metrics[1].family == Family::CacheMisses);
    assert_eq!(metrics[1].labels, vec!["dns://:1053", "", "."]);
    // The stale answer is gone, whatever the clock says.
    let mut again = message(3, NAME);
    ask(&mut p, &mut store, &mut again, 0);
    assert_eq!(again.raw_response, None);
}

#[test]
fn denials_and_failures_have_times_of_their_own() {
    let mut p = plugin();
    for (rcode, seconds) in [(3u8, 4u128), (2, 2)] {
        let mut store = CacheStore::new();
        let metrics = keep(&p, &mut store, &mut answered(1, NAME, rcode), 5);
        assert_eq!(metrics[0].labels, vec!["dns://:1053", "denial", "", "."]);
        let mut m = message(2, NAME);
        let metrics = ask(&mut p, &mut store, &mut m, seconds * SECOND + 4);
        assert_eq!(m.raw_response.unwrap()[3] & 0x0f, rcode);
        assert_eq!(metrics[1].labels, vec!["dns://:1053", "denial", "", "."]);
        let mut late = message(2, NAME);
        ask(&mut p, &mut store, &mut late, seconds * SECOND + 5);
        assert_eq!(late.raw_response, None);
    }
}

#[test]
fn a_fresh_success_comes_before_a_denial() {
    let mut p = plugin();
    let mut store = CacheStore::new();
    keep(&p, &mut store, &mut answered(1, NAME, 0), 0);
    keep(&p, &mut store, &mut answered(1, NAME, 3), 8 * SECOND);
    let mut m = message(2, NAME);
    ask(&mut p, &mut store, &mut m, 9 * SECOND);
    assert_eq!(m.raw_response.unwrap()[3], 0);
    let mut m = message(2, NAME);
    ask(&mut p, &mut store, &mut m, 11 * SECOND);
    assert_eq!(m.raw_response.unwrap()[3], 3);
}

#[test]
fn other_codes_are_not_kept() {
    let mut p = plugin();
    let mut store = CacheStore::new();
    assert_eq!(keep(&p, &mut store, &mut answered(1, NAME, 5), 0).len(), 0);
    let mut m = message(2, NAME);
    ask(&mut p, &mut store, &mut m, 0);
    assert_eq!(m.raw_response, None);
    p.servfail_ttl = 0;
    assert_eq!(keep(&p, &mut store, &mut answered(1, NAME, 2), 0).len(), 0);
    ask(&mut p, &mut store, &mut m, 0);
    assert_eq!(m.raw_response, None);
}

#[test]
fn other_questions_have_other_answers() {
    let mut p = plugin();
    let mut store = CacheStore::new();
    keep(&p, &mut store, &mut answered(1, NAME, 0), 0);
    let mut m = message(2, OTHER);
    ask(&mut p, &mut store, &mut m, 1);
    assert_eq!(m.raw_response, None);
    keep(&p, &mut store, &mut answered(1, OTHER, 3), 1);
    let mut m = message(2, NAME);
    ask(&mut p, &mut store, &mut m, 1);
    assert_eq!(m.raw_response.unwrap()[3], 0);
}

#[test]
fn a_second_answer_takes_the_place_of_the_first() {
    let mut p = plugin();
    let mut store = CacheStore::new();
    keep(&p, &mut store, &mut answered(1, NAME, 0), 0);
    let mut second = answered(1, NAME, 0);
    if let Some(r) = &mut second.raw_response {
        r.push(77);
    }
    keep(&p, &mut store, &mut second, SECOND);
    let mut m = message(2, NAME);
    ask(&mut p, &mut store, &mut m, 10 * SECOND);
    assert_eq!(m.raw_response.unwrap().last(), Some(&77));
}

#[test]
fn a_full_shelf_of_questions_is_remembered() {
    let mut p = plugin();
    let mut store = CacheStore::new();
    for i in 0..2000u16 {
        let [a, b] = i.to_be_bytes();
        keep(&p, &mut store, &mut answered(1, &[2, a, b, 0], 0), 0);
    }
    for i in 0..2000u16 {
        let [a, b] = i.to_be_bytes();
        let mut m = message(i, &[2, a, b, 0]);
        ask(&mut p, &mut store, &mut m, 1);
        assert!(m.halt_chain);
    }
}

#[test]
fn halted_and_short_messages_are_left_alone() {
    let mut p = plugin();
    let mut store = CacheStore::new();
    keep(&p, &mut store, &mut answered(1, NAME, 0), 0);
    let mut halted = message(2, NAME);
    halted.halt_chain = true;
    assert_eq!(ask(&mut p, &mut store, &mut halted, 0).len(), 0);
    assert_eq!(halted.raw_response, None);
    let mut short = message(2, NAME);
    short.raw_query.truncate(11);
    assert_eq!(ask(&mut p, &mut store, &mut short, 0).len(), 0);
    let mut broken = message(2, NAME);
    broken.raw_query.truncate(14);
    assert_eq!(ask(&mut p, &mut store, &mut broken, 0).len(), 2);
    assert_eq!(broken.raw_response, None);
}

#[test]
fn the_question_is_the_key() {
    assert_eq!(extract_question_bytes(&query(7, NAME)), Some(query(9, NAME)[12..].to_vec()));
    let mut q = query(7, NAME);
    q.push(1);
    assert_eq!(extract_question_bytes(&q), Some(query(9, NAME)[12..].to_vec()));
    q.truncate(q.len() - 2);
    assert_eq!(extract_question_bytes(&q), None);
    assert_eq!(extract_question_bytes(&[0; 11]), None);
    assert_eq!(extract_question_bytes(&[0; 12]), None);
    assert_eq!(extract_question_bytes(&[0; 17]), Some(vec![0; 5]));
}

#[test]
fn what_a_lookup_brings() {
    let item = |expires_at| Some(CachedItem { response: vec![1, 2, 3, 4], expires_at });
    let mut metrics = Vec::new();
    let mut m = message(0x0506, NAME);
    assert!(settle(&mut m, None, 5, "s", "k", &mut metrics) == Lookup::Absent);
    assert!(settle(&mut m, item(5), 5, "s", "k", &mut metrics) == Lookup::Stale);
    assert_eq!(m.raw_response, None);
    assert_eq!(metrics.len(), 0);
    assert!(settle(&mut m, item(6), 5, "s", "k", &mut metrics) == Lookup::HandedOut);
    assert_eq!(m.raw_response, Some(vec![5, 6, 3, 4]));
    assert_eq!(metrics[0].labels, vec!["s", "k", "", "."]);
}

fn option(name: &str, args: &[&str]) -> PluginConfig {
    PluginConfig {
        name: name.to_string(),
        args: args.iter().map(|a| a.to_string()).collect(),
        block: Vec::new(),
    }
}

fn configured(block: Vec<PluginConfig>) -> (u64, u64, u64) {
    let mut shared = SharedState::new_with_cache(CacheStore::new(), String::new());
    let config = PluginConfig { name: "cache".to_string(), args: Vec::new(), block };
    match CachePlugin::from_config(&config, &mut shared) {
        Ok(p) => (p.success_ttl, p.denial_ttl, p.servfail_ttl),
        Err(_) => panic!("the cache can always be configured"),
    }
}

#[test]
fn lifetimes() {
    assert_eq!(configured(vec![]), (3600, 1800, 5));
    assert_eq!(
        configured(vec![
            option("success", &["9", "60"]),
            option("denial", &["9", "30"]),
            option("servfail", &["7s"]),
        ]),
        (60, 30, 7)
    );
    assert_eq!(
        configured(vec![
            option("success", &["60"]),
            option("denial", &["1", "x"]),
            option("servfail", &["0"]),
        ]),
        (3600, 1800, 0)
    );
    assert_eq!(
        configured(vec![
            option("servfail", &["9s"]),
            option("servfail", &["ss"]),
            option("success", &["1", "2"]),
            option("success", &["1", "3"]),
        ]),
        (3, 1800, 5)
    );
}
