use coredns_rust::config::PluginConfig;
use coredns_rust::metrics::{Amount, Family};
use coredns_rust::plugin::cache::CacheStore;
use coredns_rust::plugin::reload::{
    hash_content, parse_duration, FileWatch, ReloadPlugin, WatchStep,
};
use coredns_rust::plugin::{Plugin, SharedState};

fn plugin(args: &[&str]) -> ReloadPlugin {
    let mut shared = SharedState::new_with_cache(CacheStore::new(), "/a/Corefile".to_string());
    let config = PluginConfig {
        name: "reload".to_string(),
        args: args.iter().map(|a| a.to_string()).collect(),
        block: Vec::new(),
    };
    match ReloadPlugin::from_config(&config, &mut shared) {
        Ok(p) => p,
        Err(_) => panic!("reloading can always be configured"),
    }
}

fn times(args: &[&str]) -> (u128, u128) {
    let p = plugin(args);
    (p.interval, p.jitter)
}

const EMPTY: &str = "cf83e1357eefb8bdf1542850d66d8007d620e4050b5715dc83f4a921d36ce9ce47d0d13c5d85f2b0ff8318d2877eec2f63b931bd47417a81a538327af927da3e";
const ABC: &str = "ddaf35a193617abacc417349ae20413112e6fa4e89a97ea20a9eeee64b55d39a2192992a274fc1a836ba3c23a3feebbd454d4423643ce80e2a9ac94fa54ca49f";

#[test]
fn intervals() {
    assert_eq!(times(&[]), (30_000, 15_000));
    assert_eq!(times(&["5s"]), (5_000, 2_500));
    assert_eq!(times(&["1s"]), (2_000, 1_000));
    assert_eq!(times(&["1m", "5s"]), (60_000, 5_000));
    assert_eq!(times(&["1m", "1ms"]), (60_000, 1_000));
    assert_eq!(times(&["2001ms", "9s"]), (2_001, 1_000));
    assert_eq!(times(&["x", "y"]), (30_000, 15_000));
    assert_eq!(times(&["1h", "1h"]), (3_600_000, 1_800_000));
    assert_eq!(plugin(&[]).path, "/a/Corefile");
    assert_eq!(parse_duration("1h"), Some(3_600_000));
}

#[test]
fn pauses() {
    let p = plugin(&["10s", "3s"]);
    assert!(p.has_fitting_times());
    assert_eq!(p.pause_for(0), 7_000);
    assert_eq!(p.pause_for(3_000), 10_000);
    assert_eq!(p.pause_for(6_000), 13_000);
    for _ in 0..200 {
        let pause = p.next_pause();
        assert!(7_000 <= pause && pause <= 13_000);
    }
    assert!(!plugin(&["18446744073709551615s"]).has_fitting_times());
}

#[test]
fn fingerprints() {
    assert_eq!(hash_content(b""), EMPTY);
    assert_eq!(hash_content(b"abc"), ABC);
}

#[test]
fn a_change_reloads() {
    let mut metrics = Vec::new();
    let w = FileWatch::start(Some(&Vec::new()), &mut metrics);
    assert_eq!(w.hash, EMPTY);
    assert!(w.on_look(Some(&Vec::new()), &mut metrics) == WatchStep::Watch);
    assert_eq!(metrics.len(), 1);
    assert!(w.on_look(Some(&b"abc".to_vec()), &mut metrics) == WatchStep::Reload);
    assert_eq!(metrics.len(), 3);
    assert!(metrics.iter().all(|m| m.family == Family::ReloadVersionInfo));
    assert_eq!(metrics[0].labels, vec!["sha512", EMPTY]);
    assert!(metrics[0].amount == Amount::Level(1));
    assert_eq!(metrics[1].labels, vec!["sha512", EMPTY]);
    assert!(metrics[1].amount == Amount::Level(0));
    assert_eq!(metrics[2].labels, vec!["sha512", ABC]);
    assert!(metrics[2].amount == Amount::Level(1));
}

#[test]
fn an_unreadable_file_is_counted() {
    let mut metrics = Vec::new();
    let w = FileWatch::start(None, &mut metrics);
    assert_eq!(w.hash, "");
    assert_eq!(metrics[0].labels, vec!["sha512", ""]);
    assert!(w.on_look(None, &mut metrics) == WatchStep::Watch);
    assert!(metrics[1].family == Family::ReloadFailed);
    assert!(metrics[1].amount == Amount::Inc);
    assert!(w.on_hash("", &mut metrics) == WatchStep::Watch);
    assert!(w.on_look(Some(&Vec::new()), &mut metrics) == WatchStep::Reload);
}
