use coredns_rust::config::PluginConfig;
use coredns_rust::plugin::cache::CacheStore;
use coredns_rust::plugin::errors::{
    level_of_lowercase, log_msg, parse_duration, Consolidator, ErrorsPlugin, Level,
};
use coredns_rust::plugin::{Plugin, SharedState};

fn option(name: &str, args: &[&str]) -> PluginConfig {
    PluginConfig {
        name: name.to_string(),
        args: args.iter().map(|a| a.to_string()).collect(),
        block: Vec::new(),
    }
}

fn plugin(block: Vec<PluginConfig>) -> ErrorsPlugin {
    let mut shared = SharedState::new_with_cache(CacheStore::new(), String::new());
    let mut config = option("errors", &[]);
    config.block = block;
    match ErrorsPlugin::from_config(&config, &mut shared) {
        Ok(p) => p,
        Err(_) => panic!("errors can always be configured"),
    }
}

#[test]
fn rules() {
    let p = plugin(vec![
        option("consolidate", &["5m", "timeout$", "warning"]),
        option("consolidate", &["x", "(", "info", "show_first", "debug"]),
        option("consolidate", &["1s"]),
        option("other", &["1s", "a"]),
        option("consolidate", &["1h", "a", "show_first"]),
    ]);
    assert!(p.active);
    assert_eq!(p.rules.len(), 3);
    assert_eq!(p.rules[0].pattern.as_str(), "timeout$");
    assert_eq!(p.rules[0].duration, 300_000);
    assert_eq!(p.rules[0].level, "warning");
    assert!(!p.rules[0].show_first);
    assert_eq!(p.rules[1].pattern.as_str(), ".*");
    assert_eq!(p.rules[1].raw_pattern, "(");
    assert_eq!(p.rules[1].duration, 30_000);
    assert_eq!(p.rules[1].level, "debug");
    assert!(p.rules[1].show_first);
    assert_eq!(p.rules[2].duration, 3_600_000);
    assert_eq!(p.rules[2].level, "error");
    assert!(p.rules[2].show_first);
}

#[test]
fn reports_are_folded_into_one() {
    let p = plugin(vec![option("consolidate", &["5m", "i/o timeout$", "warning"])]);
    let mut c = Consolidator::new(p.rules);
    let first = c.on_error("a: i/o timeout");
    assert!(first.log.is_none());
    assert_eq!(first.timer, Some((0, 300_000)));
    for _ in 0..4 {
        let next = c.on_error("b: i/o timeout");
        assert!(next.log.is_none());
        assert_eq!(next.timer, None);
    }
    let line = c.on_timeout(0).unwrap();
    assert!(line.level == Level::Warning);
    assert_eq!(line.text, "5 errors like 'i/o timeout$' occurred in last 300s");
    assert_eq!(c.counts, vec![0]);
    assert_eq!(c.on_error("c: i/o timeout").timer, Some((0, 300_000)));
    assert_eq!(
        c.on_timeout(0).unwrap().text,
        "1 errors like 'i/o timeout$' occurred in last 300s"
    );
    assert!(c.on_timeout(0).is_none());
}

#[test]
fn the_first_report_can_be_shown() {
    let p = plugin(vec![option("consolidate", &["1500ms", "refused", "INFO", "show_first"])]);
    let mut c = Consolidator::new(p.rules);
    let line = c.on_error("refused by a").log.unwrap();
    assert!(line.level == Level::Info);
    assert_eq!(line.text, "refused by a");
    assert!(c.on_timeout(0).is_none());
    c.on_error("refused by a");
    assert!(c.on_error("refused by b").log.is_none());
    assert_eq!(c.on_timeout(0).unwrap().text, "2 errors like 'refused' occurred in last 1.5s");
}

#[test]
fn the_first_rule_that_covers_a_report_counts_it() {
    let p = plugin(vec![
        option("consolidate", &["1s", "^a"]),
        option("consolidate", &["2s", "b$"]),
        option("consolidate", &["3s", "["]),
    ]);
    let mut c = Consolidator::new(p.rules);
    assert_eq!(c.on_error("ab").timer, Some((0, 1_000)));
    assert_eq!(c.on_error("xb").timer, Some((1, 2_000)));
    assert_eq!(c.on_error("x").timer, Some((2, 3_000)));
    assert_eq!(c.on_error("").timer, None);
    assert_eq!(c.counts, vec![1, 1, 2]);
    assert_eq!(c.on_timeout(2).unwrap().text, "2 errors like '[' occurred in last 3s");
}

#[test]
fn other_reports_are_passed_on() {
    let p = plugin(vec![option("consolidate", &["1s", "^a$"])]);
    let mut c = Consolidator::new(p.rules);
    let r = c.on_error("b");
    assert_eq!(r.timer, None);
    let line = r.log.unwrap();
    assert!(line.level == Level::Error);
    assert_eq!(line.text, "b");
    assert_eq!(c.counts, vec![0]);
    let mut none = Consolidator::new(Vec::new());
    assert_eq!(none.on_error("c").log.unwrap().text, "c");
}

#[test]
fn counts_wrap_around() {
    let p = plugin(vec![option("consolidate", &["1s", "a"])]);
    let mut c = Consolidator::new(p.rules);
    c.counts[0] = u32::MAX;
    assert_eq!(c.on_error("a").timer, None);
    assert_eq!(c.counts, vec![0]);
}

#[test]
fn levels_by_name() {
    for (name, level) in [
        ("warning", Level::Warning),
        ("warn", Level::Warning),
        ("info", Level::Info),
        ("debug", Level::Debug),
        ("error", Level::Error),
        ("", Level::Error),
    ] {
        assert!(level_of_lowercase(name) == level);
        let line = log_msg(&name.to_uppercase(), "text");
        assert!(line.level == level);
        assert_eq!(line.text, "text");
    }
    assert!(level_of_lowercase("WARN") == Level::Error);
    assert_eq!(parse_duration("2h"), Some(7_200_000));
}
