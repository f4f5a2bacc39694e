use coredns_rust::config::{unreadable_file, Config, PluginConfig, Token};
use coredns_rust::plugin::cache::CacheStore;
use coredns_rust::plugin::errors::ErrorsPlugin;
use coredns_rust::plugin::{create_plugin, PluginError, PluginInstance, SharedState};

fn shared() -> SharedState {
    SharedState::new_with_cache(CacheStore::new(), "/etc/Corefile".to_string())
}

fn parse(content: &str) -> Config {
    match Config::parse(content, &mut shared()) {
        Ok(c) => c,
        Err(_) => panic!("a configuration is always readable"),
    }
}

fn names(c: &Config, zone: usize) -> Vec<&'static str> {
    c.zones[zone].plugins.iter().map(|p| p.name()).collect()
}

fn text(s: &str) -> Token {
    Token::Text(s.to_string())
}

fn directive(name: &str) -> PluginConfig {
    PluginConfig { name: name.to_string(), args: Vec::new(), block: Vec::new() }
}

#[test]
fn tokens() {
    assert_eq!(
        Config::lex(".:53 {\n  log # all of it {\n  \"a b\" c\"d\"}\n"),
        vec![
            text(".:53"),
            Token::OpenBrace,
            Token::Newline,
            text("log"),
            Token::Newline,
            text("a b"),
            text("c"),
            text("d"),
            Token::CloseBrace,
            Token::Newline,
        ]
    );
}

#[test]
fn an_open_quotation_ends_with_the_input() {
    assert_eq!(Config::lex("a \"b\nc"), vec![text("a"), text("b\nc")]);
    assert_eq!(Config::lex("\""), vec![text("")]);
    assert_eq!(Config::lex(""), Vec::new());
}

#[test]
fn comments_and_blanks_are_invisible() {
    assert_eq!(Config::lex("a # b \"c\" {\nd"), Config::lex("a\nd"));
    assert_eq!(Config::lex("a\t \u{3000}b\r"), Config::lex("a b"));
    assert_eq!(Config::lex("# nothing else"), Vec::new());
    assert_eq!(Config::lex("ab#c\n"), Config::lex("ab\n"));
    assert_eq!(Config::lex("\"x\"#c"), Config::lex("\"x\""));
    assert_eq!(Config::lex("\"x#c\""), vec![text("x#c")]);
}

#[test]
fn blocks_nest() {
    let tokens = Config::lex("cache 60 x {\n success 1 2\n denial {\n deep\n }\n}\nlog\n}\nrest");
    let (plugins, end) = Config::parse_block(&tokens, 0);
    assert_eq!(plugins.len(), 2);
    assert_eq!(plugins[0].name, "cache");
    assert_eq!(plugins[0].args, vec!["60".to_string(), "x".to_string()]);
    assert_eq!(plugins[0].block.len(), 2);
    assert_eq!(plugins[0].block[0].args, vec!["1".to_string(), "2".to_string()]);
    assert_eq!(plugins[0].block[1].block[0].name, "deep");
    assert_eq!(plugins[1].name, "log");
    assert!(tokens[end] == Token::Newline);
    assert!(tokens[end + 1] == text("rest"));
}

#[test]
fn stray_braces_are_passed_over() {
    let tokens = Config::lex("{ } log } x");
    let (plugins, end) = Config::parse_block(&tokens, 0);
    assert_eq!(plugins.len(), 0);
    assert_eq!(end, 2);
    let (plugins, end) = Config::parse_block(&tokens, 99);
    assert_eq!(plugins.len(), 0);
    assert_eq!(end, 99);
    let (plugins, end) = Config::parse_block(&tokens, 2);
    assert_eq!(plugins.len(), 1);
    assert_eq!(end, 4);
}

#[test]
fn names_on_one_line_share_a_block() {
    let c = parse("a.org b.org:53 {\n log\n}\n");
    assert_eq!(c.zones.len(), 2);
    assert_eq!(c.zones[0].name, "a.org");
    assert_eq!(c.zones[1].name, "b.org:53");
    assert_eq!(names(&c, 0), vec!["log"]);
    assert_eq!(names(&c, 1), vec!["log"]);
}

#[test]
fn names_of_an_earlier_line_are_forgotten() {
    let c = parse("a.org\nb.org {\n log\n}\n");
    assert_eq!(c.zones.len(), 1);
    assert_eq!(c.zones[0].name, "b.org");
}

#[test]
fn a_block_without_a_name_makes_no_zone() {
    assert_eq!(parse("{\n log\n}\n").zones.len(), 0);
    assert_eq!(parse("").zones.len(), 0);
    assert_eq!(parse(". {").zones.len(), 1);
}

#[test]
fn plugins_are_ordered_by_rank() {
    let all = ". {\n dummy\n health\n forward\n cache\n prometheus\n reload\n whoami\n errors\n log\n}";
    let c = parse(all);
    let order = vec![
        "log", "errors", "whoami", "reload", "prometheus", "cache", "forward", "health", "dummy",
    ];
    assert_eq!(names(&c, 0), order);
    let ranks: Vec<u8> = c.zones[0].plugins.iter().map(|p| p.priority()).collect();
    assert_eq!(ranks, vec![255, 220, 200, 190, 150, 120, 100, 10, 0]);
    let other = ". {\n cache\n log\n whoami\n forward\n dummy\n errors\n reload\n prometheus\n health\n}";
    assert_eq!(names(&parse(other), 0), order);
}

#[test]
fn plugins_of_one_rank_keep_their_order() {
    let c = parse(". {\n forward . 1.1.1.1\n log\n forward . 2.2.2.2\n forward . 3.3.3.3\n}");
    let mut ips = Vec::new();
    for p in &c.zones[0].plugins {
        if let PluginInstance::Forward(f) = p {
            ips.push(f.upstreams[0].ip.clone());
        }
    }
    assert_eq!(ips, vec!["1.1.1.1", "2.2.2.2", "3.3.3.3"]);
}

#[test]
fn unknown_plugins_are_passed_over() {
    let c = parse(". {\n nonsense a b\n log\n Log\n}");
    assert_eq!(names(&c, 0), vec!["log"]);
}

#[test]
fn an_unknown_plugin_is_an_error() {
    match create_plugin(&directive("nonsense"), &mut shared()) {
        Err(e) => {
            assert_eq!(e.message(), "Unknown plugin: nonsense");
            let PluginError::Unknown(name) = e;
            assert_eq!(name, "nonsense");
        }
        Ok(_) => panic!("there is no such plugin"),
    }
}

#[test]
fn every_known_name_makes_its_plugin() {
    for name in [
        "cache", "forward", "prometheus", "log", "errors", "reload", "health", "whoami", "dummy",
    ] {
        match create_plugin(&directive(name), &mut shared()) {
            Ok(p) => assert_eq!(p.name(), name),
            Err(_) => panic!("{} is known", name),
        }
    }
}

fn reads(p: &PluginInstance) -> Option<bool> {
    match p {
        PluginInstance::Errors(ErrorsPlugin { active, .. }) => Some(*active),
        _ => None,
    }
}

#[test]
fn only_the_first_errors_plugin_reads_the_reports() {
    let mut s = shared();
    let c = Config::parse("a {\n log\n}\nb c {\n errors\n errors\n}", &mut s);
    let c = match c {
        Ok(c) => c,
        Err(_) => panic!("a configuration is always readable"),
    };
    assert_eq!(reads(&c.zones[1].plugins[0]), Some(true));
    assert_eq!(reads(&c.zones[1].plugins[1]), Some(false));
    assert_eq!(reads(&c.zones[2].plugins[0]), Some(false));
    assert!(!s.error_rx);
    assert_eq!(s.config_path, "/etc/Corefile");
}

#[test]
fn the_example_of_the_manual() {
    let c = parse(
        ".:1053 {\n    log\n    cache {\n      success 50000\n      denial 25000\n    }\n    prometheus :9153\n    errors {\n        # Fold timeout errors within 5 minutes into a single warning\n        consolidate 5m \".* i/o timeout$\" warning\n    }\n    forward . 119.29.29.29 223.5.5.5 114.114.114.114 {\n        policy sequential\n        health_check 1s\n        max_fails 3\n        max_concurrent 100000\n    }\n}\n\n. {\n    reload 5s\n    health :8100\n}\n",
    );
    assert_eq!(c.zones.len(), 2);
    assert_eq!(names(&c, 0), vec!["log", "errors", "prometheus", "cache", "forward"]);
    assert_eq!(names(&c, 1), vec!["reload", "health"]);
    match &c.zones[0].plugins[1] {
        PluginInstance::Errors(e) => {
            assert_eq!(e.rules.len(), 1);
            assert_eq!(e.rules[0].pattern.as_str(), ".* i/o timeout$");
            assert_eq!(e.rules[0].duration, 300_000);
            assert_eq!(e.rules[0].level, "warning");
            assert!(!e.rules[0].show_first);
        }
        _ => panic!("the second plugin folds errors"),
    }
    match &c.zones[0].plugins[3] {
        PluginInstance::Cache(k) => {
            assert_eq!((k.success_ttl, k.denial_ttl, k.servfail_ttl), (3600, 1800, 5));
        }
        _ => panic!("the fourth plugin is the cache"),
    }
    match &c.zones[1].plugins[1] {
        PluginInstance::Health(h) => assert_eq!(h.addr, "0.0.0.0:8100"),
        _ => panic!("the second plugin tells the health"),
    }
}

#[test]
fn an_unreadable_file_is_named() {
    assert_eq!(
        unreadable_file("/etc/Corefile", "not found"),
        "Failed to read config file '/etc/Corefile': not found"
    );
}
