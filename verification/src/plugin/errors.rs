//! The errors plugin: reports of failures that look alike are folded into one.

use crate::config::{Directive, PluginConfig};
use crate::duration;
use crate::duration::{show_duration, MAX_MILLIS};
use crate::metrics::Metric;
use crate::outside;
use crate::outside::{compile, is_match, to_lowercase};
use crate::plugin::cache::CacheStore;
use crate::plugin::{Pass, Plugin, PluginError, Progress, Setting, SharedState};
use crate::text;
use crate::text::{decimal_text, same_text};
use crate::types::DnsMessage;
use regex::Regex;
use vstd::prelude::*;

verus! {

/// How loud a line of the log is.
#[derive(Debug, Clone, Copy, PartialEq, Eq, Structural)]
pub enum Level {
    Error,
    Warning,
    Info,
    Debug,
}

/// A line for the log.
#[derive(Debug)]
pub struct LogLine {
    pub level: Level,
    pub text: String,
}

/// The level that a name in lower case stands for; `Error` for any other name.
pub open spec fn level_called(name: Seq<char>) -> Level {
    if name == "warning"@ || name == "warn"@ {
        Level::Warning
    } else if name == "info"@ {
        Level::Info
    } else if name == "debug"@ {
        Level::Debug
    } else {
        Level::Error
    }
}

/// The level that a name in lower case stands for.
pub fn level_of_lowercase(name: &str) -> (r: Level)
    ensures
        r == level_called(name@),
{
    if same_text(name, "warning") || same_text(name, "warn") {
        Level::Warning
    } else if same_text(name, "info") {
        Level::Info
    } else if same_text(name, "debug") {
        Level::Debug
    } else {
        Level::Error
    }
}

/// The line of the log with a text, at the level that a name stands for in
/// any mixture of upper and lower case.
pub fn log_msg(level: &str, msg: &str) -> (r: LogLine)
    ensures
        r.text@ == msg@,
        r.level == level_called(outside::lowercase(level@)),
        vstd::utf8::is_ascii_chars(level@) ==> r.level == level_called(
            level@.map_values(|c: char| outside::ascii_lower(c)),
        ),
{
    let lower = to_lowercase(level);
    LogLine { level: level_of_lowercase(lower.as_str()), text: msg.to_owned() }
}

/// Reads a length of time with one of the units `ms`, `s`, `m` and `h`.
pub fn parse_duration(s: &str) -> (r: Option<u128>)
    ensures
        match duration::duration_of(s@, true) {
            Some(k) => r == Some(k as u128) && 0 <= k <= MAX_MILLIS,
            None => r is None,
        },
{
    duration::parse_duration(s, true)
}

/// A rule for folding: which reports it covers, over how long a time, and how
/// it reports them.
#[derive(Debug)]
pub struct Rule {
    /// The regular expression that is matched.
    pub pattern: Regex,
    /// The regular expression as it was written.
    pub raw_pattern: String,
    /// The time over which reports are counted, in milliseconds.
    pub duration: u128,
    pub level: String,
    /// Whether the first report is passed on at once.
    pub show_first: bool,
}

/// What a rule says.
pub struct RuleText {
    pub pattern: Regex,
    pub raw_pattern: Seq<char>,
    pub duration: u128,
    pub level: Seq<char>,
    pub show_first: bool,
}

impl View for Rule {
    type V = RuleText;

    open spec fn view(&self) -> RuleText {
        RuleText {
            pattern: self.pattern,
            raw_pattern: self.raw_pattern@,
            duration: self.duration,
            level: self.level@,
            show_first: self.show_first,
        }
    }
}

/// What each rule of a list says.
pub open spec fn rule_texts(v: Seq<Rule>) -> Seq<RuleText> {
    v.map_values(|r: Rule| r@)
}

/// Whether the counting times can be put into words.
pub open spec fn times_fit(rules: Seq<RuleText>) -> bool {
    forall|i: int| 0 <= i < rules.len() ==> (#[trigger] rules[i]).duration <= MAX_MILLIS
}

/// The level among the options of a rule: the last one that is not
/// `show_first`, or `error`.
pub open spec fn level_option(options: Seq<Seq<char>>) -> Seq<char>
    decreases options.len(),
{
    if options.len() == 0 {
        "error"@
    } else if options.last() == "show_first"@ {
        level_option(options.drop_last())
    } else {
        options.last()
    }
}

/// The rule of a `consolidate` directive with at least two arguments: a time
/// (30 seconds where it cannot be read), a regular expression (`.*` where it
/// does not compile), and options.
pub open spec fn rule_of(d: Directive) -> RuleText {
    let options = d.args.skip(2);
    RuleText {
        pattern: match outside::regex_of(d.args[1]) {
            Some(re) => re,
            None => outside::regex_of(".*"@)->0,
        },
        raw_pattern: d.args[1],
        duration: match duration::duration_of(d.args[0], true) {
            Some(ms) => ms as u128,
            None => 30_000,
        },
        level: level_option(options),
        show_first: options.contains("show_first"@),
    }
}

/// Whether a directive is a rule.
pub open spec fn is_rule(d: Directive) -> bool {
    d.name == "consolidate"@ && d.args.len() >= 2
}

/// The rules of a block, in order.
pub open spec fn rules_of(block: Seq<Directive>) -> Seq<RuleText>
    decreases block.len(),
{
    if block.len() == 0 {
        Seq::empty()
    } else if is_rule(block.last()) {
        rules_of(block.drop_last()).push(rule_of(block.last()))
    } else {
        rules_of(block.drop_last())
    }
}

/// Reads the rule of a directive.
fn read_rule(sub: &PluginConfig) -> (r: Rule)
    requires
        sub.args@.len() >= 2,
    ensures
        r@ == rule_of(sub@),
        r.duration <= MAX_MILLIS,
{
    let ghost args = sub@.args;
    let ghost options = args.skip(2);
    let duration: u128 = match parse_duration(sub.args[0].as_str()) {
        Some(ms) => ms,
        None => 30_000,
    };
    let raw_pattern = sub.args[1].clone();
    let pattern = match compile(raw_pattern.as_str()) {
        Some(re) => re,
        None => compile(".*").unwrap(),
    };
    let mut level = "error".to_owned();
    let mut show_first: bool = false;
    let mut i: usize = 2;
    assert(options.take(0) =~= Seq::empty());
    while i < sub.args.len()
        invariant
            2 <= i <= sub.args@.len(),
            args == text::texts(sub.args@),
            options == args.skip(2),
            level@ == level_option(options.take(i - 2)),
            show_first == options.take(i - 2).contains("show_first"@),
        decreases sub.args@.len() - i,
    {
        let ghost seen = options.take(i - 2);
        let ghost next = options.take(i - 1);
        proof {
            let option = sub.args@[i as int]@;
            assert(next =~= seen.push(option));
            assert(next.drop_last() =~= seen);
            assert(next[i - 2] == option);
            if seen.contains("show_first"@) {
                let k = choose|k: int| 0 <= k < seen.len() && seen[k] == "show_first"@;
                assert(next[k] == "show_first"@);
            }
            if next.contains("show_first"@) && option != "show_first"@ {
                let k = choose|k: int| 0 <= k < next.len() && next[k] == "show_first"@;
                assert(seen[k] == "show_first"@);
            }
        }
        if same_text(sub.args[i].as_str(), "show_first") {
            show_first = true;
        } else {
            level = sub.args[i].clone();
        }
        i = i + 1;
    }
    assert(options.take(i - 2) =~= options);
    Rule { pattern, raw_pattern, duration, level, show_first }
}

/// The number of the first rule from `i` on that covers a report.
pub open spec fn first_match(rules: Seq<RuleText>, report: Seq<char>, i: int) -> Option<int>
    decreases rules.len() - i,
    when 0 <= i
{
    if i >= rules.len() {
        None
    } else if outside::regex_matches(rules[i].pattern, report) {
        Some(i)
    } else {
        first_match(rules, report, i + 1)
    }
}

/// A covering rule has a valid number.
pub proof fn lemma_first_match(rules: Seq<RuleText>, report: Seq<char>, i: int)
    requires
        0 <= i,
    ensures
        first_match(rules, report, i) matches Some(k) ==> i <= k < rules.len()
            && outside::regex_matches(rules[k].pattern, report),
    decreases rules.len() - i,
{
    if i < rules.len() && !outside::regex_matches(rules[i].pattern, report) {
        lemma_first_match(rules, report, i + 1);
    }
}

/// One more than a count, which wraps around at its limit.
pub open spec fn one_more(n: u32) -> u32 {
    if n == u32::MAX {
        0
    } else {
        (n + 1) as u32
    }
}

/// What is to be done about a report or about the end of a counting time.
#[derive(Debug)]
pub struct Reaction {
    /// A line to be put into the log.
    pub log: Option<LogLine>,
    /// A rule whose counting time starts, and its length in milliseconds.
    pub timer: Option<(usize, u128)>,
}

/// The counts of reports by rule.
pub open spec fn counts_after(counts: Seq<u32>, rule: Option<int>) -> Seq<u32> {
    match rule {
        Some(i) => counts.update(i, one_more(counts[i])),
        None => counts,
    }
}

/// The summary of a counting time.
pub open spec fn summary(count: u32, raw_pattern: Seq<char>, duration: u128) -> Seq<char> {
    text::decimal(count as nat) + " errors like '"@ + raw_pattern + "' occurred in last "@
        + duration::duration_text(duration as nat)
}

/// What a line of the log says.
pub open spec fn said(line: Option<LogLine>) -> Option<(Level, Seq<char>)> {
    match line {
        Some(l) => Some((l.level, l.text@)),
        None => None,
    }
}

/// What a report leads to: the counts after it, a line for the log, and a rule
/// whose counting time starts.
pub open spec fn reacted(
    rules: Seq<RuleText>,
    counts: Seq<u32>,
    counts_now: Seq<u32>,
    report: Seq<char>,
    line: Option<(Level, Seq<char>)>,
    timer: Option<(usize, u128)>,
) -> bool {
    let covering = first_match(rules, report, 0);
    &&& counts_now == counts_after(counts, covering)
    &&& match covering {
        None => line == Some((Level::Error, report)) && timer is None,
        Some(i) => if counts_now[i] == 1 {
            &&& timer == Some((i as usize, rules[i].duration))
            &&& line == if rules[i].show_first {
                Some((level_called(outside::lowercase(rules[i].level)), report))
            } else {
                None
            }
        } else {
            timer is None && line is None
        },
    }
}

/// What the end of the counting time of a rule leads to: the counts after it
/// and a line for the log.
pub open spec fn timed_out(
    rules: Seq<RuleText>,
    counts: Seq<u32>,
    counts_now: Seq<u32>,
    i: int,
    line: Option<(Level, Seq<char>)>,
) -> bool {
    &&& counts_now == counts.update(i, 0)
    &&& line == if counts[i] > 1 || (counts[i] == 1 && !rules[i].show_first) {
        Some(
            (
                level_called(outside::lowercase(rules[i].level)),
                summary(counts[i], rules[i].raw_pattern, rules[i].duration),
            ),
        )
    } else {
        None
    }
}

/// The rules with the number of reports that each has covered since its
/// counting time started.
#[derive(Debug)]
pub struct Consolidator {
    pub rules: Vec<Rule>,
    pub counts: Vec<u32>,
}

impl Consolidator {
    /// Whether there is a count for each rule.
    pub open spec fn wf(self) -> bool {
        self.counts@.len() == self.rules@.len() && times_fit(rule_texts(self.rules@))
    }

    /// Starts with nothing counted.
    pub fn new(rules: Vec<Rule>) -> (r: Consolidator)
        requires
            times_fit(rule_texts(rules@)),
        ensures
            r.wf(),
            r.rules == rules,
            forall|i: int| 0 <= i < r.counts@.len() ==> r.counts@[i] == 0,
    {
        let mut counts: Vec<u32> = Vec::new();
        while counts.len() < rules.len()
            invariant
                counts@.len() <= rules@.len(),
                forall|i: int| 0 <= i < counts@.len() ==> counts@[i] == 0,
            decreases rules@.len() - counts@.len(),
        {
            counts.push(0);
        }
        Consolidator { rules, counts }
    }

    /// Takes a report: the first rule that covers it counts it; the first
    /// report it counts starts its counting time, and is passed on where the
    /// rule shows it. A report that no rule covers is passed on as an error;
    /// there is none where a rule has the regular expression `.*`.
    pub fn on_error(&mut self, report: &str) -> (r: Reaction)
        requires
            old(self).wf(),
        ensures
            final(self).wf(),
            final(self).rules == old(self).rules,
            reacted(
                rule_texts(old(self).rules@),
                old(self).counts@,
                final(self).counts@,
                report@,
                said(r.log),
                r.timer,
            ),
            final(self).counts@ == counts_after(
                old(self).counts@,
                first_match(rule_texts(old(self).rules@), report@, 0),
            ),
            match first_match(rule_texts(old(self).rules@), report@, 0) {
                None => {
                    &&& r.log matches Some(line)
                    &&& line.level == Level::Error
                    &&& line.text@ == report@
                    &&& r.timer is None
                },
                Some(i) => if final(self).counts@[i] == 1 {
                    let rule = old(self).rules@[i];
                    &&& r.timer == Some((i as usize, rule.duration))
                    &&& match r.log {
                        Some(line) => {
                            &&& rule.show_first
                            &&& line.text@ == report@
                            &&& line.level == level_called(outside::lowercase(rule.level@))
                        },
                        None => !rule.show_first,
                    }
                } else {
                    r.timer is None && r.log is None
                },
            },
            (exists|i: int|
                0 <= i < old(self).rules@.len() && outside::regex_of(".*"@) == Some(
                    (#[trigger] old(self).rules@[i]).pattern,
                )) ==> first_match(
                rule_texts(old(self).rules@),
                report@,
                0,
            ) is Some && !(final(self).counts@ == old(self).counts@),
    {
        let ghost rules = rule_texts(self.rules@);
        let mut i: usize = 0;
        while i < self.rules.len()
            invariant
                i <= self.rules@.len(),
                *self == *old(self),
                self.wf(),
                rules == rule_texts(self.rules@),
                first_match(rules, report@, 0) == first_match(rules, report@, i as int),
                forall|k: int|
                    0 <= k < i ==> outside::regex_of(".*"@) != Some(
                        (#[trigger] self.rules@[k]).pattern,
                    ),
            decreases self.rules@.len() - i,
        {
            assert(rules[i as int] == self.rules@[i as int]@);
            if is_match(&self.rules[i].pattern, report) {
                let count: u32 = self.counts[i].wrapping_add(1);
                self.counts.set(i, count);
                if count == 1 {
                    let log = if self.rules[i].show_first {
                        Some(log_msg(self.rules[i].level.as_str(), report))
                    } else {
                        None
                    };
                    return Reaction { log, timer: Some((i, self.rules[i].duration)) };
                }
                return Reaction { log: None, timer: None };
            }
            i = i + 1;
        }
        Reaction {
            log: Some(LogLine { level: Level::Error, text: report.to_owned() }),
            timer: None,
        }
    }

    /// Ends the counting time of a rule: what it counted is summed up in one
    /// line, unless the only report was passed on already; the count starts
    /// again at zero.
    pub fn on_timeout(&mut self, idx: usize) -> (r: Option<LogLine>)
        requires
            old(self).wf(),
            idx < old(self).rules@.len(),
        ensures
            final(self).wf(),
            final(self).rules == old(self).rules,
            final(self).counts@ == old(self).counts@.update(idx as int, 0),
            timed_out(
                rule_texts(old(self).rules@),
                old(self).counts@,
                final(self).counts@,
                idx as int,
                said(r),
            ),
            ({
                let count = old(self).counts@[idx as int];
                let rule = old(self).rules@[idx as int];
                match r {
                    Some(line) => {
                        &&& count > 1 || (count == 1 && !rule.show_first)
                        &&& line.text@ == summary(count, rule.raw_pattern@, rule.duration)
                        &&& line.level == level_called(outside::lowercase(rule.level@))
                    },
                    None => count == 0 || (count == 1 && rule.show_first),
                }
            }),
    {
        let count: u32 = self.counts[idx];
        self.counts.set(idx, 0);
        let rule = &self.rules[idx];
        assert(rule_texts(self.rules@)[idx as int].duration == rule.duration);
        if count > 1 || (count == 1 && !rule.show_first) {
            let mut s = decimal_text(count as u64);
            s.append(" errors like '");
            s.append(rule.raw_pattern.as_str());
            s.append("' occurred in last ");
            s.append(show_duration(rule.duration).as_str());
            Some(log_msg(rule.level.as_str(), s.as_str()))
        } else {
            None
        }
    }
}

/// The errors plugin.
#[derive(Debug)]
pub struct ErrorsPlugin {
    /// Whether this is the plugin that reads the reports; only the first one
    /// of a configuration does.
    pub active: bool,
    pub rules: Vec<Rule>,
}

impl Plugin for ErrorsPlugin {
    open spec fn called() -> Seq<char> {
        "errors"@
    }

    open spec fn rank() -> u8 {
        220
    }

    open spec fn reads_errors() -> bool {
        true
    }

    open spec fn configured(self, config: Directive, shared: Setting) -> bool {
        &&& self.active == shared.error_rx
        &&& rule_texts(self.rules@) == rules_of(config.block)
        &&& times_fit(rule_texts(self.rules@))
    }

    open spec fn accepts(self, msg: DnsMessage) -> bool {
        true
    }

    open spec fn processed(self, after: Self, pass: Pass, progress: Progress) -> bool {
        &&& after == self
        &&& progress is Passed
        &&& pass.untouched()
    }

    open spec fn accepts_back(self, msg: DnsMessage) -> bool {
        true
    }

    open spec fn post_processed(self, pass: Pass) -> bool {
        pass.untouched()
    }

    fn name(&self) -> (r: &'static str) {
        "errors"
    }

    fn priority(&self) -> (r: u8) {
        220
    }

    fn from_config(config: &PluginConfig, shared: &mut SharedState) -> (r: Result<
        Self,
        PluginError,
    >) {
        let ghost block = config@.block;
        let mut rules: Vec<Rule> = Vec::new();
        let mut i: usize = 0;
        assert(rule_texts(rules@) =~= rules_of(block.take(0)));
        while i < config.block.len()
            invariant
                i <= config.block@.len(),
                block == config@.block,
                rule_texts(rules@) =~= rules_of(block.take(i as int)),
                times_fit(rule_texts(rules@)),
            decreases config.block@.len() - i,
        {
            let sub = &config.block[i];
            proof {
                assert(block.take(i + 1).drop_last() =~= block.take(i as int));
                assert(block.take(i + 1).last() == sub@);
                assert(sub@.args.len() == sub.args@.len());
            }
            if same_text(sub.name.as_str(), "consolidate") && sub.args.len() >= 2 {
                let ghost before = rules@;
                let rule = read_rule(sub);
                rules.push(rule);
                assert(rule_texts(rules@) =~= rule_texts(before).push(rule@));
            }
            i = i + 1;
        }
        assert(block.take(i as int) =~= block);
        let active: bool = shared.error_rx;
        shared.error_rx = false;
        Ok(ErrorsPlugin { active, rules })
    }

    fn process(
        &mut self,
        _msg: &mut DnsMessage,
        _store: &mut CacheStore,
        _now: u128,
        _metrics: &mut Vec<Metric>,
    ) -> (progress: Progress) {
        Progress::Passed
    }

    fn post_process(
        &self,
        _msg: &mut DnsMessage,
        _store: &mut CacheStore,
        _now: u128,
        _metrics: &mut Vec<Metric>,
    ) {
    }
}

/// The counts after a run of reports, starting from `counts`.
pub open spec fn counts_after_all(
    rules: Seq<RuleText>,
    counts: Seq<u32>,
    reports: Seq<Seq<char>>,
) -> Seq<u32>
    decreases reports.len(),
{
    if reports.len() == 0 {
        counts
    } else {
        counts_after(
            counts_after_all(rules, counts, reports.drop_last()),
            first_match(rules, reports.last(), 0),
        )
    }
}

/// The number of reports of which a rule is the first that covers them.
pub open spec fn covered(rules: Seq<RuleText>, reports: Seq<Seq<char>>, i: int) -> nat
    decreases reports.len(),
{
    if reports.len() == 0 {
        0
    } else {
        covered(rules, reports.drop_last(), i) + if first_match(rules, reports.last(), 0) == Some(
            i,
        ) {
            1nat
        } else {
            0nat
        }
    }
}

/// No report is lost in the folding: when counting starts from zero, a rule
/// has counted exactly the reports of which it is the first that covers them,
/// up to the point where its count wraps around.
pub proof fn law_every_report_is_counted(
    rules: Seq<RuleText>,
    counts: Seq<u32>,
    reports: Seq<Seq<char>>,
    i: int,
)
    requires
        counts.len() == rules.len(),
        0 <= i < rules.len(),
        counts[i] == 0,
    ensures
        counts_after_all(rules, counts, reports).len() == counts.len(),
        counts_after_all(rules, counts, reports)[i] == covered(rules, reports, i) % 0x1_0000_0000,
        covered(rules, reports, i) <= u32::MAX ==> counts_after_all(rules, counts, reports)[i]
            == covered(rules, reports, i),
        covered(rules, reports, i) <= reports.len(),
    decreases reports.len(),
{
    if reports.len() > 0 {
        law_every_report_is_counted(rules, counts, reports.drop_last(), i);
        lemma_first_match(rules, reports.last(), 0);
    }
}

} // verus!
