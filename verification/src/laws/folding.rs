//! Laws on folding error reports.

use crate::config::Directive;
use crate::duration;
use crate::outside;
use crate::plugin::errors;
use crate::plugin::errors::{ErrorsPlugin, Level, RuleText};
use crate::plugin::{Plugin, Setting};
use crate::text;
use vstd::prelude::*;

verus! {

/// The level that a name in lower case stands for.
pub open spec fn level_named(name: Seq<char>) -> Level {
    if name == "warn"@ || name == "warning"@ {
        Level::Warning
    } else if name == "info"@ {
        Level::Info
    } else if name == "debug"@ {
        Level::Debug
    } else {
        Level::Error
    }
}

/// Warnings, notices and debugging lines go by their names, any other name
/// stands for an error.
pub proof fn law_levels(name: Seq<char>)
    ensures
        errors::level_called(name) == level_named(name),
{
}

/// Whether a rule is the first of a list that covers a report.
pub open spec fn covers_first(rules: Seq<RuleText>, report: Seq<char>, i: int) -> bool {
    &&& 0 <= i < rules.len()
    &&& outside::regex_matches(rules[i].pattern, report)
    &&& forall|j: int|
        0 <= j < i ==> !outside::regex_matches((#[trigger] rules[j]).pattern, report)
}

/// The rule that counts a report is the first one whose regular expression
/// matches it; where none does there is no such rule.
pub proof fn law_first_covering_rule(rules: Seq<RuleText>, report: Seq<char>)
    ensures
        match errors::first_match(rules, report, 0) {
            Some(i) => covers_first(rules, report, i),
            None => forall|i: int|
                0 <= i < rules.len() ==> !outside::regex_matches(
                    (#[trigger] rules[i]).pattern,
                    report,
                ),
        },
        forall|i: int|
            #[trigger] covers_first(rules, report, i) ==> errors::first_match(rules, report, 0)
                == Some(i),
{
    lemma_first_covering(rules, report, 0);
    assert forall|i: int| #[trigger] covers_first(rules, report, i) implies errors::first_match(
        rules,
        report,
        0,
    ) == Some(i) by {
        match errors::first_match(rules, report, 0) {
            Some(k) => {
                if k < i {
                    assert(!outside::regex_matches(rules[k].pattern, report));
                }
                if i < k {
                    assert(!outside::regex_matches(rules[i].pattern, report));
                }
            },
            None => {
                assert(!outside::regex_matches(rules[i].pattern, report));
            },
        }
    }
}

/// The first covering rule from a place on.
proof fn lemma_first_covering(rules: Seq<RuleText>, report: Seq<char>, from: int)
    requires
        0 <= from,
    ensures
        match errors::first_match(rules, report, from) {
            Some(i) => {
                &&& from <= i < rules.len()
                &&& outside::regex_matches(rules[i].pattern, report)
                &&& forall|j: int|
                    from <= j < i ==> !outside::regex_matches((#[trigger] rules[j]).pattern, report)
            },
            None => forall|i: int|
                from <= i < rules.len() ==> !outside::regex_matches(
                    (#[trigger] rules[i]).pattern,
                    report,
                ),
        },
    decreases rules.len() - from,
{
    if from < rules.len() && !outside::regex_matches(rules[from].pattern, report) {
        lemma_first_covering(rules, report, from + 1);
    }
}

/// A report that no rule covers is passed on at once, as an error, and counts
/// nowhere.
pub proof fn law_other_reports_are_passed_on(
    rules: Seq<RuleText>,
    counts: Seq<u32>,
    counts_now: Seq<u32>,
    report: Seq<char>,
    line: Option<(Level, Seq<char>)>,
    timer: Option<(usize, u128)>,
)
    requires
        errors::reacted(rules, counts, counts_now, report, line, timer),
        forall|i: int|
            0 <= i < rules.len() ==> !outside::regex_matches(
                (#[trigger] rules[i]).pattern,
                report,
            ),
    ensures
        line == Some((Level::Error, report)),
        timer is None,
        counts_now == counts,
{
    law_first_covering_rule(rules, report);
}

/// A counting time of a rule: reports that it is the first to cover, with the
/// counts before and after each, the lines for the log and the times started.
pub struct Window {
    pub reports: Seq<Seq<char>>,
    pub counts: Seq<Seq<u32>>,
    pub lines: Seq<Option<(Level, Seq<char>)>>,
    pub timers: Seq<Option<(usize, u128)>>,
}

impl Window {
    /// Whether each report is counted by the rule, starting from nothing.
    pub open spec fn of(self, rules: Seq<RuleText>, i: int) -> bool {
        &&& self.counts.len() == self.reports.len() + 1
        &&& self.lines.len() == self.reports.len()
        &&& self.timers.len() == self.reports.len()
        &&& 0 <= i < rules.len()
        &&& forall|k: int|
            0 <= k < self.counts.len() ==> (#[trigger] self.counts[k]).len() == rules.len()
        &&& self.counts[0][i] == 0
        &&& forall|k: int|
            0 <= k < self.reports.len() ==> covers_first(rules, #[trigger] self.reports[k], i)
                && errors::reacted(
                rules,
                self.counts[k],
                self.counts[k + 1],
                self.reports[k],
                self.lines[k],
                self.timers[k],
            )
    }
}

/// The counts within a window.
proof fn lemma_window(w: Window, rules: Seq<RuleText>, i: int, k: int)
    requires
        w.of(rules, i),
        0 <= k <= w.reports.len() <= u32::MAX,
    ensures
        w.counts[k][i] == k,
        forall|j: int| 0 <= j < rules.len() && j != i ==> w.counts[k][j] == w.counts[0][j],
    decreases k,
{
    if k > 0 {
        lemma_window(w, rules, i, k - 1);
        law_first_covering_rule(rules, w.reports[k - 1]);
        assert(covers_first(rules, w.reports[k - 1], i));
    }
}

/// However many reports a rule covers in a row, they end in one line: the first
/// starts the counting time and is passed on only where the rule shows it, the
/// others say nothing, and at the end of the time one line tells their number,
/// unless the only one was shown already. The rule then counts from nothing
/// again, and no other rule has counted any of them.
pub proof fn law_reports_are_folded(
    w: Window,
    rules: Seq<RuleText>,
    i: int,
    counts_now: Seq<u32>,
    line: Option<(Level, Seq<char>)>,
)
    requires
        w.of(rules, i),
        1 <= w.reports.len() <= u32::MAX,
        i <= usize::MAX,
        errors::timed_out(rules, w.counts.last(), counts_now, i, line),
    ensures
        w.timers[0] == Some((i as usize, rules[i].duration)),
        w.lines[0] == if rules[i].show_first {
            Some((level_named(outside::lowercase(rules[i].level)), w.reports[0]))
        } else {
            None
        },
        forall|k: int|
            1 <= k < w.reports.len() ==> (#[trigger] w.timers[k]) is None && w.lines[k] is None,
        line == if w.reports.len() == 1 && rules[i].show_first {
            None
        } else {
            Some(
                (
                    level_named(outside::lowercase(rules[i].level)),
                    text::decimal(w.reports.len()) + " errors like '"@ + rules[i].raw_pattern
                        + "' occurred in last "@ + duration::duration_text(
                        rules[i].duration as nat,
                    ),
                ),
            )
        },
        counts_now[i] == 0,
        forall|j: int|
            0 <= j < rules.len() && j != i ==> counts_now[j] == w.counts[0][j],
{
    let n = w.reports.len() as int;
    law_levels(outside::lowercase(rules[i].level));
    lemma_window(w, rules, i, n);
    lemma_window(w, rules, i, 1);
    assert(covers_first(rules, w.reports[0], i));
    law_first_covering_rule(rules, w.reports[0]);
    assert forall|k: int| 1 <= k < n implies (
    #[trigger] w.timers[k]) is None && w.lines[k] is None by {
        lemma_window(w, rules, i, k + 1);
        assert(covers_first(rules, w.reports[k], i));
        law_first_covering_rule(rules, w.reports[k]);
    }
    assert forall|j: int| 0 <= j < rules.len() && j != i implies counts_now[j]
        == w.counts[0][j] by {
        assert(w.counts[n][j] == w.counts[0][j]);
    }
}

/// A counting time that ends with nothing counted says nothing.
pub proof fn law_quiet_times(
    rules: Seq<RuleText>,
    counts: Seq<u32>,
    counts_now: Seq<u32>,
    i: int,
    line: Option<(Level, Seq<char>)>,
)
    requires
        errors::timed_out(rules, counts, counts_now, i, line),
        0 <= i < counts.len(),
        counts[i] == 0,
    ensures
        line is None,
        counts_now == counts,
{
    assert(counts_now =~= counts);
}

/// Holds of the directives that are rules.
pub open spec fn consolidates() -> spec_fn(Directive) -> bool {
    |d: Directive| d.name == "consolidate"@ && d.args.len() >= 2
}

/// There is a rule for each `consolidate` with a time and a pattern, in order.
pub proof fn law_every_rule_is_read(block: Seq<Directive>)
    ensures
        errors::rules_of(block) == block.filter(consolidates()).map_values(
            |d: Directive| errors::rule_of(d),
        ),
    decreases block.len(),
{
    reveal(Seq::filter);
    if block.len() > 0 {
        law_every_rule_is_read(block.drop_last());
    }
    assert(errors::rules_of(block) =~= block.filter(consolidates()).map_values(
        |d: Directive| errors::rule_of(d),
    ));
}

/// Whether all options are the one that shows the first report.
pub open spec fn only_show_first(options: Seq<Seq<char>>) -> bool {
    forall|k: int| 0 <= k < options.len() ==> #[trigger] options[k] == "show_first"@
}

/// The level of a rule is its last option but `show_first`, wherever that
/// stands; without one it is `error`.
pub proof fn law_level_of_a_rule(
    before: Seq<Seq<char>>,
    level: Seq<char>,
    shows: Seq<Seq<char>>,
)
    requires
        level != "show_first"@,
        only_show_first(shows),
    ensures
        errors::level_option(before.push(level) + shows) == level,
        errors::level_option(shows) == "error"@,
    decreases shows.len(),
{
    let all = before.push(level) + shows;
    if shows.len() == 0 {
        assert(all =~= before.push(level));
        assert(shows =~= Seq::empty());
    } else {
        let front = shows.drop_last();
        assert(shows[shows.len() - 1] == "show_first"@);
        assert(only_show_first(front)) by {
            assert forall|k: int| 0 <= k < front.len() implies #[trigger] front[k]
                == "show_first"@ by {
                assert(front[k] == shows[k]);
            }
        }
        law_level_of_a_rule(before, level, front);
        assert(all.drop_last() =~= before.push(level) + front);
        assert(all.last() == shows.last());
    }
}

/// A rule counts for the time of its first argument, or 30 seconds where that
/// is no time, matches the regular expression of its second, or everything
/// where that does not compile, and shows the first report where it is told to.
pub proof fn law_rules(d: Directive)
    requires
        d.args.len() >= 2,
    ensures
        duration::duration_of(d.args[0], true) matches Some(ms) ==> errors::rule_of(d).duration
            == ms as u128,
        duration::duration_of(d.args[0], true) is None ==> errors::rule_of(d).duration == 30_000,
        outside::regex_of(d.args[1]) matches Some(re) ==> errors::rule_of(d).pattern == re,
        outside::regex_of(d.args[1]) is None ==> errors::rule_of(d).pattern == outside::regex_of(
            ".*"@,
        )->0,
        errors::rule_of(d).raw_pattern == d.args[1],
        errors::rule_of(d).show_first <==> exists|k: int|
            2 <= k < d.args.len() && #[trigger] d.args[k] == "show_first"@,
        errors::rule_of(d).level == errors::level_option(
            d.args.subrange(2, d.args.len() as int),
        ),
{
    let options = d.args.skip(2);
    assert(options =~= d.args.subrange(2, d.args.len() as int));
    if options.contains("show_first"@) {
        let k = choose|k: int| 0 <= k < options.len() && options[k] == "show_first"@;
        assert(d.args[k + 2] == "show_first"@);
    }
    if exists|k: int| 2 <= k < d.args.len() && #[trigger] d.args[k] == "show_first"@ {
        let k = choose|k: int| 2 <= k < d.args.len() && #[trigger] d.args[k] == "show_first"@;
        assert(options[k - 2] == "show_first"@);
    }
}

/// A plugin has the rules of its block, and reads the reports if nobody does
/// yet.
pub proof fn law_configured(plugin: ErrorsPlugin, d: Directive, shared: Setting)
    requires
        plugin.configured(d, shared),
    ensures
        plugin.active == shared.error_rx,
        plugin.rules@.len() == errors::rules_of(d.block).len(),
        forall|k: int|
            0 <= k < plugin.rules@.len() ==> {
                let rule = errors::rules_of(d.block)[k];
                &&& (#[trigger] plugin.rules@[k]).pattern == rule.pattern
                &&& plugin.rules@[k].raw_pattern@ == rule.raw_pattern
                &&& plugin.rules@[k].duration == rule.duration
                &&& plugin.rules@[k].level@ == rule.level
                &&& plugin.rules@[k].show_first == rule.show_first
            },
{
    let texts = errors::rule_texts(plugin.rules@);
    assert(texts.len() == plugin.rules@.len());
    assert forall|k: int| 0 <= k < plugin.rules@.len() implies {
        let rule = errors::rules_of(d.block)[k];
        &&& (#[trigger] plugin.rules@[k]).pattern == rule.pattern
        &&& plugin.rules@[k].raw_pattern@ == rule.raw_pattern
        &&& plugin.rules@[k].duration == rule.duration
        &&& plugin.rules@[k].level@ == rule.level
        &&& plugin.rules@[k].show_first == rule.show_first
    } by {
        assert(texts[k] == plugin.rules@[k]@);
    }
}

} // verus!
