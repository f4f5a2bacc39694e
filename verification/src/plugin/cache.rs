//! The cache: answers are kept under their question and handed out again.

use crate::config::{Directive, PluginConfig};
use crate::metrics;
use crate::metrics::{record, server_label_of, Amount, Family, Metric, Sample};
use crate::outside;
use crate::outside::{
    cache_entry_count, cache_get, cache_insert, cache_invalidate, new_cache, AnswerCache,
};
use crate::plugin::{Pass, Plugin, PluginError, Progress, Setting, SharedState, MAX_NOW};
use crate::text;
use crate::text::{parse_number, remove_last, same_text};
use crate::types::DnsMessage;
use crate::wire;
use crate::wire::skip_name;
use vstd::prelude::*;
use vstd::slice::{slice_subrange, slice_to_vec};

verus! {

/// The number of answers of each kind that are kept.
pub const CAPACITY: u64 = 50_000;

/// An answer that was kept, and the moment from which it is stale.
#[derive(Clone)]
pub struct CachedItem {
    pub response: Vec<u8>,
    pub expires_at: u128,
}

/// The kept answers: those that say yes and those that say no.
pub struct CacheStore {
    success: AnswerCache,
    denial: AnswerCache,
}

/// One part of a store: under each question the answer that was kept last and
/// not thrown out, with the moment from which it is stale; how many answers the
/// part was made for; and whether it ever held more than that, so that some may
/// be missing.
pub struct Shelf {
    pub entries: Map<Seq<u8>, (Seq<u8>, u128)>,
    pub limit: u64,
    pub crowded: bool,
}

impl Shelf {
    /// Whether every answer is long enough to hold a response code.
    pub open spec fn sound(self) -> bool {
        forall|k: Seq<u8>| #[trigger] self.entries.contains_key(k) ==> self.entries[k].0.len() >= 4
    }

    /// A shelf for `limit` answers that holds nothing yet.
    pub open spec fn empty(limit: u64) -> Shelf {
        Shelf { entries: outside::no_entries(), limit, crowded: false }
    }

    /// The shelf with an answer put in.
    pub open spec fn with(self, key: Seq<u8>, answer: (Seq<u8>, u128)) -> Shelf {
        let entries = self.entries.insert(key, answer);
        Shelf {
            entries,
            limit: self.limit,
            crowded: self.crowded || entries.dom().len() > self.limit,
        }
    }

    /// The shelf with the answer to a question thrown out.
    pub open spec fn without(self, key: Seq<u8>) -> Shelf {
        Shelf { entries: self.entries.remove(key), ..self }
    }

    /// Whether there is an answer to a question that is not stale yet.
    pub open spec fn fresh(self, key: Seq<u8>, now: u128) -> bool {
        self.entries.contains_key(key) && self.entries[key].1 > now
    }

    /// Whether looking a question up can turn out as `found` says. What is not
    /// there is never found; what is there is found unless the shelf was once
    /// too full.
    pub open spec fn lookup(self, key: Seq<u8>, found: bool) -> bool {
        &&& found ==> self.entries.contains_key(key)
        &&& !self.crowded && self.entries.contains_key(key) ==> found
    }

    /// The shelf after a lookup that brought nothing fresh: what was found and
    /// is stale is thrown out.
    pub open spec fn swept(self, key: Seq<u8>, found: bool) -> Shelf {
        if found {
            self.without(key)
        } else {
            self
        }
    }
}

/// What a store holds.
pub struct Held {
    pub success: Shelf,
    pub denial: Shelf,
}

impl Held {
    /// Whether every kept answer is long enough to hold a response code.
    pub open spec fn sound(self) -> bool {
        self.success.sound() && self.denial.sound()
    }

    /// Nothing kept.
    pub open spec fn nothing() -> Held {
        Held { success: Shelf::empty(CAPACITY), denial: Shelf::empty(CAPACITY) }
    }
}

impl View for CacheStore {
    type V = Held;

    closed spec fn view(&self) -> Held {
        Held {
            success: Shelf {
                entries: outside::held(self.success),
                limit: outside::entry_limit(self.success),
                crowded: outside::crowded(self.success),
            },
            denial: Shelf {
                entries: outside::held(self.denial),
                limit: outside::entry_limit(self.denial),
                crowded: outside::crowded(self.denial),
            },
        }
    }
}

impl CacheStore {
    /// A store that keeps nothing yet.
    pub fn new() -> (r: CacheStore)
        ensures
            r@ == Held::nothing(),
            r@.sound(),
    {
        CacheStore { success: new_cache(CAPACITY), denial: new_cache(CAPACITY) }
    }

    /// Looks a question up among the answers that say yes.
    fn find_success(&self, key: &Vec<u8>) -> (r: Option<CachedItem>)
        ensures
            self@.success.lookup(key@, r is Some),
            r matches Some(item) ==> self@.success.entries[key@] == (
                item.response@,
                item.expires_at,
            ),
    {
        match cache_get(&self.success, key) {
            Some((response, expires_at)) => Some(CachedItem { response, expires_at }),
            None => None,
        }
    }

    /// Looks a question up among the answers that say no.
    fn find_denial(&self, key: &Vec<u8>) -> (r: Option<CachedItem>)
        ensures
            self@.denial.lookup(key@, r is Some),
            r matches Some(item) ==> self@.denial.entries[key@] == (
                item.response@,
                item.expires_at,
            ),
    {
        match cache_get(&self.denial, key) {
            Some((response, expires_at)) => Some(CachedItem { response, expires_at }),
            None => None,
        }
    }
}

/// The bytes of the first question of a query, under which answers are kept.
pub fn extract_question_bytes(query: &[u8]) -> (r: Option<Vec<u8>>)
    ensures
        match wire::question_bytes(query@) {
            Some(key) => r is Some && r->0@ == key,
            None => r is None,
        },
{
    match skip_name(query) {
        Some(e) => if query.len() - e >= 4 {
            Some(slice_to_vec(slice_subrange(query, wire::HEADER_LEN, e + 4)))
        } else {
            None
        },
        None => None,
    }
}

/// An answer with the identifier of a query in place of its own.
pub open spec fn readdressed(response: Seq<u8>, query: Seq<u8>) -> Seq<u8> {
    response.update(0, query[0]).update(1, query[1])
}

/// The measurement that a lookup was made.
pub open spec fn request_sample(port: u16) -> Sample {
    metrics::sample(
        Family::CacheRequests,
        seq![metrics::server_label(port), ""@, "."@],
        Amount::Inc,
    )
}

/// The measurement that a lookup found a fresh answer of a kind.
pub open spec fn hit_sample(port: u16, kind: Seq<char>) -> Sample {
    metrics::sample(
        Family::CacheHits,
        seq![metrics::server_label(port), kind, ""@, "."@],
        Amount::Inc,
    )
}

/// The measurement that a lookup found nothing.
pub open spec fn miss_sample(port: u16) -> Sample {
    metrics::sample(
        Family::CacheMisses,
        seq![metrics::server_label(port), ""@, "."@],
        Amount::Inc,
    )
}

/// Whether the answer to a question on one shelf was handed out.
pub open spec fn handed_out(pass: Pass, shelf: Shelf, key: Seq<u8>, kind: Seq<char>) -> bool {
    &&& pass.msg.answered(
        pass.msg_after,
        readdressed(shelf.entries[key].0, pass.msg.raw_query@),
        "cache"@,
        true,
    )
    &&& pass.samples_after == pass.samples.push(request_sample(pass.msg.port())).push(
        hit_sample(pass.msg.port(), kind),
    )
}

/// Whether nothing was handed out.
pub open spec fn missed(pass: Pass) -> bool {
    &&& pass.msg_after == pass.msg
    &&& pass.samples_after == pass.samples.push(request_sample(pass.msg.port())).push(
        miss_sample(pass.msg.port()),
    )
}

/// What happens to a message with a question, when `yes` and `no` tell whether
/// the lookups among the answers that say yes and no bring anything: what is
/// found and fresh is handed out, first among those that say yes; what is
/// found and stale is thrown out.
pub open spec fn looked_up(pass: Pass, key: Seq<u8>, yes: bool, no: bool) -> bool {
    let success = pass.kept.success;
    let denial = pass.kept.denial;
    if yes && success.fresh(key, pass.now) {
        &&& handed_out(pass, success, key, "success"@)
        &&& pass.kept_after == pass.kept
    } else if no && denial.fresh(key, pass.now) {
        &&& handed_out(pass, denial, key, "denial"@)
        &&& pass.kept_after == (Held { success: success.swept(key, yes), denial })
    } else {
        &&& missed(pass)
        &&& pass.kept_after == (Held {
            success: success.swept(key, yes),
            denial: denial.swept(key, no),
        })
    }
}

/// Puts a kept answer into a message, under the identifier of its query, and
/// halts the chain.
pub fn build_cached_response(
    msg: &mut DnsMessage,
    item: CachedItem,
    server_label: &str,
    cache_type: &str,
    metrics: &mut Vec<Metric>,
)
    requires
        item.response@.len() >= 2,
        old(msg).raw_query@.len() >= 2,
    ensures
        old(msg).answered(
            *final(msg),
            readdressed(item.response@, old(msg).raw_query@),
            "cache"@,
            true,
        ),
        metrics::samples(final(metrics)@) == metrics::samples(old(metrics)@).push(
            metrics::sample(
                Family::CacheHits,
                seq![server_label@, cache_type@, ""@, "."@],
                Amount::Inc,
            ),
        ),
{
    let mut resp = item.response;
    resp.set(0, msg.raw_query[0]);
    resp.set(1, msg.raw_query[1]);
    msg.raw_response = Some(resp);
    msg.halt_chain = true;
    msg.answered_by = "cache".to_owned();
    record(metrics, Family::CacheHits, &[server_label, cache_type, "", "."], Amount::Inc);
    assert(metrics::samples(metrics@).last().labels =~= seq![
        server_label@,
        cache_type@,
        ""@,
        "."@,
    ]);
}

/// How a lookup on one shelf ended.
#[derive(Debug, Clone, Copy, PartialEq, Eq, Structural)]
pub enum Lookup {
    /// Nothing was found.
    Absent,
    /// What was found is stale and has to go.
    Stale,
    /// What was found was handed out.
    HandedOut,
}

/// Goes on with what a lookup brought: an answer is handed out strictly before
/// the moment from which it is stale.
pub fn settle(
    msg: &mut DnsMessage,
    found: Option<CachedItem>,
    now: u128,
    server_label: &str,
    cache_type: &str,
    metrics: &mut Vec<Metric>,
) -> (r: Lookup)
    requires
        found matches Some(item) ==> item.response@.len() >= 2,
        old(msg).raw_query@.len() >= 2,
    ensures
        match found {
            Some(item) => if item.expires_at > now {
                &&& r == Lookup::HandedOut
                &&& old(msg).answered(
                    *final(msg),
                    readdressed(item.response@, old(msg).raw_query@),
                    "cache"@,
                    true,
                )
                &&& metrics::samples(final(metrics)@) == metrics::samples(old(metrics)@).push(
                    metrics::sample(
                        Family::CacheHits,
                        seq![server_label@, cache_type@, ""@, "."@],
                        Amount::Inc,
                    ),
                )
            } else {
                r == Lookup::Stale && *final(msg) == *old(msg) && final(metrics)@ == old(metrics)@
            },
            None => {
                &&& r == Lookup::Absent
                &&& *final(msg) == *old(msg)
                &&& final(metrics)@ == old(metrics)@
            },
        },
{
    match found {
        Some(item) => if item.expires_at > now {
            build_cached_response(msg, item, server_label, cache_type, metrics);
            Lookup::HandedOut
        } else {
            Lookup::Stale
        },
        None => Lookup::Absent,
    }
}

/// How long answers are kept, in seconds.
pub struct Lifetimes {
    pub success: u64,
    pub denial: u64,
    pub servfail: u64,
}

/// The number that a text stands for, or `default` where it is not a number.
pub open spec fn number_or(s: Seq<char>, default: u64) -> u64 {
    match text::number_of(s, u64::MAX as int) {
        Some(n) => n as u64,
        None => default,
    }
}

/// The lifetimes after one more directive of the block: the second argument
/// of `success` and `denial`, the first one of `servfail`.
pub open spec fn lifetimes_with(l: Lifetimes, d: Directive) -> Lifetimes {
    if d.name == "success"@ {
        if d.args.len() > 1 {
            Lifetimes { success: number_or(d.args[1], 3600), ..l }
        } else {
            l
        }
    } else if d.name == "denial"@ {
        if d.args.len() > 1 {
            Lifetimes { denial: number_or(d.args[1], 1800), ..l }
        } else {
            l
        }
    } else if d.name == "servfail"@ {
        if d.args.len() > 0 {
            Lifetimes { servfail: number_or(text::without_last(d.args[0], 's'), 5), ..l }
        } else {
            l
        }
    } else {
        l
    }
}

/// The lifetimes that a block sets: later directives win over earlier ones.
pub open spec fn lifetimes(block: Seq<Directive>) -> Lifetimes
    decreases block.len(),
{
    if block.len() == 0 {
        Lifetimes { success: 3600, denial: 1800, servfail: 5 }
    } else {
        lifetimes_with(lifetimes(block.drop_last()), block.last())
    }
}

/// The cache plugin.
#[derive(Debug)]
pub struct CachePlugin {
    /// How long successful answers are kept, in seconds.
    pub success_ttl: u64,
    /// How long denials are kept, in seconds.
    pub denial_ttl: u64,
    /// How long server failures are kept, in seconds; zero for not at all.
    pub servfail_ttl: u64,
}

/// The number of nanoseconds in a second.
pub const NANOS: u128 = 1_000_000_000;

impl CachePlugin {
    /// What is kept after an answer came by, at a moment.
    pub open spec fn kept(self, held: Held, key: Seq<u8>, response: Seq<u8>, now: u128) -> Held {
        let rcode = wire::rcode_of(response);
        if rcode == 0 {
            let until = (now + self.success_ttl * NANOS) as u128;
            Held { success: held.success.with(key, (response, until)), ..held }
        } else if rcode == 3 {
            let until = (now + self.denial_ttl * NANOS) as u128;
            Held { denial: held.denial.with(key, (response, until)), ..held }
        } else if rcode == 2 && self.servfail_ttl > 0 {
            let until = (now + self.servfail_ttl * NANOS) as u128;
            Held { denial: held.denial.with(key, (response, until)), ..held }
        } else {
            held
        }
    }
}

/// Whether one level of a kind of entries was added to the measurements.
pub open spec fn counted_entries(pass: Pass, kind: Seq<char>) -> bool {
    &&& pass.samples_after.len() == pass.samples.len() + 1
    &&& pass.samples_after.drop_last() == pass.samples
    &&& pass.samples_after.last().family == Family::CacheEntries
    &&& pass.samples_after.last().labels == seq![
        metrics::server_label(pass.msg.port()),
        kind,
        ""@,
        "."@,
    ]
    &&& pass.samples_after.last().amount is Level
}

impl Plugin for CachePlugin {
    open spec fn called() -> Seq<char> {
        "cache"@
    }

    open spec fn rank() -> u8 {
        120
    }

    open spec fn reads_errors() -> bool {
        false
    }

    open spec fn configured(self, config: Directive, shared: Setting) -> bool {
        let l = lifetimes(config.block);
        &&& self.success_ttl == l.success
        &&& self.denial_ttl == l.denial
        &&& self.servfail_ttl == l.servfail
    }

    open spec fn accepts(self, msg: DnsMessage) -> bool {
        true
    }

    /// A message that is not answered yet and has a full header is looked up
    /// under its question; one without a readable question finds nothing.
    open spec fn processed(self, after: Self, pass: Pass, progress: Progress) -> bool {
        &&& after == self
        &&& progress is Passed
        &&& if pass.msg.halt_chain || pass.msg.raw_query@.len() < wire::HEADER_LEN {
            pass.untouched()
        } else {
            match wire::question_bytes(pass.msg.raw_query@) {
                Some(key) => exists|yes: bool, no: bool|
                    {
                        &&& pass.kept.success.lookup(key, yes)
                        &&& pass.kept.denial.lookup(key, no)
                        &&& #[trigger] looked_up(pass, key, yes, no)
                    },
                None => missed(pass) && pass.kept_after == pass.kept,
            }
        }
    }

    open spec fn accepts_back(self, msg: DnsMessage) -> bool {
        msg.response() matches Some(r) ==> wire::question_bytes(msg.raw_query@) is Some ==> r.len()
            >= 4
    }

    /// An answer to a message with a readable question is kept under that
    /// question.
    open spec fn post_processed(self, pass: Pass) -> bool {
        &&& pass.msg_after == pass.msg
        &&& match (pass.msg.response(), wire::question_bytes(pass.msg.raw_query@)) {
            (Some(r), Some(key)) => {
                let rcode = wire::rcode_of(r);
                &&& pass.kept_after == self.kept(pass.kept, key, r, pass.now)
                &&& if rcode == 0 {
                    counted_entries(pass, "success"@)
                } else if rcode == 3 || (rcode == 2 && self.servfail_ttl > 0) {
                    counted_entries(pass, "denial"@)
                } else {
                    pass.samples_after == pass.samples
                }
            },
            _ => pass.only_message(),
        }
    }

    fn name(&self) -> (r: &'static str) {
        "cache"
    }

    fn priority(&self) -> (r: u8) {
        120
    }

    fn from_config(config: &PluginConfig, _shared: &mut SharedState) -> (r: Result<
        Self,
        PluginError,
    >) {
        let ghost block = config@.block;
        let mut success_ttl: u64 = 3600;
        let mut denial_ttl: u64 = 1800;
        let mut servfail_ttl: u64 = 5;
        let mut i: usize = 0;
        assert(block.take(0).len() == 0);
        while i < config.block.len()
            invariant
                i <= config.block@.len(),
                block == config@.block,
                success_ttl == lifetimes(block.take(i as int)).success,
                denial_ttl == lifetimes(block.take(i as int)).denial,
                servfail_ttl == lifetimes(block.take(i as int)).servfail,
            decreases config.block@.len() - i,
        {
            let sub = &config.block[i];
            proof {
                assert(block.take(i + 1).drop_last() =~= block.take(i as int));
                assert(block.take(i + 1).last() == sub@);
            }
            if same_text(sub.name.as_str(), "success") {
                if sub.args.len() > 1 {
                    success_ttl = match parse_number(sub.args[1].as_str(), u64::MAX) {
                        Some(n) => n,
                        None => 3600,
                    };
                }
            } else if same_text(sub.name.as_str(), "denial") {
                if sub.args.len() > 1 {
                    denial_ttl = match parse_number(sub.args[1].as_str(), u64::MAX) {
                        Some(n) => n,
                        None => 1800,
                    };
                }
            } else if same_text(sub.name.as_str(), "servfail") {
                if sub.args.len() > 0 {
                    let digits = remove_last(sub.args[0].as_str(), 's');
                    servfail_ttl = match parse_number(digits.as_str(), u64::MAX) {
                        Some(n) => n,
                        None => 5,
                    };
                }
            }
            i = i + 1;
        }
        assert(block.take(i as int) =~= block);
        Ok(CachePlugin { success_ttl, denial_ttl, servfail_ttl })
    }

    fn process(
        &mut self,
        msg: &mut DnsMessage,
        store: &mut CacheStore,
        now: u128,
        metrics: &mut Vec<Metric>,
    ) -> (progress: Progress) {
        if msg.halt_chain || msg.raw_query.len() < wire::HEADER_LEN {
            return Progress::Passed;
        }
        let port: u16 = msg.server_port.unwrap_or(53);
        let label = server_label_of(port);
        record(metrics, Family::CacheRequests, &[label.as_str(), "", "."], Amount::Inc);
        assert(metrics::samples(metrics@).last().labels =~= seq![label@, ""@, "."@]);
        let ghost start = store@;
        let ghost mut yes = false;
        let ghost mut no = false;
        match extract_question_bytes(msg.raw_query.as_slice()) {
            Some(key) => {
                let found = store.find_success(&key);
                proof {
                    yes = found is Some;
                    no = start.denial.entries.contains_key(key@);
                }
                match settle(msg, found, now, label.as_str(), "success", metrics) {
                    Lookup::HandedOut => {
                        assert(looked_up(
                            Pass {
                                now,
                                msg: *old(msg),
                                msg_after: *msg,
                                kept: start,
                                kept_after: store@,
                                samples: metrics::samples(old(metrics)@),
                                samples_after: metrics::samples(metrics@),
                            },
                            key@,
                            yes,
                            no,
                        ));
                        return Progress::Passed;
                    },
                    Lookup::Stale => {
                        cache_invalidate(&mut store.success, &key);
                    },
                    Lookup::Absent => {},
                }
                assert(store@ == (Held { success: start.success.swept(key@, yes), ..start }));
                let found = store.find_denial(&key);
                proof {
                    no = found is Some;
                }
                match settle(msg, found, now, label.as_str(), "denial", metrics) {
                    Lookup::HandedOut => {
                        assert(looked_up(
                            Pass {
                                now,
                                msg: *old(msg),
                                msg_after: *msg,
                                kept: start,
                                kept_after: store@,
                                samples: metrics::samples(old(metrics)@),
                                samples_after: metrics::samples(metrics@),
                            },
                            key@,
                            yes,
                            no,
                        ));
                        return Progress::Passed;
                    },
                    Lookup::Stale => {
                        cache_invalidate(&mut store.denial, &key);
                    },
                    Lookup::Absent => {},
                }
                assert(store@ == (Held {
                    success: start.success.swept(key@, yes),
                    denial: start.denial.swept(key@, no),
                }));
            },
            None => {},
        }
        record(metrics, Family::CacheMisses, &[label.as_str(), "", "."], Amount::Inc);
        assert(metrics::samples(metrics@).last().labels =~= seq![label@, ""@, "."@]);
        proof {
            if let Some(key) = wire::question_bytes(msg.raw_query@) {
                assert(looked_up(
                    Pass {
                        now,
                        msg: *old(msg),
                        msg_after: *msg,
                        kept: start,
                        kept_after: store@,
                        samples: metrics::samples(old(metrics)@),
                        samples_after: metrics::samples(metrics@),
                    },
                    key,
                    yes,
                    no,
                ));
            }
        }
        Progress::Passed
    }

    fn post_process(
        &self,
        msg: &mut DnsMessage,
        store: &mut CacheStore,
        now: u128,
        metrics: &mut Vec<Metric>,
    ) {
        let port: u16 = msg.server_port.unwrap_or(53);
        let label = server_label_of(port);
        match &msg.raw_response {
            Some(resp) => {
                match extract_question_bytes(msg.raw_query.as_slice()) {
                    Some(key) => {
                        let rcode: u8 = resp[3] & 0x0f;
                        let copy = slice_to_vec(resp.as_slice());
                        let ghost k = key@;
                        if rcode == 0 {
                            let until: u128 = now + self.success_ttl as u128 * NANOS;
                            cache_insert(&mut store.success, key, (copy, until));
                            assert(store@.success == old(store)@.success.with(
                                k,
                                (resp@, until),
                            ));
                            let count: u64 = cache_entry_count(&store.success);
                            record(
                                metrics,
                                Family::CacheEntries,
                                &[label.as_str(), "success", "", "."],
                                Amount::Level(count),
                            );
                            assert(metrics::samples(metrics@).drop_last() =~= metrics::samples(
                                old(metrics)@,
                            ));
                            assert(metrics::samples(metrics@).last().labels =~= seq![
                                label@,
                                "success"@,
                                ""@,
                                "."@,
                            ]);
                        } else if rcode == 3 || (rcode == 2 && self.servfail_ttl > 0) {
                            let ttl: u64 = if rcode == 3 {
                                self.denial_ttl
                            } else {
                                self.servfail_ttl
                            };
                            let until: u128 = now + ttl as u128 * NANOS;
                            cache_insert(&mut store.denial, key, (copy, until));
                            assert(store@.denial == old(store)@.denial.with(
                                k,
                                (resp@, until),
                            ));
                            let count: u64 = cache_entry_count(&store.denial);
                            record(
                                metrics,
                                Family::CacheEntries,
                                &[label.as_str(), "denial", "", "."],
                                Amount::Level(count),
                            );
                            assert(metrics::samples(metrics@).drop_last() =~= metrics::samples(
                                old(metrics)@,
                            ));
                            assert(metrics::samples(metrics@).last().labels =~= seq![
                                label@,
                                "denial"@,
                                ""@,
                                "."@,
                            ]);
                        }
                    },
                    None => {},
                }
            },
            None => {},
        }
    }
}

/// The header of a query has no part in the question under which its answer
/// is kept: queries that differ in nothing else share their answers.
pub proof fn law_header_does_not_matter(p: Seq<u8>, q: Seq<u8>)
    requires
        p.len() >= wire::HEADER_LEN,
        p.len() == q.len(),
        p.skip(wire::HEADER_LEN as int) == q.skip(wire::HEADER_LEN as int),
    ensures
        wire::question_bytes(p) == wire::question_bytes(q),
{
    let h = wire::HEADER_LEN as int;
    assert forall|k: int| h <= k < q.len() implies #[trigger] p[k] == q[k] by {
        assert(p.skip(h)[k - h] == q.skip(h)[k - h]);
    }
    wire::lemma_name_end_agrees(p, q, h);
    wire::lemma_name_end(p, h);
    if let Some(key) = wire::question_bytes(p) {
        let e = wire::name_end(p, h)->0;
        assert(p.subrange(h, e + 4) =~= q.subrange(h, e + 4));
    }
}

/// Nothing behind the question of a query matters either: where a query has a
/// question, every query with the same bytes in that place has the same one.
pub proof fn law_only_the_question_matters(p: Seq<u8>, q: Seq<u8>, key: Seq<u8>)
    requires
        wire::question_bytes(p) == Some(key),
        key.is_prefix_of(q.skip(wire::HEADER_LEN as int)),
        q.len() >= wire::HEADER_LEN,
    ensures
        wire::question_bytes(q) == Some(key),
{
    let h = wire::HEADER_LEN as int;
    wire::lemma_name_end(p, h);
    let e = wire::name_end(p, h)->0;
    assert(key.len() == e + 4 - h);
    assert forall|k: int| h <= k < e + 4 implies #[trigger] p[k] == q[k] by {
        assert(p[k] == key[k - h]);
        assert(q.skip(h)[k - h] == q.skip(h).subrange(0, key.len() as int)[k - h]);
    }
    wire::lemma_name_end_within(p, q, h, e);
    assert(q.subrange(h, e + 4) =~= key);
}

/// An answer that is handed out has the identifier of the new query; all else
/// is as it was kept.
pub proof fn law_only_the_identifier_changes(response: Seq<u8>, query: Seq<u8>)
    requires
        response.len() >= 2,
        query.len() >= 2,
    ensures
        readdressed(response, query).len() == response.len(),
        readdressed(response, query).take(2) == query.take(2),
        readdressed(response, query).skip(2) == response.skip(2),
{
    assert(readdressed(response, query).take(2) =~= query.take(2));
    assert(readdressed(response, query).skip(2) =~= response.skip(2));
}

/// A message that wants an answer to the question `key`.
pub open spec fn asks(msg: DnsMessage, key: Seq<u8>) -> bool {
    &&& !msg.halt_chain
    &&& msg.raw_query@.len() >= wire::HEADER_LEN
    &&& wire::question_bytes(msg.raw_query@) == Some(key)
}

/// A successful answer that was kept is handed out to every later message with
/// the same question, until it is stale or another takes its place.
pub proof fn law_success_is_handed_out_again(
    writer: CachePlugin,
    write: Pass,
    reader: CachePlugin,
    reader_after: CachePlugin,
    read: Pass,
    progress: Progress,
    key: Seq<u8>,
)
    requires
        writer.post_processed(write),
        wire::question_bytes(write.msg.raw_query@) == Some(key),
        write.msg.response() is Some,
        wire::rcode_of(write.msg.response()->0) == 0,
        write.now <= MAX_NOW,
        reader.processed(reader_after, read, progress),
        read.kept.success.entries.contains_key(key),
        read.kept.success.entries[key] == write.kept_after.success.entries[key],
        !read.kept.success.crowded,
        asks(read.msg, key),
        read.now < write.now + writer.success_ttl * NANOS,
    ensures
        read.msg.answered(
            read.msg_after,
            readdressed(write.msg.response()->0, read.msg.raw_query@),
            "cache"@,
            true,
        ),
{
    assert(write.now + writer.success_ttl * NANOS <= u128::MAX);
    assert(read.kept.success.fresh(key, read.now));
}

/// A denial that was kept is handed out to every later message with the same
/// question, until it is stale or another takes its place, as long as there is
/// no fresh answer that says yes. So is a server failure, with a time of its
/// own.
pub proof fn law_denial_is_handed_out_again(
    writer: CachePlugin,
    write: Pass,
    reader: CachePlugin,
    reader_after: CachePlugin,
    read: Pass,
    progress: Progress,
    key: Seq<u8>,
)
    requires
        writer.post_processed(write),
        wire::question_bytes(write.msg.raw_query@) == Some(key),
        write.msg.response() is Some,
        ({
            let rcode = wire::rcode_of(write.msg.response()->0);
            ||| rcode == 3 && read.now < write.now + writer.denial_ttl * NANOS
            ||| rcode == 2 && read.now < write.now + writer.servfail_ttl * NANOS
                && writer.servfail_ttl > 0
        }),
        write.now <= MAX_NOW,
        reader.processed(reader_after, read, progress),
        read.kept.denial.entries.contains_key(key),
        read.kept.denial.entries[key] == write.kept_after.denial.entries[key],
        !read.kept.denial.crowded,
        asks(read.msg, key),
        !read.kept.success.fresh(key, read.now),
    ensures
        read.msg.answered(
            read.msg_after,
            readdressed(write.msg.response()->0, read.msg.raw_query@),
            "cache"@,
            true,
        ),
{
    assert(read.kept.denial.fresh(key, read.now));
}

/// A successful answer that was kept is handed out to every later message with
/// the same question whose lookup finds it, until it is stale or another takes
/// its place; it does not matter how many answers are kept.
pub proof fn law_found_success_is_handed_out(
    writer: CachePlugin,
    write: Pass,
    read: Pass,
    key: Seq<u8>,
    no: bool,
)
    requires
        writer.post_processed(write),
        wire::question_bytes(write.msg.raw_query@) == Some(key),
        write.msg.response() is Some,
        wire::rcode_of(write.msg.response()->0) == 0,
        write.now <= MAX_NOW,
        read.kept.success.entries.contains_key(key),
        read.kept.success.entries[key] == write.kept_after.success.entries[key],
        looked_up(read, key, true, no),
        read.now < write.now + writer.success_ttl * NANOS,
    ensures
        read.msg.answered(
            read.msg_after,
            readdressed(write.msg.response()->0, read.msg.raw_query@),
            "cache"@,
            true,
        ),
        read.kept_after == read.kept,
{
    assert(write.now + writer.success_ttl * NANOS <= u128::MAX);
}

/// A denial or server failure that was kept is handed out to every later
/// message with the same question whose lookup finds it, until it is stale or
/// another takes its place, as long as no fresh answer that says yes is found.
pub proof fn law_found_denial_is_handed_out(
    writer: CachePlugin,
    write: Pass,
    read: Pass,
    key: Seq<u8>,
    yes: bool,
)
    requires
        writer.post_processed(write),
        wire::question_bytes(write.msg.raw_query@) == Some(key),
        write.msg.response() is Some,
        ({
            let rcode = wire::rcode_of(write.msg.response()->0);
            ||| rcode == 3 && read.now < write.now + writer.denial_ttl * NANOS
            ||| rcode == 2 && read.now < write.now + writer.servfail_ttl * NANOS
                && writer.servfail_ttl > 0
        }),
        write.now <= MAX_NOW,
        read.kept.denial.entries.contains_key(key),
        read.kept.denial.entries[key] == write.kept_after.denial.entries[key],
        looked_up(read, key, yes, true),
        !(yes && read.kept.success.fresh(key, read.now)),
    ensures
        read.msg.answered(
            read.msg_after,
            readdressed(write.msg.response()->0, read.msg.raw_query@),
            "cache"@,
            true,
        ),
{
}

/// A kept answer that is not stale is handed out, or the lookup did not bring
/// it back; the latter happens only on a shelf that was once too full.
pub proof fn law_fresh_success_is_handed_out_if_found(
    plugin: CachePlugin,
    after: CachePlugin,
    pass: Pass,
    progress: Progress,
    key: Seq<u8>,
)
    requires
        plugin.processed(after, pass, progress),
        asks(pass.msg, key),
        pass.kept.success.fresh(key, pass.now),
    ensures
        ({
            ||| pass.msg.answered(
                pass.msg_after,
                readdressed(pass.kept.success.entries[key].0, pass.msg.raw_query@),
                "cache"@,
                true,
            )
            ||| {
                &&& pass.kept.success.crowded
                &&& exists|no: bool| #[trigger] looked_up(pass, key, false, no)
            }
        }),
{
}

/// A stale answer is never handed out.
pub proof fn law_stale_is_never_handed_out(
    plugin: CachePlugin,
    after: CachePlugin,
    pass: Pass,
    progress: Progress,
)
    requires
        plugin.processed(after, pass, progress),
        wire::question_bytes(pass.msg.raw_query@) matches Some(key) ==> !pass.kept.success.fresh(
            key,
            pass.now,
        ) && !pass.kept.denial.fresh(key, pass.now),
    ensures
        pass.msg_after == pass.msg,
{
}

/// Looking one question up does not touch the answers to another.
pub proof fn law_lookups_touch_one_question(
    plugin: CachePlugin,
    after: CachePlugin,
    pass: Pass,
    progress: Progress,
    other: Seq<u8>,
)
    requires
        plugin.processed(after, pass, progress),
        wire::question_bytes(pass.msg.raw_query@) != Some(other),
    ensures
        pass.kept_after.success.entries.contains_key(other)
            <==> pass.kept.success.entries.contains_key(other),
        pass.kept.success.entries.contains_key(other) ==> pass.kept_after.success.entries[other]
            == pass.kept.success.entries[other],
        pass.kept_after.denial.entries.contains_key(other)
            <==> pass.kept.denial.entries.contains_key(other),
        pass.kept.denial.entries.contains_key(other) ==> pass.kept_after.denial.entries[other]
            == pass.kept.denial.entries[other],
{
}

/// Only successes, denials and, where that is wanted, server failures are
/// kept; any other answer leaves the store as it was.
pub proof fn law_other_answers_are_not_kept(plugin: CachePlugin, pass: Pass)
    requires
        plugin.post_processed(pass),
        pass.msg.response() matches Some(r) ==> {
            let rcode = wire::rcode_of(r);
            rcode != 0 && rcode != 3 && (rcode != 2 || plugin.servfail_ttl == 0)
        },
    ensures
        pass.kept_after == pass.kept,
{
}

/// The answers to other questions are not touched by keeping one.
pub proof fn law_other_questions_are_not_touched(plugin: CachePlugin, pass: Pass, other: Seq<u8>)
    requires
        plugin.post_processed(pass),
        wire::question_bytes(pass.msg.raw_query@) != Some(other),
    ensures
        pass.kept_after.success.entries.contains_key(other)
            <==> pass.kept.success.entries.contains_key(other),
        pass.kept.success.entries.contains_key(other) ==> pass.kept_after.success.entries[other]
            == pass.kept.success.entries[other],
        pass.kept_after.denial.entries.contains_key(other)
            <==> pass.kept.denial.entries.contains_key(other),
        pass.kept.denial.entries.contains_key(other) ==> pass.kept_after.denial.entries[other]
            == pass.kept.denial.entries[other],
{
}

} // verus!
