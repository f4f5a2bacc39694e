//! The forward plugin: queries are passed on to upstream servers.

use crate::config::{clone_texts, Directive, PluginConfig};
use crate::duration;
use crate::duration::MAX_MILLIS;
use crate::metrics;
use crate::metrics::{record, Amount, Family, Metric, Sample};
use crate::outside;
use crate::outside::{shuffle, to_uppercase};
use crate::plugin::cache::CacheStore;
use crate::plugin::prometheus;
use crate::plugin::prometheus::rcode_to_str;
use crate::plugin::{Pass, Plugin, PluginError, Progress, Setting, SharedState, MAX_NOW};
use crate::text;
use crate::text::{
    concat, decimal_text, ends_with, has_char, parse_number, remove_all, same_text, split_text,
    starts_with,
};
use crate::types::DnsMessage;
use crate::wire;
use crate::wire::question_name_of;
use vstd::prelude::*;

verus! {

/// In which order the upstream servers are asked.
#[derive(Debug, Clone, Copy, PartialEq, Eq, Structural)]
pub enum Policy {
    Sequential,
    Random,
    RoundRobin,
}

/// How an upstream server is asked.
#[derive(Debug, Clone, Copy, PartialEq, Eq, Structural)]
pub enum Transport {
    Udp,
    Tcp,
    Tls,
}

/// An upstream server and what the health checks have found out about it.
#[derive(Debug)]
pub struct Upstream {
    pub ip: String,
    pub port: u16,
    pub is_tls: bool,
    pub is_healthy: bool,
    /// How many health checks in a row have failed.
    pub fails: usize,
}

/// What is known about an upstream server.
pub struct UpstreamText {
    pub ip: Seq<char>,
    pub port: u16,
    pub is_tls: bool,
    pub is_healthy: bool,
    pub fails: usize,
}

impl View for Upstream {
    type V = UpstreamText;

    open spec fn view(&self) -> UpstreamText {
        UpstreamText {
            ip: self.ip@,
            port: self.port,
            is_tls: self.is_tls,
            is_healthy: self.is_healthy,
            fails: self.fails,
        }
    }
}

/// What is known about each upstream server of a list.
pub open spec fn upstream_texts(v: Seq<Upstream>) -> Seq<UpstreamText> {
    v.map_values(|u: Upstream| u@)
}

/// The server that an argument names: an address, optionally behind `tls://`
/// and in front of a colon and a port. Where no port can be read it is the
/// usual one, 853 with TLS and 53 without.
pub open spec fn upstream_of(arg: Seq<char>) -> UpstreamText {
    let is_tls = "tls://"@.is_prefix_of(arg);
    let usual = if is_tls {
        853u16
    } else {
        53u16
    };
    let clean = text::without(arg, "tls://"@);
    let parts = text::split(clean, ':');
    UpstreamText {
        ip: parts[0],
        port: if clean.contains(':') {
            match text::number_of(parts[1], u16::MAX as int) {
                Some(n) => n as u16,
                None => usual,
            }
        } else {
            usual
        },
        is_tls,
        is_healthy: true,
        fails: 0,
    }
}

/// The servers that the arguments name, in order; `.` and `{}` name none.
pub open spec fn upstreams_of(args: Seq<Seq<char>>) -> Seq<UpstreamText>
    decreases args.len(),
{
    if args.len() == 0 {
        Seq::empty()
    } else if args.last() == "."@ || args.last() == "{}"@ {
        upstreams_of(args.drop_last())
    } else {
        upstreams_of(args.drop_last()).push(upstream_of(args.last()))
    }
}

/// Reads the server that an argument names.
fn read_upstream(arg: &str) -> (r: Upstream)
    ensures
        r@ == upstream_of(arg@),
{
    let is_tls: bool = starts_with(arg, "tls://");
    let usual: u16 = if is_tls {
        853
    } else {
        53
    };
    let clean = remove_all(arg, "tls://");
    let parts = split_text(clean.as_str(), ':');
    assert(text::texts(parts@)[0] == parts@[0]@);
    let ip = parts[0].clone();
    let mut port: u16 = usual;
    if has_char(clean.as_str(), ':') {
        assert(text::texts(parts@)[1] == parts@[1]@);
        port = match parse_number(parts[1].as_str(), u16::MAX as u64) {
            Some(n) => n as u16,
            None => usual,
        };
    }
    Upstream { ip, port, is_tls, is_healthy: true, fails: 0 }
}

/// Reads the servers that the arguments name.
fn read_upstreams(args: &Vec<String>) -> (r: Vec<Upstream>)
    ensures
        upstream_texts(r@) == upstreams_of(text::texts(args@)),
{
    let ghost all = text::texts(args@);
    let mut r: Vec<Upstream> = Vec::new();
    let mut i: usize = 0;
    assert(upstream_texts(r@) =~= upstreams_of(all.take(0)));
    while i < args.len()
        invariant
            i <= args@.len(),
            all == text::texts(args@),
            upstream_texts(r@) == upstreams_of(all.take(i as int)),
        decreases args@.len() - i,
    {
        let arg = args[i].as_str();
        proof {
            assert(all.take(i + 1).drop_last() =~= all.take(i as int));
            assert(all.take(i + 1).last() == arg@);
        }
        if !(same_text(arg, ".") || same_text(arg, "{}")) {
            let ghost before = r@;
            let up = read_upstream(arg);
            r.push(up);
            assert(upstream_texts(r@) =~= upstream_texts(before).push(up@));
        }
        i = i + 1;
    }
    assert(all.take(i as int) =~= all);
    r
}

/// The response code that a name in upper case stands for; that of SERVFAIL
/// for any other name.
pub open spec fn rcode_called(name: Seq<char>) -> u8 {
    if name == "NOERROR"@ {
        0
    } else if name == "FORMERR"@ {
        1
    } else if name == "NXDOMAIN"@ {
        3
    } else if name == "NOTIMP"@ {
        4
    } else if name == "REFUSED"@ {
        5
    } else {
        2
    }
}

/// The response code that a name in upper case stands for.
pub fn rcode_of_uppercase(name: &str) -> (r: u8)
    ensures
        r == rcode_called(name@),
{
    if same_text(name, "NOERROR") {
        0
    } else if same_text(name, "FORMERR") {
        1
    } else if same_text(name, "NXDOMAIN") {
        3
    } else if same_text(name, "NOTIMP") {
        4
    } else if same_text(name, "REFUSED") {
        5
    } else {
        2
    }
}

/// The response code that a name stands for, in any mixture of upper and lower
/// case.
pub fn parse_rcode(s: &str) -> (r: u8)
    ensures
        r == rcode_called(outside::uppercase(s@)),
        vstd::utf8::is_ascii_chars(s@) ==> r == rcode_called(
            s@.map_values(|c: char| outside::ascii_upper(c)),
        ),
{
    let upper = to_uppercase(s);
    rcode_of_uppercase(upper.as_str())
}

/// The response codes that a list of names stands for.
pub open spec fn rcodes_of(names: Seq<Seq<char>>) -> Seq<u8> {
    names.map_values(|s: Seq<char>| rcode_called(outside::uppercase(s)))
}

/// Appends the response codes that a list of names stands for.
fn push_rcodes(rcodes: &mut Vec<u8>, names: &Vec<String>)
    ensures
        final(rcodes)@ == old(rcodes)@ + rcodes_of(text::texts(names@)),
{
    let ghost all = rcodes_of(text::texts(names@));
    let mut i: usize = 0;
    assert(rcodes@ =~= old(rcodes)@ + all.take(0));
    while i < names.len()
        invariant
            i <= names@.len(),
            all == rcodes_of(text::texts(names@)),
            rcodes@ == old(rcodes)@ + all.take(i as int),
        decreases names@.len() - i,
    {
        rcodes.push(parse_rcode(names[i].as_str()));
        i = i + 1;
        assert(rcodes@ =~= old(rcodes)@ + all.take(i as int));
    }
    assert(all.take(i as int) =~= all);
}

/// Reads a length of time with one of the units `ms`, `s` and `m`.
pub fn parse_duration(s: &str) -> (r: Option<u128>)
    ensures
        match duration::duration_of(s@, false) {
            Some(k) => r == Some(k as u128) && 0 <= k <= MAX_MILLIS,
            None => r is None,
        },
{
    duration::parse_duration(s, false)
}

/// What the block of the directive settles.
pub struct ForwardOptions {
    pub tls_servername: Option<Seq<char>>,
    pub failover_rcodes: Seq<u8>,
    pub next_rcodes: Seq<u8>,
    pub policy: Policy,
    pub except_domains: Seq<Seq<char>>,
    pub force_tcp: bool,
    pub max_concurrent: Option<usize>,
    pub failfast: bool,
    pub max_idle_conns: usize,
    pub expire_duration: u128,
    pub max_fails: usize,
    pub health_check_interval: u128,
}

/// What holds where the block says nothing.
pub open spec fn usual_options() -> ForwardOptions {
    ForwardOptions {
        tls_servername: None,
        failover_rcodes: Seq::empty(),
        next_rcodes: Seq::empty(),
        policy: Policy::Random,
        except_domains: Seq::empty(),
        force_tcp: false,
        max_concurrent: None,
        failfast: false,
        max_idle_conns: 0,
        expire_duration: 10_000,
        max_fails: 2,
        health_check_interval: 500,
    }
}

/// The number that an argument stands for, or `otherwise`.
pub open spec fn number_or(arg: Seq<char>, otherwise: usize) -> usize {
    match text::number_of(arg, usize::MAX as int) {
        Some(n) => n as usize,
        None => otherwise,
    }
}

/// The length of time that an argument stands for, or `otherwise`.
pub open spec fn duration_or(arg: Seq<char>, otherwise: u128) -> u128 {
    match duration::duration_of(arg, false) {
        Some(n) => n as u128,
        None => otherwise,
    }
}

/// The policy that a word stands for; `Random` for any other word.
pub open spec fn policy_called(word: Seq<char>) -> Policy {
    if word == "sequential"@ {
        Policy::Sequential
    } else if word == "round_robin"@ {
        Policy::RoundRobin
    } else {
        Policy::Random
    }
}

/// The options after one more directive of the block. Where an argument is
/// wanted and there is none the option stays as it was, but for the server
/// name, which is then taken back. TCP is forced unless the argument is
/// `false`.
pub open spec fn option_applied(o: ForwardOptions, d: Directive) -> ForwardOptions {
    let has_arg = d.args.len() > 0;
    if d.name == "tls_servername"@ {
        ForwardOptions {
            tls_servername: if has_arg {
                Some(d.args[0])
            } else {
                None
            },
            ..o
        }
    } else if d.name == "failover"@ {
        ForwardOptions { failover_rcodes: o.failover_rcodes + rcodes_of(d.args), ..o }
    } else if d.name == "next"@ {
        ForwardOptions { next_rcodes: o.next_rcodes + rcodes_of(d.args), ..o }
    } else if d.name == "except"@ {
        ForwardOptions { except_domains: d.args, ..o }
    } else if d.name == "force_tcp"@ {
        ForwardOptions { force_tcp: !(has_arg && d.args[0] == "false"@), ..o }
    } else if d.name == "failfast_all_unhealthy_upstreams"@ {
        ForwardOptions { failfast: true, ..o }
    } else if !has_arg {
        o
    } else if d.name == "max_fails"@ {
        ForwardOptions { max_fails: number_or(d.args[0], 2), ..o }
    } else if d.name == "max_idle_conns"@ {
        ForwardOptions { max_idle_conns: number_or(d.args[0], 0), ..o }
    } else if d.name == "expire"@ {
        ForwardOptions { expire_duration: duration_or(d.args[0], 10_000), ..o }
    } else if d.name == "max_concurrent"@ {
        match text::number_of(d.args[0], usize::MAX as int) {
            Some(n) => ForwardOptions { max_concurrent: Some(n as usize), ..o },
            None => o,
        }
    } else if d.name == "health_check"@ {
        ForwardOptions { health_check_interval: duration_or(d.args[0], 500), ..o }
    } else if d.name == "policy"@ {
        ForwardOptions { policy: policy_called(d.args[0]), ..o }
    } else {
        o
    }
}

/// The options after all directives of a block, in order.
pub open spec fn options_of(block: Seq<Directive>) -> ForwardOptions
    decreases block.len(),
{
    if block.len() == 0 {
        usual_options()
    } else {
        option_applied(options_of(block.drop_last()), block.last())
    }
}

/// The options as they are used: no limit on idle connections means 1000.
pub open spec fn settled(o: ForwardOptions) -> ForwardOptions {
    if o.max_idle_conns == 0 {
        ForwardOptions { max_idle_conns: 1000, ..o }
    } else {
        o
    }
}

/// The forward plugin.
#[derive(Debug)]
pub struct ForwardPlugin {
    pub upstreams: Vec<Upstream>,
    /// The name that a server has to prove over TLS, in place of its address.
    pub tls_servername: Option<String>,
    /// The response codes after which the next server is asked.
    pub failover_rcodes: Vec<u8>,
    /// The response codes with which the message goes on down the chain.
    pub next_rcodes: Vec<u8>,
    pub policy: Policy,
    /// The endings of names that are not forwarded.
    pub except_domains: Vec<String>,
    pub force_tcp: bool,
    /// How many queries may be under way at once.
    pub max_concurrent: Option<usize>,
    /// Whether to fail at once while no server is healthy.
    pub failfast: bool,
    pub max_idle_conns: usize,
    /// How long an idle connection may be used again, in milliseconds.
    pub expire_duration: u128,
    /// How many failed health checks in a row make a server unhealthy.
    pub max_fails: usize,
    /// The time between two health checks, in milliseconds.
    pub health_check_interval: u128,
    /// How many queries have been handed out in turn.
    pub rr_counter: usize,
}

/// The number that an argument stands for.
fn number_from(arg: &str) -> (r: Option<usize>)
    ensures
        match text::number_of(arg@, usize::MAX as int) {
            Some(n) => r == Some(n as usize),
            None => r is None,
        },
{
    match parse_number(arg, usize::MAX as u64) {
        Some(n) => Some(n as usize),
        None => None,
    }
}

impl ForwardPlugin {
    /// The options that the plugin works with.
    pub open spec fn options(self) -> ForwardOptions {
        ForwardOptions {
            tls_servername: match self.tls_servername {
                Some(s) => Some(s@),
                None => None,
            },
            failover_rcodes: self.failover_rcodes@,
            next_rcodes: self.next_rcodes@,
            policy: self.policy,
            except_domains: text::texts(self.except_domains@),
            force_tcp: self.force_tcp,
            max_concurrent: self.max_concurrent,
            failfast: self.failfast,
            max_idle_conns: self.max_idle_conns,
            expire_duration: self.expire_duration,
            max_fails: self.max_fails,
            health_check_interval: self.health_check_interval,
        }
    }

    /// Whether the lengths of time are within what a configuration can say.
    pub open spec fn times_fit(self) -> bool {
        self.expire_duration <= MAX_MILLIS && self.health_check_interval <= MAX_MILLIS
    }

    /// Applies one directive of the block.
    fn apply(&mut self, sub: &PluginConfig)
        ensures
            final(self).options() == option_applied(old(self).options(), sub@),
            final(self).upstreams == old(self).upstreams,
            final(self).rr_counter == old(self).rr_counter,
            old(self).times_fit() ==> final(self).times_fit(),
    {
        let name = sub.name.as_str();
        let ghost args = sub@.args;
        assert(args.len() == sub.args@.len());
        assert(args.len() > 0 ==> args[0] == sub.args@[0]@);
        if same_text(name, "tls_servername") {
            self.tls_servername = if sub.args.len() > 0 {
                Some(sub.args[0].clone())
            } else {
                None
            };
        } else if same_text(name, "failover") {
            push_rcodes(&mut self.failover_rcodes, &sub.args);
        } else if same_text(name, "next") {
            push_rcodes(&mut self.next_rcodes, &sub.args);
        } else if same_text(name, "except") {
            self.except_domains = clone_texts(&sub.args);
        } else if same_text(name, "force_tcp") {
            self.force_tcp = !(sub.args.len() > 0 && same_text(sub.args[0].as_str(), "false"));
        } else if same_text(name, "failfast_all_unhealthy_upstreams") {
            self.failfast = true;
        } else if sub.args.len() == 0 {
        } else if same_text(name, "max_fails") {
            self.max_fails = match number_from(sub.args[0].as_str()) {
                Some(n) => n,
                None => 2,
            };
        } else if same_text(name, "max_idle_conns") {
            self.max_idle_conns = match number_from(sub.args[0].as_str()) {
                Some(n) => n,
                None => 0,
            };
        } else if same_text(name, "expire") {
            self.expire_duration = match parse_duration(sub.args[0].as_str()) {
                Some(ms) => ms,
                None => 10_000,
            };
        } else if same_text(name, "max_concurrent") {
            match number_from(sub.args[0].as_str()) {
                Some(n) => {
                    self.max_concurrent = Some(n);
                },
                None => {},
            }
        } else if same_text(name, "health_check") {
            self.health_check_interval = match parse_duration(sub.args[0].as_str()) {
                Some(ms) => ms,
                None => 500,
            };
        } else if same_text(name, "policy") {
            self.policy = if same_text(sub.args[0].as_str(), "sequential") {
                Policy::Sequential
            } else if same_text(sub.args[0].as_str(), "round_robin") {
                Policy::RoundRobin
            } else {
                Policy::Random
            };
        }
    }
}

/// A query made into an answer with nothing but a response code: the bit that
/// marks a response and the code are set on top of what is there. Bytes that
/// are too few for a header stay as they are.
pub open spec fn error_response(query: Seq<u8>, rcode: u8) -> Seq<u8> {
    if query.len() >= 4 {
        query.update(2, query[2] | 0x80).update(3, query[3] | (rcode & 0x0f))
    } else {
        query
    }
}

/// Makes a query into an answer with nothing but a response code.
pub fn build_error_response(query: &Vec<u8>, rcode: u8) -> (r: Vec<u8>)
    ensures
        r@ == error_response(query@, rcode),
{
    let mut r: Vec<u8> = Vec::new();
    r.extend_from_slice(query.as_slice());
    assert(r@ =~= query@);
    if r.len() >= 4 {
        let flags: u8 = r[2] | 0x80;
        r.set(2, flags);
        let codes: u8 = r[3] | (rcode & 0x0f);
        r.set(3, codes);
    }
    r
}

/// The query of a health check: for the name servers of the root.
pub open spec fn health_probe() -> Seq<u8> {
    seq![
        0x12u8, 0x34, 0x01, 0x00, 0x00, 0x01, 0x00, 0x00, 0x00, 0x00, 0x00, 0x00, 0x00, 0x00, 0x02,
        0x00, 0x01,
    ]
}

/// The query of a health check.
pub fn build_health_probe() -> (r: Vec<u8>)
    ensures
        r@ == health_probe(),
{
    let r: Vec<u8> = vec![
        0x12, 0x34, 0x01, 0x00, 0x00, 0x01, 0x00, 0x00, 0x00, 0x00, 0x00, 0x00, 0x00, 0x00, 0x02,
        0x00, 0x01,
    ];
    assert(r@ =~= health_probe());
    r
}

/// The name that a query asks for, as it is shown: `.` where it has none.
pub open spec fn shown_name(query: Seq<u8>) -> Seq<char> {
    match wire::question_name(query) {
        Some(name) => name,
        None => "."@,
    }
}

/// The name that a query asks for; none where the query has no whole header.
pub fn extract_qname_string(query: &[u8]) -> (r: Option<String>)
    ensures
        match wire::question_name(query@) {
            Some(name) => r is Some && r->0@ == name,
            None => r is None,
        },
{
    question_name_of(query)
}

/// The name that a query asks for, as it is shown.
fn shown_name_of(query: &Vec<u8>) -> (r: String)
    ensures
        r@ == shown_name(query@),
{
    match extract_qname_string(query.as_slice()) {
        Some(name) => name,
        None => ".".to_owned(),
    }
}

/// Whether a name ends in one of the given texts.
pub open spec fn excepted(domains: Seq<Seq<char>>, name: Seq<char>) -> bool {
    exists|i: int| 0 <= i < domains.len() && (#[trigger] domains[i]).is_suffix_of(name)
}

/// The numbers of the healthy servers, in ascending order.
pub open spec fn healthy(upstreams: Seq<UpstreamText>) -> Seq<usize>
    decreases upstreams.len(),
{
    if upstreams.len() == 0 {
        Seq::empty()
    } else if upstreams.last().is_healthy {
        healthy(upstreams.drop_last()).push((upstreams.len() - 1) as usize)
    } else {
        healthy(upstreams.drop_last())
    }
}

/// The numbers of the servers that are asked: the healthy ones, or all where
/// none is healthy.
pub open spec fn candidates(upstreams: Seq<UpstreamText>) -> Seq<usize> {
    if healthy(upstreams).len() > 0 {
        healthy(upstreams)
    } else {
        Seq::new(upstreams.len(), |i: int| i as usize)
    }
}

/// A list with its first `n` elements moved behind the others.
pub open spec fn rotated(v: Seq<usize>, n: int) -> Seq<usize> {
    v.skip(n) + v.take(n)
}

/// Whether the servers are put into an order that the policy allows.
pub open spec fn ordered(
    policy: Policy,
    counter: usize,
    candidates: Seq<usize>,
    order: Seq<usize>,
) -> bool {
    match policy {
        Policy::Sequential => order == candidates,
        Policy::Random => order.to_multiset() == candidates.to_multiset(),
        Policy::RoundRobin => if candidates.len() > 0 {
            order == rotated(candidates, counter as int % candidates.len() as int)
        } else {
            order == candidates
        },
    }
}

/// One more than a count, which wraps around at its limit.
pub open spec fn one_more(n: usize) -> usize {
    if n == usize::MAX {
        0
    } else {
        (n + 1) as usize
    }
}

impl ForwardPlugin {
    /// What is known about the servers.
    pub open spec fn servers(self) -> Seq<UpstreamText> {
        upstream_texts(self.upstreams@)
    }

    /// Whether a message is to be forwarded.
    pub open spec fn takes(self, msg: DnsMessage) -> bool {
        &&& !msg.halt_chain
        &&& self.upstreams@.len() > 0
        &&& msg.raw_query@.len() > 0
        &&& !excepted(self.options().except_domains, shown_name(msg.raw_query@))
    }

    /// How a server is asked.
    pub open spec fn transport_to(self, up: UpstreamText) -> Transport {
        if up.is_tls {
            Transport::Tls
        } else if self.force_tcp {
            Transport::Tcp
        } else {
            Transport::Udp
        }
    }

    /// What the outcome of a health check leads to; `down` is the number of
    /// failures in a row where the server has become unhealthy by it.
    pub open spec fn checked(
        self,
        after: ForwardPlugin,
        idx: int,
        ok: bool,
        down: Option<usize>,
    ) -> bool {
        let up = self.servers()[idx];
        let now = probed(up, self.max_fails, ok);
        &&& after.servers() == self.servers().update(idx, now)
        &&& after.options() == self.options()
        &&& after.rr_counter == self.rr_counter
        &&& down == if up.is_healthy && !now.is_healthy {
            Some(now.fails)
        } else {
            None
        }
    }

    /// The name that a server has to prove over TLS.
    pub open spec fn name_to_prove(self, up: UpstreamText) -> Seq<char> {
        match self.tls_servername {
            Some(name) => name@,
            None => up.ip,
        }
    }

    /// How the health of a server is checked.
    pub open spec fn probed_over(self, up: UpstreamText) -> Transport {
        if up.is_tls {
            Transport::Tls
        } else {
            Transport::Udp
        }
    }

    /// The plugin with its count of queries handed out in turn set to `n`.
    pub open spec fn counting(self, n: usize) -> ForwardPlugin {
        ForwardPlugin { rr_counter: n, ..self }
    }

    /// How the plugin goes on with a message that it may forward: it fails it
    /// at once, or it names the servers that are to be asked in turn.
    pub open spec fn dispatched(
        self,
        after: ForwardPlugin,
        msg: DnsMessage,
        msg_after: DnsMessage,
        progress: Progress,
    ) -> bool {
        if healthy(self.servers()).len() == 0 && self.failfast {
            &&& after == self
            &&& progress is Passed
            &&& msg.answered(msg_after, error_response(msg.raw_query@, 2), "forward"@, true)
        } else {
            let chosen = candidates(self.servers());
            &&& msg_after == msg
            &&& after == if self.policy == Policy::RoundRobin && chosen.len() > 0 {
                self.counting(one_more(self.rr_counter))
            } else {
                self
            }
            &&& progress matches Progress::Ask(order)
            &&& ordered(self.policy, self.rr_counter, chosen, order@)
        }
    }

    /// How the plugin goes on once it is known whether there is a permit: as it
    /// would without a limit, or by refusing the message.
    pub open spec fn permitted(
        self,
        after: ForwardPlugin,
        msg: DnsMessage,
        msg_after: DnsMessage,
        granted: bool,
        progress: Progress,
        samples: Seq<Sample>,
        samples_after: Seq<Sample>,
    ) -> bool {
        if granted {
            &&& self.dispatched(after, msg, msg_after, progress)
            &&& samples_after == samples
        } else {
            &&& after == self
            &&& progress is Passed
            &&& msg.answered(msg_after, error_response(msg.raw_query@, 5), "forward"@, true)
            &&& samples_after == samples.push(
                metrics::sample(Family::ForwardMaxConcurrentRejects, Seq::empty(), Amount::Inc),
            )
        }
    }

    /// What becomes of the reply of a server: one with a code for which the
    /// next server is asked is dropped; any other is the answer, and the chain
    /// halts unless the code is one with which the message goes on.
    pub open spec fn replied(
        self,
        msg: DnsMessage,
        msg_after: DnsMessage,
        idx: int,
        reply: Seq<u8>,
        elapsed: u128,
        verdict: Verdict,
        samples: Seq<Sample>,
        samples_after: Seq<Sample>,
    ) -> bool {
        let rcode = wire::rcode_of(reply);
        &&& samples_after == samples.push(
            exchange_sample(
                prometheus::rcode_name(rcode),
                address(self.upstreams@[idx]@),
                elapsed,
            ),
        )
        &&& if self.failover_rcodes@.contains(rcode) {
            verdict == Verdict::AskNext && msg_after == msg
        } else {
            verdict == Verdict::Answered && msg.answered(
                msg_after,
                reply,
                "forward"@,
                !self.next_rcodes@.contains(rcode),
            )
        }
    }

    /// Whether the ending with number `k` is the first that keeps a message
    /// from being forwarded, where nothing else does.
    pub open spec fn excepting(self, msg: DnsMessage, k: int) -> bool {
        let domains = self.options().except_domains;
        let name = shown_name(msg.raw_query@);
        &&& !msg.halt_chain
        &&& self.upstreams@.len() > 0
        &&& msg.raw_query@.len() > 0
        &&& 0 <= k < domains.len()
        &&& domains[k].is_suffix_of(name)
        &&& forall|j: int| 0 <= j < k ==> !(#[trigger] domains[j]).is_suffix_of(name)
    }

    /// The number of the first ending that keeps a message from being
    /// forwarded, where nothing else does.
    pub fn except_rule(&self, msg: &DnsMessage) -> (r: Option<usize>)
        ensures
            match r {
                Some(k) => self.excepting(*msg, k as int) && !self.takes(*msg),
                None => forall|k: int| !self.excepting(*msg, k),
            },
            r is None ==> (self.takes(*msg) <==> !msg.halt_chain && self.upstreams@.len() > 0
                && msg.raw_query@.len() > 0),
    {
        if msg.halt_chain || self.upstreams.len() == 0 || msg.raw_query.len() == 0 {
            return None;
        }
        let name = shown_name_of(&msg.raw_query);
        let ghost domains = text::texts(self.except_domains@);
        let mut i: usize = 0;
        while i < self.except_domains.len()
            invariant
                i <= self.except_domains@.len(),
                domains == text::texts(self.except_domains@),
                name@ == shown_name(msg.raw_query@),
                !msg.halt_chain,
                self.upstreams@.len() > 0,
                msg.raw_query@.len() > 0,
                forall|k: int| 0 <= k < i ==> !(#[trigger] domains[k]).is_suffix_of(name@),
            decreases self.except_domains@.len() - i,
        {
            assert(domains[i as int] == self.except_domains@[i as int]@);
            if ends_with(name.as_str(), self.except_domains[i].as_str()) {
                return Some(i);
            }
            i = i + 1;
        }
        None
    }

    /// Whether a message is to be forwarded.
    fn wants(&self, msg: &DnsMessage) -> (r: bool)
        ensures
            r == self.takes(*msg),
    {
        !msg.halt_chain && self.upstreams.len() > 0 && msg.raw_query.len() > 0 && self.except_rule(
            msg,
        ).is_none()
    }

    /// The numbers of the healthy servers.
    fn healthy_upstreams(&self) -> (r: Vec<usize>)
        ensures
            r@ == healthy(self.servers()),
    {
        let ghost all = self.servers();
        let mut r: Vec<usize> = Vec::new();
        let mut i: usize = 0;
        assert(r@ =~= healthy(all.take(0)));
        while i < self.upstreams.len()
            invariant
                i <= self.upstreams@.len(),
                all == self.servers(),
                r@ == healthy(all.take(i as int)),
            decreases self.upstreams@.len() - i,
        {
            proof {
                assert(all.take(i + 1).drop_last() =~= all.take(i as int));
                assert(all.take(i + 1).last() == self.upstreams@[i as int]@);
            }
            if self.upstreams[i].is_healthy {
                r.push(i);
            }
            i = i + 1;
        }
        assert(all.take(i as int) =~= all);
        r
    }

    /// Goes on with a message that may be forwarded.
    fn dispatch(&mut self, msg: &mut DnsMessage) -> (progress: Progress)
        ensures
            old(self).dispatched(*final(self), *old(msg), *final(msg), progress),
    {
        let mut order = self.healthy_upstreams();
        if order.len() == 0 {
            if self.failfast {
                msg.raw_response = Some(build_error_response(&msg.raw_query, 2));
                msg.halt_chain = true;
                msg.answered_by = "forward".to_owned();
                return Progress::Passed;
            }
            while order.len() < self.upstreams.len()
                invariant
                    order@.len() <= self.upstreams@.len(),
                    forall|k: int| 0 <= k < order@.len() ==> order@[k] == k,
                decreases self.upstreams@.len() - order@.len(),
            {
                order.push(order.len());
            }
            assert(order@ =~= Seq::new(self.servers().len(), |i: int| i as usize));
        }
        let ghost chosen = order@;
        assert(chosen == candidates(self.servers()));
        match self.policy {
            Policy::Sequential => {},
            Policy::Random => {
                shuffle(&mut order);
            },
            Policy::RoundRobin => {
                if order.len() > 0 {
                    let start: usize = self.rr_counter % order.len();
                    self.rr_counter = self.rr_counter.wrapping_add(1);
                    order = rotate(&order, start);
                }
            },
        }
        Progress::Ask(order)
    }
}

/// A list with its first `n` elements moved behind the others.
fn rotate(v: &Vec<usize>, n: usize) -> (r: Vec<usize>)
    requires
        n <= v@.len(),
    ensures
        r@ == rotated(v@, n as int),
{
    let mut r: Vec<usize> = Vec::new();
    let mut i: usize = n;
    while i < v.len()
        invariant
            n <= i <= v@.len(),
            r@ == v@.subrange(n as int, i as int),
        decreases v@.len() - i,
    {
        r.push(v[i]);
        i = i + 1;
        assert(r@ =~= v@.subrange(n as int, i as int));
    }
    let mut k: usize = 0;
    assert(r@ =~= v@.skip(n as int) + v@.take(0));
    while k < n
        invariant
            k <= n <= v@.len(),
            r@ == v@.skip(n as int) + v@.take(k as int),
        decreases n - k,
    {
        r.push(v[k]);
        k = k + 1;
        assert(r@ =~= v@.skip(n as int) + v@.take(k as int));
    }
    r
}

/// The address of a server with its port.
pub open spec fn address(up: UpstreamText) -> Seq<char> {
    up.ip + ":"@ + text::decimal(up.port as nat)
}

impl Upstream {
    /// The address of the server with its port.
    pub fn address(&self) -> (r: String)
        ensures
            r@ == address(self@),
    {
        let mut r = concat(self.ip.as_str(), ":");
        r.append(decimal_text(self.port as u64).as_str());
        r
    }
}

/// The label for the way in which a server is asked.
pub open spec fn transport_label(transport: Transport) -> Seq<char> {
    match transport {
        Transport::Udp => "udp"@,
        Transport::Tcp => "tcp"@,
        Transport::Tls => "tcp-tls"@,
    }
}

/// The measurement of how a connection to a server came about.
pub open spec fn connection_sample(
    transport: Transport,
    reused: bool,
    addr: Seq<char>,
) -> Sample {
    metrics::sample(
        if reused && transport != Transport::Udp {
            Family::ProxyConnCacheHits
        } else {
            Family::ProxyConnCacheMisses
        },
        seq![transport_label(transport), "forward"@, addr],
        Amount::Inc,
    )
}

/// The measurement of the time that an exchange with a server took.
pub open spec fn exchange_sample(code: Seq<char>, addr: Seq<char>, elapsed: u128) -> Sample {
    metrics::sample(
        Family::ProxyRequestDuration,
        seq!["forward"@, code, addr],
        Amount::ObserveNanos(elapsed),
    )
}

/// How the exchange with a server ended.
#[derive(Debug, Clone, Copy, PartialEq, Eq, Structural)]
pub enum Verdict {
    /// The message has its answer.
    Answered,
    /// The next server is to be asked.
    AskNext,
}

/// The report of a failed exchange.
pub open spec fn failure_report(addr: Seq<char>, name: Seq<char>, error: Seq<char>) -> Seq<char> {
    "Failed to connect to "@ + addr + " for '"@ + name + "': "@ + error
}

impl ForwardPlugin {
    /// Goes on with a message once it is known whether there is a permit for
    /// it. Without one it is refused.
    pub fn on_permit(
        &mut self,
        msg: &mut DnsMessage,
        granted: bool,
        metrics: &mut Vec<Metric>,
    ) -> (progress: Progress)
        ensures
            old(self).permitted(
                *final(self),
                *old(msg),
                *final(msg),
                granted,
                progress,
                metrics::samples(old(metrics)@),
                metrics::samples(final(metrics)@),
            ),
    {
        if granted {
            self.dispatch(msg)
        } else {
            record(metrics, Family::ForwardMaxConcurrentRejects, &[], Amount::Inc);
            assert(metrics::samples(metrics@).last().labels =~= Seq::empty());
            msg.raw_response = Some(build_error_response(&msg.raw_query, 5));
            msg.halt_chain = true;
            msg.answered_by = "forward".to_owned();
            Progress::Passed
        }
    }

    /// How a server is asked: over TLS where it is configured so, or else over
    /// TCP where that is forced, or else over UDP.
    pub fn transport(&self, idx: usize) -> (r: Transport)
        requires
            idx < self.upstreams@.len(),
        ensures
            r == self.transport_to(self.upstreams@[idx as int]@),
    {
        if self.upstreams[idx].is_tls {
            Transport::Tls
        } else if self.force_tcp {
            Transport::Tcp
        } else {
            Transport::Udp
        }
    }

    /// How the health of a server is checked: over TLS where it is configured
    /// so, or else over UDP, also where queries are sent over TCP.
    pub fn probe_transport(&self, idx: usize) -> (r: Transport)
        requires
            idx < self.upstreams@.len(),
        ensures
            r == if self.upstreams@[idx as int].is_tls {
                Transport::Tls
            } else {
                Transport::Udp
            },
            r == self.probed_over(self.upstreams@[idx as int]@),
    {
        if self.upstreams[idx].is_tls {
            Transport::Tls
        } else {
            Transport::Udp
        }
    }

    /// The name that a server has to prove over TLS: the configured one, or
    /// else its address.
    pub fn server_name(&self, idx: usize) -> (r: String)
        requires
            idx < self.upstreams@.len(),
        ensures
            r@ == match self.options().tls_servername {
                Some(name) => name,
                None => self.upstreams@[idx as int].ip@,
            },
            r@ == self.name_to_prove(self.upstreams@[idx as int]@),
    {
        match &self.tls_servername {
            Some(name) => name.clone(),
            None => self.upstreams[idx].ip.clone(),
        }
    }

    /// Records how the connection to a server came about: `reused` says
    /// whether an idle one was at hand. Over UDP there is never one.
    pub fn on_connection(&self, idx: usize, reused: bool, metrics: &mut Vec<Metric>)
        requires
            idx < self.upstreams@.len(),
        ensures
            ({
                let up = self.upstreams@[idx as int]@;
                metrics::samples(final(metrics)@) == metrics::samples(old(metrics)@).push(
                    connection_sample(self.transport_to(up), reused, address(up)),
                )
            }),
    {
        let addr = self.upstreams[idx].address();
        let transport = self.transport(idx);
        let family = if reused && transport != Transport::Udp {
            Family::ProxyConnCacheHits
        } else {
            Family::ProxyConnCacheMisses
        };
        let proto: &str = match transport {
            Transport::Udp => "udp",
            Transport::Tcp => "tcp",
            Transport::Tls => "tcp-tls",
        };
        record(metrics, family, &[proto, "forward", addr.as_str()], Amount::Inc);
        assert(metrics::samples(metrics@).last().labels =~= seq![
            proto@,
            "forward"@,
            addr@,
        ]);
    }

    /// Takes the reply of a server.
    pub fn on_reply(
        &self,
        msg: &mut DnsMessage,
        idx: usize,
        reply: Vec<u8>,
        elapsed: u128,
        metrics: &mut Vec<Metric>,
    ) -> (verdict: Verdict)
        requires
            idx < self.upstreams@.len(),
            reply@.len() >= 4,
        ensures
            self.replied(
                *old(msg),
                *final(msg),
                idx as int,
                reply@,
                elapsed,
                verdict,
                metrics::samples(old(metrics)@),
                metrics::samples(final(metrics)@),
            ),
    {
        let rcode: u8 = reply[3] & 0x0f;
        let addr = self.upstreams[idx].address();
        let name = rcode_to_str(rcode);
        record(
            metrics,
            Family::ProxyRequestDuration,
            &["forward", name, addr.as_str()],
            Amount::ObserveNanos(elapsed),
        );
        assert(metrics::samples(metrics@).last().labels =~= seq!["forward"@, name@, addr@]);
        if has_code(&self.failover_rcodes, rcode) {
            return Verdict::AskNext;
        }
        msg.raw_response = Some(reply);
        msg.answered_by = "forward".to_owned();
        msg.halt_chain = !has_code(&self.next_rcodes, rcode);
        Verdict::Answered
    }

    /// Takes note that a server could not be asked, and returns the report.
    pub fn on_failure(
        &self,
        msg: &DnsMessage,
        idx: usize,
        error: &str,
        elapsed: u128,
        metrics: &mut Vec<Metric>,
    ) -> (report: String)
        requires
            idx < self.upstreams@.len(),
        ensures
            report@ == failure_report(
                address(self.upstreams@[idx as int]@),
                shown_name(msg.raw_query@),
                error@,
            ),
            metrics::samples(final(metrics)@) == metrics::samples(old(metrics)@).push(
                exchange_sample("SERVFAIL"@, address(self.upstreams@[idx as int]@), elapsed),
            ),
    {
        let addr = self.upstreams[idx].address();
        record(
            metrics,
            Family::ProxyRequestDuration,
            &["forward", "SERVFAIL", addr.as_str()],
            Amount::ObserveNanos(elapsed),
        );
        assert(metrics::samples(metrics@).last().labels =~= seq![
            "forward"@,
            "SERVFAIL"@,
            addr@,
        ]);
        let mut report = concat("Failed to connect to ", addr.as_str());
        report.append(" for '");
        report.append(shown_name_of(&msg.raw_query).as_str());
        report.append("': ");
        report.append(error);
        report
    }

    /// Whether the health of the servers is checked at all.
    pub fn checks_health(&self) -> (r: bool)
        ensures
            r == (self.max_fails > 0),
    {
        self.max_fails > 0
    }

    /// Takes the outcome of a health check. Returns the number of failures in
    /// a row where the server has become unhealthy by it.
    pub fn on_probe(&mut self, idx: usize, ok: bool) -> (r: Option<usize>)
        requires
            idx < old(self).upstreams@.len(),
        ensures
            final(self).servers() == old(self).servers().update(
                idx as int,
                probed(old(self).servers()[idx as int], old(self).max_fails, ok),
            ),
            final(self).options() == old(self).options(),
            final(self).rr_counter == old(self).rr_counter,
            old(self).checked(*final(self), idx as int, ok, r),
            final(self).upstreams@[idx as int].ip@ == old(self).upstreams@[idx as int].ip@,
            final(self).upstreams@[idx as int].port == old(self).upstreams@[idx as int].port,
            final(self).upstreams@[idx as int].is_tls == old(self).upstreams@[idx as int].is_tls,
            r == if old(self).servers()[idx as int].is_healthy
                && !final(self).servers()[idx as int].is_healthy {
                Some(final(self).servers()[idx as int].fails)
            } else {
                None
            },
    {
        let ghost before = self.servers();
        let limit: usize = self.max_fails;
        let up = &self.upstreams[idx];
        let was: bool = up.is_healthy;
        let fails: usize = if ok {
            0
        } else {
            up.fails.wrapping_add(1)
        };
        let now_healthy: bool = if ok {
            true
        } else {
            was && fails < limit
        };
        let changed = Upstream {
            ip: up.ip.clone(),
            port: up.port,
            is_tls: up.is_tls,
            is_healthy: now_healthy,
            fails,
        };
        self.upstreams.set(idx, changed);
        assert(self.servers() =~= before.update(idx as int, changed@));
        assert(changed@ == probed(before[idx as int], limit, ok));
        if was && !now_healthy {
            Some(fails)
        } else {
            None
        }
    }
}

/// A server after a health check: a success clears the failures and makes it
/// healthy; `limit` failures in a row make it unhealthy.
pub open spec fn probed(up: UpstreamText, limit: usize, ok: bool) -> UpstreamText {
    if ok {
        UpstreamText { fails: 0, is_healthy: true, ..up }
    } else {
        let fails = one_more(up.fails);
        UpstreamText { fails, is_healthy: up.is_healthy && fails < limit, ..up }
    }
}

/// Whether a list of response codes holds a code.
fn has_code(codes: &Vec<u8>, code: u8) -> (r: bool)
    ensures
        r == codes@.contains(code),
{
    let mut i: usize = 0;
    while i < codes.len()
        invariant
            i <= codes@.len(),
            forall|k: int| 0 <= k < i ==> codes@[k] != code,
        decreases codes@.len() - i,
    {
        if codes[i] == code {
            return true;
        }
        i = i + 1;
    }
    false
}

/// A connection that waits to be used again, and the moment from which it may
/// not.
#[derive(Debug)]
pub struct IdleConnection<S> {
    pub stream: S,
    pub expires_at: u128,
}

/// The idle connections to a server, the one used last at the end.
#[derive(Debug)]
pub struct IdlePool<S> {
    pub idle: Vec<IdleConnection<S>>,
}

/// The number of the last connection that has not expired.
pub open spec fn last_fresh<S>(idle: Seq<IdleConnection<S>>, now: u128) -> Option<int>
    decreases idle.len(),
{
    if idle.len() == 0 {
        None
    } else if idle.last().expires_at > now {
        Some(idle.len() - 1)
    } else {
        last_fresh(idle.drop_last(), now)
    }
}

/// The idle connections after one more was put in, unless there are `limit`.
pub open spec fn checked_in<S>(
    idle: Seq<IdleConnection<S>>,
    c: IdleConnection<S>,
    limit: usize,
) -> Seq<IdleConnection<S>> {
    if idle.len() < limit {
        idle.push(c)
    } else {
        idle
    }
}

/// Which connection is taken out of a pool at a moment, and what is left in it.
pub open spec fn taken_out<S>(
    idle: Seq<IdleConnection<S>>,
    after: Seq<IdleConnection<S>>,
    now: u128,
    stream: Option<S>,
) -> bool {
    match last_fresh(idle, now) {
        Some(k) => stream == Some(idle[k].stream) && after == idle.take(k),
        None => stream is None && after.len() == 0,
    }
}

/// The moment from which a connection put back now may not be used again.
pub open spec fn expiry(now: u128, expire: u128) -> int {
    now + expire * 1_000_000
}

impl<S> IdlePool<S> {
    /// A pool without connections.
    pub fn new() -> (r: Self)
        ensures
            r.idle@.len() == 0,
    {
        IdlePool { idle: Vec::new() }
    }

    /// Takes out the connection used last that has not expired, and drops the
    /// expired ones behind it.
    pub fn checkout(&mut self, now: u128) -> (r: Option<S>)
        ensures
            match last_fresh(old(self).idle@, now) {
                Some(k) => {
                    &&& 0 <= k < old(self).idle@.len()
                    &&& r == Some(old(self).idle@[k].stream)
                    &&& old(self).idle@[k].expires_at > now
                    &&& final(self).idle@ == old(self).idle@.take(k)
                },
                None => r is None && final(self).idle@.len() == 0,
            },
            taken_out(old(self).idle@, final(self).idle@, now, r),
    {
        assert(self.idle@ =~= old(self).idle@.take(self.idle@.len() as int));
        while self.idle.len() > 0
            invariant
                self.idle@.len() <= old(self).idle@.len(),
                self.idle@ == old(self).idle@.take(self.idle@.len() as int),
                last_fresh(self.idle@, now) == last_fresh(old(self).idle@, now),
            decreases self.idle@.len(),
        {
            let ghost before = self.idle@;
            let last = self.idle.pop();
            assert(self.idle@ =~= before.drop_last());
            assert(self.idle@ =~= old(self).idle@.take(self.idle@.len() as int));
            match last {
                Some(c) => {
                    assert(c == old(self).idle@[self.idle@.len() as int]);
                    if c.expires_at > now {
                        return Some(c.stream);
                    }
                },
                None => {},
            }
        }
        None
    }

    /// Puts a connection in for `expire` milliseconds, unless the pool holds
    /// `limit` of them already.
    pub fn checkin(&mut self, stream: S, now: u128, expire: u128, limit: usize)
        requires
            now <= MAX_NOW,
            expire <= MAX_MILLIS,
        ensures
            final(self).idle@ == checked_in(
                old(self).idle@,
                (IdleConnection { stream, expires_at: (now + expire * 1_000_000) as u128 }),
                limit,
            ),
            final(self).idle@ == checked_in(
                old(self).idle@,
                (IdleConnection { stream, expires_at: expiry(now, expire) as u128 }),
                limit,
            ),
    {
        if self.idle.len() < limit {
            self.idle.push(IdleConnection { stream, expires_at: now + expire * 1_000_000 });
        }
    }
}

impl Plugin for ForwardPlugin {
    open spec fn called() -> Seq<char> {
        "forward"@
    }

    open spec fn rank() -> u8 {
        100
    }

    open spec fn reads_errors() -> bool {
        false
    }

    open spec fn configured(self, config: Directive, shared: Setting) -> bool {
        &&& self.servers() == upstreams_of(config.args)
        &&& self.options() == settled(options_of(config.block))
        &&& self.rr_counter == 0
        &&& self.times_fit()
    }

    open spec fn accepts(self, msg: DnsMessage) -> bool {
        true
    }

    open spec fn processed(self, after: Self, pass: Pass, progress: Progress) -> bool {
        &&& pass.only_message()
        &&& if !self.takes(pass.msg) {
            after == self && pass.untouched() && progress is Passed
        } else if self.max_concurrent is Some {
            after == self && pass.untouched() && progress is AwaitPermit
        } else {
            self.dispatched(after, pass.msg, pass.msg_after, progress)
        }
    }

    open spec fn accepts_back(self, msg: DnsMessage) -> bool {
        true
    }

    open spec fn post_processed(self, pass: Pass) -> bool {
        pass.untouched()
    }

    fn name(&self) -> (r: &'static str) {
        "forward"
    }

    fn priority(&self) -> (r: u8) {
        100
    }

    fn from_config(config: &PluginConfig, _shared: &mut SharedState) -> (r: Result<
        Self,
        PluginError,
    >) {
        let ghost block = config@.block;
        let mut plugin = ForwardPlugin {
            upstreams: read_upstreams(&config.args),
            tls_servername: None,
            failover_rcodes: Vec::new(),
            next_rcodes: Vec::new(),
            policy: Policy::Random,
            except_domains: Vec::new(),
            force_tcp: false,
            max_concurrent: None,
            failfast: false,
            max_idle_conns: 0,
            expire_duration: 10_000,
            max_fails: 2,
            health_check_interval: 500,
            rr_counter: 0,
        };
        proof {
            assert(plugin.options().except_domains =~= Seq::empty());
            assert(plugin.options() == options_of(block.take(0)));
        }
        let mut i: usize = 0;
        while i < config.block.len()
            invariant
                i <= config.block@.len(),
                block == config@.block,
                plugin.servers() == upstreams_of(config@.args),
                plugin.options() == options_of(block.take(i as int)),
                plugin.rr_counter == 0,
                plugin.times_fit(),
            decreases config.block@.len() - i,
        {
            proof {
                assert(block.take(i + 1).drop_last() =~= block.take(i as int));
                assert(block.take(i + 1).last() == config.block@[i as int]@);
            }
            plugin.apply(&config.block[i]);
            i = i + 1;
        }
        assert(block.take(i as int) =~= block);
        if plugin.max_idle_conns == 0 {
            plugin.max_idle_conns = 1000;
        }
        Ok(plugin)
    }

    fn process(
        &mut self,
        msg: &mut DnsMessage,
        _store: &mut CacheStore,
        _now: u128,
        _metrics: &mut Vec<Metric>,
    ) -> (progress: Progress) {
        if !self.wants(msg) {
            return Progress::Passed;
        }
        if self.max_concurrent.is_some() {
            return Progress::AwaitPermit;
        }
        self.dispatch(msg)
    }

    fn post_process(
        &self,
        _msg: &mut DnsMessage,
        _store: &mut CacheStore,
        _now: u128,
        _metrics: &mut Vec<Metric>,
    ) {
    }
}

/// The healthy servers are exactly those whose number is listed; the numbers
/// ascend, so each is listed once.
proof fn lemma_healthy(upstreams: Seq<UpstreamText>)
    requires
        upstreams.len() <= usize::MAX,
    ensures
        forall|k: int|
            0 <= k < healthy(upstreams).len() ==> {
                &&& (#[trigger] healthy(upstreams)[k]) < upstreams.len()
                &&& upstreams[healthy(upstreams)[k] as int].is_healthy
            },
        forall|i: int|
            0 <= i < upstreams.len() && (#[trigger] upstreams[i]).is_healthy ==> healthy(
                upstreams,
            ).contains(i as usize),
        forall|j: int, k: int|
            0 <= j < k < healthy(upstreams).len() ==> healthy(upstreams)[j] < healthy(
                upstreams,
            )[k],
    decreases upstreams.len(),
{
    if upstreams.len() > 0 {
        let front = upstreams.drop_last();
        let n = front.len() as usize;
        lemma_healthy(front);
        let h = healthy(front);
        assert forall|k: int| 0 <= k < healthy(upstreams).len() implies {
            &&& (#[trigger] healthy(upstreams)[k]) < upstreams.len()
            &&& upstreams[healthy(upstreams)[k] as int].is_healthy
        } by {
            if k < h.len() {
                assert(healthy(upstreams)[k] == h[k]);
                assert(front[h[k] as int] == upstreams[h[k] as int]);
            }
        }
        assert forall|i: int| 0 <= i < upstreams.len() && (
        #[trigger] upstreams[i]).is_healthy implies healthy(upstreams).contains(i as usize) by {
            if i < front.len() {
                assert(front[i].is_healthy);
                let k = choose|k: int| 0 <= k < h.len() && h[k] == i as usize;
                assert(healthy(upstreams)[k] == i as usize);
            } else {
                assert(healthy(upstreams)[h.len() as int] == n);
            }
        }
    }
}

/// Whether no server is healthy.
pub open spec fn none_healthy(upstreams: Seq<UpstreamText>) -> bool {
    forall|k: int| 0 <= k < upstreams.len() ==> !(#[trigger] upstreams[k]).is_healthy
}

/// The servers that are asked are the healthy ones, or all of them where none
/// is healthy; none is asked twice, and they come in the configured order.
pub proof fn law_candidates(upstreams: Seq<UpstreamText>)
    requires
        upstreams.len() <= usize::MAX,
    ensures
        forall|i: int|
            0 <= i < upstreams.len() ==> (candidates(upstreams).contains(i as usize) <==> (
            #[trigger] upstreams[i]).is_healthy || none_healthy(upstreams)),
        forall|k: int|
            0 <= k < candidates(upstreams).len() ==> (#[trigger] candidates(upstreams)[k])
                < upstreams.len(),
        forall|j: int, k: int|
            0 <= j < k < candidates(upstreams).len() ==> candidates(upstreams)[j] < candidates(
                upstreams,
            )[k],
        upstreams.len() > 0 ==> candidates(upstreams).len() > 0,
{
    lemma_healthy(upstreams);
    let c = candidates(upstreams);
    let h = healthy(upstreams);
    assert forall|i: int| 0 <= i < upstreams.len() implies (c.contains(i as usize) <==> (
    #[trigger] upstreams[i]).is_healthy || none_healthy(upstreams)) by {
        if h.len() > 0 {
            assert(upstreams[h[0] as int].is_healthy);
            if c.contains(i as usize) {
                let k = choose|k: int| 0 <= k < h.len() && h[k] == i as usize;
                assert(upstreams[h[k] as int].is_healthy);
            }
        } else {
            assert(c[i] == i as usize);
            assert forall|k: int| 0 <= k < upstreams.len() implies !(
            #[trigger] upstreams[k]).is_healthy by {
                if upstreams[k].is_healthy {
                    assert(h.contains(k as usize));
                }
            }
        }
    }
}

/// Whatever the policy, every server that is to be asked stands in the order
/// exactly once.
pub proof fn law_order_is_a_permutation(
    policy: Policy,
    counter: usize,
    candidates: Seq<usize>,
    order: Seq<usize>,
)
    requires
        ordered(policy, counter, candidates, order),
    ensures
        order.to_multiset() == candidates.to_multiset(),
        order.len() == candidates.len(),
{
    candidates.to_multiset_ensures();
    order.to_multiset_ensures();
    if policy == Policy::RoundRobin && candidates.len() > 0 {
        let n = counter as int % candidates.len() as int;
        let a = candidates.take(n);
        let b = candidates.skip(n);
        assert(candidates =~= a + b);
        vstd::seq_lib::lemma_multiset_commutative(a, b);
        vstd::seq_lib::lemma_multiset_commutative(b, a);
        assert(order.to_multiset() =~= candidates.to_multiset());
    }
}

/// Only servers that there are get asked, and asking leaves the list of servers
/// as it is.
pub proof fn law_only_known_servers_are_asked(
    plugin: ForwardPlugin,
    after: ForwardPlugin,
    msg: DnsMessage,
    msg_after: DnsMessage,
    progress: Progress,
)
    requires
        plugin.dispatched(after, msg, msg_after, progress),
    ensures
        after.upstreams == plugin.upstreams,
        progress matches Progress::Ask(order) ==> forall|k: int|
            0 <= k < order@.len() ==> (#[trigger] order@[k]) < plugin.upstreams@.len(),
{
    let chosen = candidates(plugin.servers());
    assert(plugin.upstreams.len() == plugin.upstreams@.len());
    law_candidates(plugin.servers());
    if let Progress::Ask(order) = progress {
        law_order_is_a_permutation(plugin.policy, plugin.rr_counter, chosen, order@);
        order@.to_multiset_ensures();
        chosen.to_multiset_ensures();
        assert forall|k: int| 0 <= k < order@.len() implies (#[trigger] order@[k])
            < plugin.upstreams@.len() by {
            assert(order@.contains(order@[k]));
            assert(chosen.to_multiset().count(order@[k]) > 0);
            assert(chosen.contains(order@[k]));
        }
    }
}

/// The count of queries handed out in turn after `i` more of them; it wraps
/// around at its limit.
pub open spec fn counted_on(counter: usize, i: nat) -> usize
    decreases i,
{
    if i == 0 {
        counter
    } else {
        one_more(counted_on(counter, (i - 1) as nat))
    }
}

/// The number of values that the count can have.
pub open spec fn count_values() -> int {
    usize::MAX + 1
}

/// The count goes up by one with each query, and wraps around.
proof fn lemma_counted_on(counter: usize, i: nat)
    requires
        i < count_values(),
    ensures
        counted_on(counter, i) == if counter + i < count_values() {
            counter + i
        } else {
            counter + i - count_values()
        },
    decreases i,
{
    if i > 0 {
        lemma_counted_on(counter, (i - 1) as nat);
    }
}

/// Two numbers leave the same remainder only if the divisor divides their
/// difference.
proof fn lemma_same_remainder(x: int, y: int, n: int)
    requires
        n > 0,
        x % n == y % n,
    ensures
        (x - y) % n == 0,
{
    vstd::arithmetic::div_mod::lemma_fundamental_div_mod(x, n);
    vstd::arithmetic::div_mod::lemma_fundamental_div_mod(y, n);
    let q = x / n - y / n;
    assert(x - y == q * n) by (nonlinear_arith)
        requires
            x == n * (x / n) + x % n,
            y == n * (y / n) + y % n,
            x % n == y % n,
            q == x / n - y / n,
    ;
    vstd::arithmetic::div_mod::lemma_mod_multiples_basic(q, n);
}

/// In round-robin order the server that is asked first moves on by one with
/// each query, so among as many queries in a row as there are servers to be
/// asked, no two begin with the same one. The one exception is a pair between
/// which the count wraps around, when their distance is what is left of the
/// number of counts after division by the number of servers.
pub proof fn law_round_robin_takes_turns(
    candidates: Seq<usize>,
    counter: usize,
    i: nat,
    j: nat,
    first: Seq<usize>,
    second: Seq<usize>,
)
    requires
        candidates.no_duplicates(),
        i < j < candidates.len() <= usize::MAX,
        ordered(Policy::RoundRobin, counted_on(counter, i), candidates, first),
        ordered(Policy::RoundRobin, counted_on(counter, j), candidates, second),
        !(counter + i < count_values() <= counter + j && j - i == count_values()
            % candidates.len() as int),
    ensures
        first[0] == candidates[counted_on(counter, i) as int % candidates.len() as int],
        second[0] == candidates[counted_on(counter, j) as int % candidates.len() as int],
        first[0] != second[0],
{
    let n = candidates.len() as int;
    let m = count_values();
    let x = counted_on(counter, i) as int;
    let y = counted_on(counter, j) as int;
    let d = j - i;
    lemma_counted_on(counter, i);
    lemma_counted_on(counter, j);
    assert(0 <= x % n < n && 0 <= y % n < n);
    assert(x % n != y % n) by {
        if x % n == y % n {
            vstd::arithmetic::div_mod::lemma_small_mod(d as nat, n as nat);
            if counter + i < m <= counter + j {
                lemma_same_remainder(x, y, n);
                assert(x - y == m - d);
                vstd::arithmetic::div_mod::lemma_add_mod_noop(m - d, d, n);
                assert(m % n == d % n);
            } else {
                lemma_same_remainder(y, x, n);
                assert(y - x == d);
            }
        }
    }
    assert(first[0] == candidates.skip(x % n)[0]);
    assert(second[0] == candidates.skip(y % n)[0]);
}

/// A server after a number of failed health checks in a row.
pub open spec fn probed_failing(up: UpstreamText, limit: usize, times: nat) -> UpstreamText
    decreases times,
{
    if times == 0 {
        up
    } else {
        probed(probed_failing(up, limit, (times - 1) as nat), limit, false)
    }
}

/// A server that has just passed a health check stays healthy until exactly
/// `limit` checks in a row have failed, and from then on it is unhealthy for as
/// long as they fail. The failures are counted up to the point where the count
/// wraps around.
pub proof fn law_unhealthy_after_limit(up: UpstreamText, limit: usize, times: nat)
    requires
        up.is_healthy,
        up.fails == 0,
        limit > 0,
    ensures
        probed_failing(up, limit, times).fails == times as int % count_values(),
        times <= usize::MAX ==> probed_failing(up, limit, times).fails == times,
        probed_failing(up, limit, times).is_healthy <==> times < limit,
    decreases times,
{
    let m = count_values();
    if times > 0 {
        law_unhealthy_after_limit(up, limit, (times - 1) as nat);
        vstd::arithmetic::div_mod::lemma_add_mod_noop(times - 1, 1, m);
        vstd::arithmetic::div_mod::lemma_small_mod(1, m as nat);
        let r = (times - 1) % m;
        assert(0 <= r < m);
        if r + 1 < m {
            vstd::arithmetic::div_mod::lemma_small_mod((r + 1) as nat, m as nat);
        } else {
            vstd::arithmetic::div_mod::lemma_mod_self_0(m);
        }
    }
    if times <= usize::MAX {
        vstd::arithmetic::div_mod::lemma_small_mod(times, m as nat);
    }
}

/// One successful health check makes any server healthy again, with no
/// failures counted.
pub proof fn law_recovery(up: UpstreamText, limit: usize)
    ensures
        probed(up, limit, true).is_healthy,
        probed(up, limit, true).fails == 0,
{
}

/// An answer with nothing but a response code keeps the identifier and the
/// question of the query; where the query carried no code it carries the
/// given one, and it is marked as a response.
pub proof fn law_error_response(query: Seq<u8>, rcode: u8)
    requires
        query.len() >= 4,
    ensures
        error_response(query, rcode).len() == query.len(),
        forall|i: int|
            0 <= i < query.len() && i != 2 && i != 3 ==> error_response(query, rcode)[i]
                == query[i],
        error_response(query, rcode)[2] >= 0x80,
        wire::rcode_of(query) == 0 ==> wire::rcode_of(error_response(query, rcode)) == rcode & 0x0f,
        wire::rcode_of(query) == 0 && rcode <= 0x0f ==> wire::rcode_of(
            error_response(query, rcode),
        ) == rcode,
{
    let a = query[2];
    let b = query[3];
    assert(a | 0x80 >= 0x80) by (bit_vector);
    assert(b & 0x0f == 0 ==> (b | (rcode & 0x0f)) & 0x0f == rcode & 0x0f) by (bit_vector);
    assert(rcode <= 0x0f ==> rcode & 0x0f == rcode) by (bit_vector);
}

/// Putting connections back never lets a pool grow beyond its limit.
pub proof fn law_pool_stays_bounded<S>(
    before: Seq<IdleConnection<S>>,
    c: IdleConnection<S>,
    limit: usize,
)
    requires
        before.len() <= limit,
    ensures
        checked_in(before, c, limit).len() <= limit,
{
}

/// A connection that was just put back into a pool with room is the one that
/// is taken out next, as long as it has not expired, and that leaves the pool
/// as it was.
pub proof fn law_pool_gives_back_the_last<S>(
    before: Seq<IdleConnection<S>>,
    c: IdleConnection<S>,
    limit: usize,
    now: u128,
)
    requires
        before.len() < limit,
        c.expires_at > now,
    ensures
        last_fresh(checked_in(before, c, limit), now) == Some(before.len() as int),
        checked_in(before, c, limit)[before.len() as int] == c,
        checked_in(before, c, limit).take(before.len() as int) == before,
{
    assert(before.push(c).take(before.len() as int) =~= before);
}

} // verus!
