//! The server: which listeners it has, how a query goes through the plugin
//! chain, and what is sent back.

use crate::config::{Config, ZoneConfig};
use crate::metrics;
use crate::metrics::{Metric, Sample};
use crate::plugin::cache::{CacheStore, Held};
use crate::plugin::forward::{ForwardPlugin, Verdict};
use crate::plugin::forward;
use crate::plugin::log;
use crate::plugin::log::{answer_line, incoming_line};
use crate::plugin::{Pass, PluginError, PluginInstance, Progress, SharedState, MAX_NOW};
use crate::text;
use crate::text::{concat, parse_number, same_text, split_last_colon, split_text};
use crate::types::{ClientAddr, DnsHeader, DnsMessage};
use crate::wire;
use crate::wire::be16_of;
use vstd::prelude::*;

verus! {

/// The largest answer that is sent over UDP.
pub const UDP_LIMIT: usize = 1232;

/// The configured server.
pub struct DnsServer {
    pub config: Config,
    pub shared: SharedState,
}

/// A listener: its address with the port, the port, and the numbers of the
/// zones behind it.
#[derive(Debug)]
pub struct Listener {
    pub addr: String,
    pub port: u16,
    pub zones: Vec<usize>,
}

impl Listener {
    /// The number of the zone whose plugins answer.
    pub open spec fn serving(self) -> usize {
        self.zones@[0]
    }

    /// The number of the zone whose plugins answer: the first one behind the
    /// listener.
    pub fn serving_zone(&self) -> (r: usize)
        requires
            self.zones@.len() > 0,
        ensures
            r == self.zones@[0],
            r == self.serving(),
    {
        self.zones[0]
    }
}

/// The address of the interface, without a port.
pub open spec fn base_ip(address: Seq<char>) -> Seq<char> {
    text::split(address, ':')[0]
}

/// The port of a zone, as its name says it; 53 where it says none.
pub open spec fn zone_port(name: Seq<char>) -> Seq<char> {
    match text::behind_last_colon(name) {
        Some(port) => port,
        None => "53"@,
    }
}

/// The address on which a zone is served.
pub open spec fn zone_address(base: Seq<char>, name: Seq<char>) -> Seq<char> {
    base + ":"@ + zone_port(name)
}

/// The port at the end of an address, 53 where it cannot be read.
pub open spec fn port_of(addr: Seq<char>) -> u16 {
    match text::number_of(text::split(addr, ':').last(), u16::MAX as int) {
        Some(n) => n as u16,
        None => 53,
    }
}

/// The addresses on which the zones are served.
pub open spec fn zone_addresses(base: Seq<char>, zones: Seq<ZoneConfig>) -> Seq<Seq<char>> {
    zones.map_values(|z: ZoneConfig| zone_address(base, z.name@))
}

/// The different texts of a list, in the order in which they first occur.
pub open spec fn distinct(v: Seq<Seq<char>>) -> Seq<Seq<char>>
    decreases v.len(),
{
    if v.len() == 0 {
        Seq::empty()
    } else if distinct(v.drop_last()).contains(v.last()) {
        distinct(v.drop_last())
    } else {
        distinct(v.drop_last()).push(v.last())
    }
}

/// The places at which a text stands in a list, in ascending order.
pub open spec fn places(v: Seq<Seq<char>>, s: Seq<char>) -> Seq<usize>
    decreases v.len(),
{
    if v.len() == 0 {
        Seq::empty()
    } else if v.last() == s {
        places(v.drop_last(), s).push((v.len() - 1) as usize)
    } else {
        places(v.drop_last(), s)
    }
}

/// Whether the listeners are those for zones on the given addresses: one for
/// each different address, with the zones that are served on it.
pub open spec fn listeners_for(listeners: Seq<Listener>, addrs: Seq<Seq<char>>) -> bool {
    &&& listeners.len() == distinct(addrs).len()
    &&& forall|k: int|
        0 <= k < listeners.len() ==> {
            &&& (#[trigger] listeners[k]).addr@ == distinct(addrs)[k]
            &&& listeners[k].port == port_of(distinct(addrs)[k])
            &&& listeners[k].zones@ == places(addrs, distinct(addrs)[k])
        }
}

/// The port of a zone, as its name says it.
pub fn zone_port_of(name: &str) -> (r: String)
    ensures
        r@ == zone_port(name@),
{
    match split_last_colon(name) {
        Some((_, port)) => port,
        None => "53".to_owned(),
    }
}

/// The port at the end of an address.
fn read_port(addr: &str) -> (r: u16)
    ensures
        r == port_of(addr@),
{
    let parts = split_text(addr, ':');
    let last = parts.len() - 1;
    assert(text::texts(parts@)[last as int] == parts@[last as int]@);
    match parse_number(parts[last].as_str(), u16::MAX as u64) {
        Some(n) => n as u16,
        None => 53,
    }
}

impl DnsServer {
    /// The server for a configuration.
    pub fn new(config: Config, shared: SharedState) -> (r: Result<DnsServer, PluginError>)
        ensures
            r == Ok::<DnsServer, PluginError>(DnsServer { config, shared }),
    {
        Ok(DnsServer { config, shared })
    }

    /// The listeners that the server needs: every zone is served on the port
    /// that its name says, at the interface of the default address.
    pub fn listeners(&self, default_address: &str) -> (r: Vec<Listener>)
        ensures
            listeners_for(r@, zone_addresses(base_ip(default_address@), self.config.zones@)),
    {
        let parts = split_text(default_address, ':');
        assert(text::texts(parts@)[0] == parts@[0]@);
        let base = parts[0].as_str();
        let ghost all = zone_addresses(base@, self.config.zones@);
        let mut r: Vec<Listener> = Vec::new();
        let mut i: usize = 0;
        assert(all.take(0) =~= Seq::empty());
        while i < self.config.zones.len()
            invariant
                i <= self.config.zones@.len(),
                all == zone_addresses(base@, self.config.zones@),
                listeners_for(r@, all.take(i as int)),
            decreases self.config.zones@.len() - i,
        {
            let mut addr = concat(base, ":");
            addr.append(zone_port_of(self.config.zones[i].name.as_str()).as_str());
            assert(addr@ == all[i as int]);
            add_zone(&mut r, addr, i, Ghost(all.take(i as int)));
            assert(all.take(i as int).push(addr@) =~= all.take(i + 1));
            i = i + 1;
        }
        assert(all.take(i as int) =~= all);
        r
    }
}

/// Adds the zone with the next number to the listener on its address, which is
/// made where there is none yet.
fn add_zone(listeners: &mut Vec<Listener>, addr: String, zone: usize, addrs: Ghost<Seq<Seq<char>>>)
    requires
        zone == addrs@.len(),
        listeners_for(old(listeners)@, addrs@),
    ensures
        listeners_for(final(listeners)@, addrs@.push(addr@)),
{
    let ghost before = addrs@;
    let ghost after = addrs@.push(addr@);
    proof {
        assert(after.drop_last() =~= before);
        lemma_distinct(before);
    }
    let mut k: usize = 0;
    while k < listeners.len() && !same_text(listeners[k].addr.as_str(), addr.as_str())
        invariant
            k <= listeners@.len(),
            listeners@ == old(listeners)@,
            forall|j: int| 0 <= j < k ==> (#[trigger] listeners@[j]).addr@ != addr@,
        ensures
            k <= listeners@.len(),
            listeners@ == old(listeners)@,
            forall|j: int| 0 <= j < k ==> (#[trigger] listeners@[j]).addr@ != addr@,
            k < listeners@.len() ==> listeners@[k as int].addr@ == addr@,
        decreases listeners@.len() - k,
    {
        k = k + 1;
    }
    if k < listeners.len() {
        assert(distinct(before)[k as int] == addr@);
        assert(distinct(before).contains(addr@));
        listeners[k].zones.push(zone);
        assert forall|j: int| 0 <= j < listeners@.len() implies {
            &&& (#[trigger] listeners@[j]).addr@ == distinct(after)[j]
            &&& listeners@[j].port == port_of(distinct(after)[j])
            &&& listeners@[j].zones@ == places(after, distinct(after)[j])
        } by {
            assert(old(listeners)@[j].addr@ == distinct(before)[j]);
            if j != k {
                assert(listeners@[j] == old(listeners)@[j]);
                assert(distinct(before)[j] != distinct(before)[k as int]);
            }
        }
    } else {
        proof {
            if distinct(before).contains(addr@) {
                let j = choose|j: int|
                    0 <= j < distinct(before).len() && distinct(before)[j] == addr@;
                assert(listeners@[j].addr@ == addr@);
            }
            lemma_places_absent(before, addr@);
        }
        let port: u16 = read_port(addr.as_str());
        let mut zones: Vec<usize> = Vec::new();
        zones.push(zone);
        let listener = Listener { addr, port, zones };
        listeners.push(listener);
        assert forall|j: int| 0 <= j < listeners@.len() implies {
            &&& (#[trigger] listeners@[j]).addr@ == distinct(after)[j]
            &&& listeners@[j].port == port_of(distinct(after)[j])
            &&& listeners@[j].zones@ == places(after, distinct(after)[j])
        } by {
            if j < old(listeners)@.len() {
                assert(listeners@[j] == old(listeners)@[j]);
                assert(old(listeners)@[j].addr@ == distinct(before)[j]);
                assert(distinct(before).contains(distinct(before)[j]));
            } else {
                assert(listener.zones@ =~= places(before, addr@).push(zone));
            }
        }
    }
}

/// The different texts of a list are different, and they are those of the list.
pub proof fn lemma_distinct(v: Seq<Seq<char>>)
    ensures
        distinct(v).no_duplicates(),
        forall|s: Seq<char>| distinct(v).contains(s) <==> v.contains(s),
    decreases v.len(),
{
    if v.len() > 0 {
        let front = v.drop_last();
        let d = distinct(front);
        lemma_distinct(front);
        assert forall|s: Seq<char>| distinct(v).contains(s) <==> v.contains(s) by {
            assert(v =~= front.push(v.last()));
            assert(v[v.len() - 1] == v.last());
            if front.contains(s) {
                let k = choose|k: int| 0 <= k < front.len() && front[k] == s;
                assert(v[k] == s);
            }
            if v.contains(s) && s != v.last() {
                let k = choose|k: int| 0 <= k < v.len() && v[k] == s;
                assert(front[k] == s);
            }
            if !d.contains(v.last()) {
                let e = d.push(v.last());
                assert(e[d.len() as int] == v.last());
                if d.contains(s) {
                    let k = choose|k: int| 0 <= k < d.len() && d[k] == s;
                    assert(e[k] == s);
                }
                if e.contains(s) && s != v.last() {
                    let k = choose|k: int| 0 <= k < e.len() && e[k] == s;
                    assert(d[k] == s);
                }
            }
        }
        if !d.contains(v.last()) {
            assert forall|i: int, j: int|
                0 <= i < distinct(v).len() && 0 <= j < distinct(v).len() && i != j implies distinct(
                v,
            )[i] != distinct(v)[j] by {
                if i == d.len() {
                    assert(d.contains(d[j]));
                } else if j == d.len() {
                    assert(d.contains(d[i]));
                }
            }
        }
    }
}

/// A text that does not occur has no places.
proof fn lemma_places_absent(v: Seq<Seq<char>>, s: Seq<char>)
    requires
        !v.contains(s),
    ensures
        places(v, s).len() == 0,
    decreases v.len(),
{
    if v.len() > 0 {
        assert(v[v.len() - 1] == v.last());
        assert(v.contains(v.last()));
        if v.drop_last().contains(s) {
            let k = choose|k: int| 0 <= k < v.drop_last().len() && v.drop_last()[k] == s;
            assert(v[k] == s);
        }
        lemma_places_absent(v.drop_last(), s);
    }
}

/// The places of a text are those at which it stands, in ascending order.
pub proof fn lemma_places(v: Seq<Seq<char>>, s: Seq<char>)
    requires
        v.len() <= usize::MAX,
    ensures
        forall|k: int|
            0 <= k < places(v, s).len() ==> (#[trigger] places(v, s)[k]) < v.len() && v[places(
                v,
                s,
            )[k] as int] == s,
        forall|i: int|
            0 <= i < v.len() && #[trigger] v[i] == s ==> places(v, s).contains(i as usize),
        forall|j: int, k: int| 0 <= j < k < places(v, s).len() ==> places(v, s)[j] < places(v, s)[k],
    decreases v.len(),
{
    if v.len() > 0 {
        let front = v.drop_last();
        let p = places(front, s);
        lemma_places(front, s);
        assert forall|k: int| 0 <= k < places(v, s).len() implies (#[trigger] places(v, s)[k])
            < v.len() && v[places(v, s)[k] as int] == s by {
            if k < p.len() {
                assert(places(v, s)[k] == p[k]);
                assert(front[p[k] as int] == v[p[k] as int]);
            }
        }
        assert forall|i: int| 0 <= i < v.len() && #[trigger] v[i] == s implies places(
            v,
            s,
        ).contains(i as usize) by {
            if i < front.len() {
                assert(front[i] == s);
                let k = choose|k: int| 0 <= k < p.len() && p[k] == i as usize;
                assert(places(v, s)[k] == i as usize);
            } else {
                assert(places(v, s)[p.len() as int] == i as usize);
            }
        }
    }
}

/// Every zone stands behind exactly one listener, the one on its address; every
/// listener has at least one zone behind it, and so one whose plugins answer.
pub proof fn law_every_zone_has_one_listener(listeners: Seq<Listener>, addrs: Seq<Seq<char>>)
    requires
        listeners_for(listeners, addrs),
        addrs.len() <= usize::MAX,
    ensures
        forall|i: int|
            0 <= i < addrs.len() ==> exists|k: int|
                {
                    &&& 0 <= k < listeners.len()
                    &&& (#[trigger] listeners[k]).addr@ == #[trigger] addrs[i]
                    &&& listeners[k].zones@.contains(i as usize)
                },
        forall|i: int, k: int|
            0 <= i < addrs.len() && 0 <= k < listeners.len() && (
            #[trigger] listeners[k]).zones@.contains(i as usize) ==> listeners[k].addr@
                == #[trigger] addrs[i],
        forall|j: int, k: int|
            0 <= j < k < listeners.len() ==> (#[trigger] listeners[j]).addr@ != (
            #[trigger] listeners[k]).addr@,
        forall|k: int| 0 <= k < listeners.len() ==> (#[trigger] listeners[k]).zones@.len() > 0,
{
    let d = distinct(addrs);
    lemma_distinct(addrs);
    assert forall|i: int| 0 <= i < addrs.len() implies exists|k: int|
        {
            &&& 0 <= k < listeners.len()
            &&& (#[trigger] listeners[k]).addr@ == #[trigger] addrs[i]
            &&& listeners[k].zones@.contains(i as usize)
        } by {
        assert(addrs.contains(addrs[i]));
        let k = choose|k: int| 0 <= k < d.len() && d[k] == addrs[i];
        lemma_places(addrs, d[k]);
        assert(listeners[k].addr@ == addrs[i]);
    }
    assert forall|i: int, k: int|
        0 <= i < addrs.len() && 0 <= k < listeners.len() && (
        #[trigger] listeners[k]).zones@.contains(i as usize) implies listeners[k].addr@
        == #[trigger] addrs[i] by {
        lemma_places(addrs, d[k]);
        let p = places(addrs, d[k]);
        let j = choose|j: int| 0 <= j < p.len() && p[j] == i as usize;
        assert(addrs[p[j] as int] == d[k]);
    }
    assert forall|k: int| 0 <= k < listeners.len() implies (
    #[trigger] listeners[k]).zones@.len() > 0 by {
        lemma_places(addrs, d[k]);
        assert(d.contains(d[k]));
        assert(addrs.contains(d[k]));
        let i = choose|i: int| 0 <= i < addrs.len() && addrs[i] == d[k];
        assert(places(addrs, d[k]).contains(i as usize));
    }
}

/// Whether a message is a fresh query, as it came from a client to a port over
/// a transport. Its identifier is known where there is a whole header.
pub open spec fn received(
    msg: DnsMessage,
    query: Vec<u8>,
    client: ClientAddr,
    protocol: Seq<char>,
    port: u16,
) -> bool {
    &&& msg.header == DnsHeader::with_id(
        if query@.len() >= wire::HEADER_LEN {
            wire::be16(query@[0], query@[1])
        } else {
            0
        },
    )
    &&& msg.questions@.len() == 0
    &&& msg.answers@.len() == 0
    &&& msg.authority@.len() == 0
    &&& msg.additional@.len() == 0
    &&& msg.raw_query == query
    &&& msg.raw_response is None
    &&& !msg.halt_chain
    &&& msg.client_addr == Some(client)
    &&& msg.protocol@ == protocol
    &&& msg.server_port == Some(port)
    &&& msg.start_time is None
    &&& msg.answered_by@.len() == 0
}

/// The message for a query from a client.
pub fn receive(query: Vec<u8>, client: ClientAddr, protocol: &str, port: u16) -> (msg: DnsMessage)
    ensures
        received(msg, query, client, protocol@, port),
{
    let mut msg = DnsMessage::default();
    if query.len() >= wire::HEADER_LEN {
        msg.header.id = be16_of(query[0], query[1]);
    }
    msg.raw_query = query;
    msg.client_addr = Some(client);
    msg.protocol = protocol.to_owned();
    msg.server_port = Some(port);
    msg
}

/// What is sent over UDP for an answer: the answer, or where it is too long its
/// beginning, marked as truncated.
pub open spec fn datagram(response: Seq<u8>) -> Seq<u8> {
    if response.len() > UDP_LIMIT {
        response.take(UDP_LIMIT as int).update(2, response[2] | 0x02)
    } else {
        response
    }
}

/// Makes an answer fit for UDP.
pub fn udp_reply(response: Vec<u8>) -> (r: Vec<u8>)
    ensures
        r@ == datagram(response@),
{
    let mut r = response;
    if r.len() > UDP_LIMIT {
        r.truncate(UDP_LIMIT);
        let flags: u8 = r[2] | 0x02;
        r.set(2, flags);
    }
    r
}

/// What is sent over TCP for an answer: its length in two bytes, then the
/// answer.
pub fn tcp_reply(response: &Vec<u8>) -> (r: Vec<u8>)
    ensures
        r@ == wire::framed(response@),
{
    wire::frame(response.as_slice())
}

/// What is sent over UDP never exceeds the limit. An answer within the limit
/// is sent as it is; a longer one is cut, marked as truncated, and keeps every
/// other bit of what is sent.
pub proof fn law_datagram(response: Seq<u8>)
    ensures
        datagram(response).len() <= UDP_LIMIT,
        response.len() <= UDP_LIMIT ==> datagram(response) == response,
        response.len() > UDP_LIMIT ==> {
            &&& datagram(response).len() == UDP_LIMIT
            &&& datagram(response)[2] & 0x02 == 0x02
            &&& datagram(response)[2] & 0xfd == response[2] & 0xfd
            &&& forall|i: int|
                0 <= i < UDP_LIMIT && i != 2 ==> datagram(response)[i] == response[i]
        },
{
    let b = response[2];
    assert((b | 0x02) & 0x02 == 0x02) by (bit_vector);
    assert((b | 0x02) & 0xfd == b & 0xfd) by (bit_vector);
}

/// How far a query has come.
#[derive(Debug, Clone, Copy, PartialEq, Eq, Structural)]
pub enum Stage {
    /// On its way in, in front of the plugin with this number.
    Inbound(usize),
    /// In need of a permit, at the plugin with this number.
    Permit(usize),
    /// At the plugin with the first number; the server at the place given by
    /// the second one in the order of servers is to be asked.
    Exchange(usize, usize),
    /// On its way out; this many plugins are left, the last of them is next.
    Outbound(usize),
    /// Through with all plugins.
    Done,
    /// Given up without an answer: a plugin could not take the message, or a
    /// reply was too short to hold a response code.
    Dropped,
}

/// A query on its way through the plugins of a zone: first in their order,
/// until one halts it; then back through all of them in reverse.
#[derive(Debug)]
pub struct QueryRun {
    pub msg: DnsMessage,
    pub stage: Stage,
    /// The numbers of the servers that are asked in turn.
    pub order: Vec<usize>,
    /// When the query came.
    pub started: u128,
}

/// The pass from one state of affairs to another.
pub open spec fn pass_of(
    now: u128,
    msg: DnsMessage,
    msg_after: DnsMessage,
    kept: Held,
    kept_after: Held,
    samples: Seq<Sample>,
    samples_after: Seq<Sample>,
) -> Pass {
    Pass { now, msg, msg_after, kept, kept_after, samples, samples_after }
}

impl QueryRun {
    /// Whether the stage speaks of plugins and servers that there are.
    pub open spec fn fits(self, plugins: Seq<PluginInstance>) -> bool {
        match self.stage {
            Stage::Inbound(i) => i <= plugins.len(),
            Stage::Permit(p) => p < plugins.len() && plugins[p as int] is Forward,
            Stage::Exchange(p, at) => {
                &&& p < plugins.len()
                &&& plugins[p as int] is Forward
                &&& at < self.order@.len()
                &&& forall|k: int|
                    0 <= k < self.order@.len() ==> (#[trigger] self.order@[k])
                        < plugins[p as int]->Forward_0.upstreams@.len()
            },
            Stage::Outbound(left) => left <= plugins.len(),
            _ => true,
        }
    }

    /// What is left to do, as a pair of which the first number counts more:
    /// every event makes it smaller.
    pub open spec fn left_to_do(self, plugins: nat) -> (int, int) {
        match self.stage {
            Stage::Inbound(i) => (3 * (plugins - i) + 2, 0),
            Stage::Permit(p) => (3 * (plugins - p) + 1, 0),
            Stage::Exchange(p, at) => (3 * (plugins - p), self.order@.len() - at),
            Stage::Outbound(left) => (1, left as int),
            _ => (0, 0),
        }
    }

    /// Whether less is left to do than before.
    pub open spec fn nearer(self, before: QueryRun, plugins: nat) -> bool {
        let a = self.left_to_do(plugins);
        let b = before.left_to_do(plugins);
        0 <= a.0 && 0 <= a.1 && (a.0 < b.0 || (a.0 == b.0 && a.1 < b.1))
    }

    /// Whether the run goes on from a plugin as that has asked for.
    pub open spec fn goes_on(self, after: QueryRun, plugin: usize, progress: Progress) -> bool {
        match progress {
            Progress::Passed => {
                &&& after.stage == Stage::Inbound((plugin + 1) as usize)
                &&& after.order == self.order
            },
            Progress::AwaitPermit => {
                &&& after.stage == Stage::Permit(plugin)
                &&& after.order == self.order
            },
            Progress::Ask(order) => {
                &&& after.stage == if order@.len() > 0 {
                    Stage::Exchange(plugin, 0)
                } else {
                    Stage::Inbound((plugin + 1) as usize)
                }
                &&& after.order == order
            },
        }
    }

    /// One step of a run that is on its way in or out.
    pub open spec fn stepped(
        self,
        after: QueryRun,
        plugins: Seq<PluginInstance>,
        plugins_after: Seq<PluginInstance>,
        pass: Pass,
    ) -> bool {
        match self.stage {
            Stage::Inbound(i) => if self.msg.halt_chain || i >= plugins.len() {
                &&& after.stage == Stage::Outbound(plugins.len() as usize)
                &&& after.order == self.order
                &&& pass.untouched()
                &&& plugins_after == plugins
            } else if !plugins[i as int].accepts(self.msg) {
                &&& after.stage == Stage::Dropped
                &&& pass.untouched()
                &&& plugins_after == plugins
            } else {
                &&& plugins_after == plugins.update(i as int, plugins_after[i as int])
                &&& exists|progress: Progress|
                    {
                        &&& #[trigger] plugins[i as int].processed(
                            plugins_after[i as int],
                            pass,
                            progress,
                        )
                        &&& self.goes_on(after, i, progress)
                    }
            },
            Stage::Outbound(left) => {
                &&& plugins_after == plugins
                &&& if left == 0 {
                    after.stage == Stage::Done && pass.untouched()
                } else if !plugins[left - 1].accepts_back(self.msg) {
                    after.stage == Stage::Dropped && pass.untouched()
                } else {
                    &&& after.stage == Stage::Outbound((left - 1) as usize)
                    &&& plugins[left - 1].post_processed(pass)
                }
            },
            _ => true,
        }
    }

    /// What is put into the log when the message passes the log plugin on its
    /// way in or out.
    pub open spec fn reported(self, plugins: Seq<PluginInstance>, now: u128) -> Option<Seq<char>> {
        match self.stage {
            Stage::Inbound(i) => if !self.msg.halt_chain && i < plugins.len()
                && plugins[i as int] is Log {
                Some(log::query_line(self.msg.header.id))
            } else {
                None
            },
            Stage::Outbound(left) => if left > 0 && plugins[left - 1] is Log {
                Some(
                    log::answer_text(
                        self.msg.header.id,
                        self.msg.response(),
                        if now >= self.started {
                            (now - self.started) as u128
                        } else {
                            0
                        },
                    ),
                )
            } else {
                None
            },
            _ => None,
        }
    }

    /// The line for the log, if there is one.
    fn report(&self, plugins: &Vec<PluginInstance>, now: u128) -> (r: Option<String>)
        requires
            self.fits(plugins@),
        ensures
            match self.reported(plugins@, now) {
                Some(line) => r matches Some(s) && s@ == line,
                None => r is None,
            },
    {
        match self.stage {
            Stage::Inbound(i) => {
                if !self.msg.halt_chain && i < plugins.len() {
                    if let PluginInstance::Log(_) = &plugins[i] {
                        return Some(incoming_line(self.msg.header.id));
                    }
                }
                None
            },
            Stage::Outbound(left) => {
                if left > 0 {
                    if let PluginInstance::Log(_) = &plugins[left - 1] {
                        let took: u128 = if now >= self.started {
                            now - self.started
                        } else {
                            0
                        };
                        return Some(
                            answer_line(self.msg.header.id, &self.msg.raw_response, took),
                        );
                    }
                }
                None
            },
            _ => None,
        }
    }

    /// Starts a query in front of the first plugin.
    pub fn start(msg: DnsMessage, now: u128) -> (r: QueryRun)
        ensures
            r.msg == msg,
            r.started == now,
            r.stage == Stage::Inbound(0),
            r.order@.len() == 0,
    {
        QueryRun { msg, stage: Stage::Inbound(0), order: Vec::new(), started: now }
    }

    /// Whether the stage speaks of plugins and servers that there are.
    pub fn fits_plugins(&self, plugins: &Vec<PluginInstance>) -> (r: bool)
        ensures
            r == self.fits(plugins@),
    {
        match self.stage {
            Stage::Inbound(i) => i <= plugins.len(),
            Stage::Permit(p) => if p < plugins.len() {
                match &plugins[p] {
                    PluginInstance::Forward(_) => true,
                    _ => false,
                }
            } else {
                false
            },
            Stage::Exchange(p, at) => if p < plugins.len() && at < self.order.len() {
                match &plugins[p] {
                    PluginInstance::Forward(f) => {
                        let mut k: usize = 0;
                        while k < self.order.len()
                            invariant
                                k <= self.order@.len(),
                                p < plugins@.len(),
                                plugins@[p as int] == PluginInstance::Forward(*f),
                                self.stage == Stage::Exchange(p, at),
                                forall|j: int|
                                    0 <= j < k ==> (#[trigger] self.order@[j])
                                        < f.upstreams@.len(),
                            decreases self.order@.len() - k,
                        {
                            if self.order[k] >= f.upstreams.len() {
                                return false;
                            }
                            k = k + 1;
                        }
                        true
                    },
                    _ => false,
                }
            } else {
                false
            },
            Stage::Outbound(left) => left <= plugins.len(),
            _ => true,
        }
    }

    /// Takes over what a plugin has asked for.
    fn go_on(&mut self, plugin: usize, progress: Progress)
        requires
            plugin < usize::MAX,
        ensures
            old(self).goes_on(*final(self), plugin, progress),
            final(self).msg == old(self).msg,
            final(self).started == old(self).started,
    {
        match progress {
            Progress::Passed => {
                self.stage = Stage::Inbound(plugin + 1);
            },
            Progress::AwaitPermit => {
                self.stage = Stage::Permit(plugin);
            },
            Progress::Ask(order) => {
                self.stage = if order.len() > 0 {
                    Stage::Exchange(plugin, 0)
                } else {
                    Stage::Inbound(plugin + 1)
                };
                self.order = order;
            },
        }
    }

    /// Takes one step on the way in or out. Returns a line for the log where
    /// the message passes the log plugin.
    pub fn step(
        &mut self,
        plugins: &mut Vec<PluginInstance>,
        store: &mut CacheStore,
        now: u128,
        metrics: &mut Vec<Metric>,
    ) -> (line: Option<String>)
        requires
            old(self).fits(old(plugins)@),
            old(self).stage is Inbound || old(self).stage is Outbound,
            old(store)@.sound(),
            now <= MAX_NOW,
        ensures
            final(self).fits(final(plugins)@),
            final(self).nearer(*old(self), old(plugins)@.len()),
            final(store)@.sound(),
            final(plugins)@.len() == old(plugins)@.len(),
            final(self).started == old(self).started,
            match old(self).reported(old(plugins)@, now) {
                Some(text) => line matches Some(s) && s@ == text,
                None => line is None,
            },
            old(self).stepped(
                *final(self),
                old(plugins)@,
                final(plugins)@,
                pass_of(
                    now,
                    old(self).msg,
                    final(self).msg,
                    old(store)@,
                    final(store)@,
                    metrics::samples(old(metrics)@),
                    metrics::samples(final(metrics)@),
                ),
            ),
    {
        let line = self.report(plugins, now);
        match self.stage {
            Stage::Inbound(i) => {
                if self.msg.halt_chain || i >= plugins.len() {
                    self.stage = Stage::Outbound(plugins.len());
                } else if !plugins[i].can_take(&self.msg) {
                    self.stage = Stage::Dropped;
                } else {
                    let ghost before = plugins@;
                    let progress = plugins[i].process(&mut self.msg, store, now, metrics);
                    assert(plugins@ =~= before.update(i as int, plugins@[i as int]));
                    proof {
                        lemma_asks_only_known_servers(
                            before[i as int],
                            plugins@[i as int],
                            pass_of(
                                now,
                                old(self).msg,
                                self.msg,
                                old(store)@,
                                store@,
                                metrics::samples(old(metrics)@),
                                metrics::samples(metrics@),
                            ),
                            progress,
                        );
                    }
                    self.go_on(i, progress);
                }
            },
            Stage::Outbound(left) => {
                if left == 0 {
                    self.stage = Stage::Done;
                } else if !plugins[left - 1].can_take_back(&self.msg) {
                    self.stage = Stage::Dropped;
                } else {
                    plugins[left - 1].post_process(&mut self.msg, store, now, metrics);
                    self.stage = Stage::Outbound(left - 1);
                }
            },
            _ => {},
        }
        line
    }
}

/// Only a plugin that forwards asks for permits or servers, and only for
/// servers that it has.
proof fn lemma_asks_only_known_servers(
    plugin: PluginInstance,
    after: PluginInstance,
    pass: Pass,
    progress: Progress,
)
    requires
        plugin.processed(after, pass, progress),
    ensures
        progress is Passed || after is Forward,
        progress matches Progress::Ask(order) ==> forall|k: int|
            0 <= k < order@.len() ==> (#[trigger] order@[k])
                < after->Forward_0.upstreams@.len(),
{
    if let PluginInstance::Forward(f) = plugin {
        if f.takes(pass.msg) && f.max_concurrent is None {
            forward::law_only_known_servers_are_asked(
                f,
                after->Forward_0,
                pass.msg,
                pass.msg_after,
                progress,
            );
        }
    }
}

impl QueryRun {
    /// The stage after the server at a place in the order gave no answer.
    pub open spec fn after_server(self, plugin: usize, at: usize) -> Stage {
        if at + 1 < self.order@.len() {
            Stage::Exchange(plugin, (at + 1) as usize)
        } else {
            Stage::Inbound((plugin + 1) as usize)
        }
    }

    /// How the run goes on once it is known whether there is a permit.
    pub open spec fn after_permit(
        self,
        after: QueryRun,
        plugins: Seq<PluginInstance>,
        plugins_after: Seq<PluginInstance>,
        granted: bool,
        samples: Seq<Sample>,
        samples_after: Seq<Sample>,
    ) -> bool {
        let p = self.stage->Permit_0;
        let f = plugins[p as int]->Forward_0;
        let g = plugins_after[p as int]->Forward_0;
        &&& plugins_after == plugins.update(p as int, PluginInstance::Forward(g))
        &&& exists|progress: Progress|
            {
                &&& #[trigger] f.permitted(
                    g,
                    self.msg,
                    after.msg,
                    granted,
                    progress,
                    samples,
                    samples_after,
                )
                &&& self.goes_on(after, p, progress)
            }
    }

    /// How the run goes on with the reply of the server that was asked. A
    /// reply that is too short to hold a response code ends the run.
    pub open spec fn after_reply(
        self,
        after: QueryRun,
        plugins: Seq<PluginInstance>,
        reply: Seq<u8>,
        elapsed: u128,
        samples: Seq<Sample>,
        samples_after: Seq<Sample>,
    ) -> bool {
        let p = self.stage->Exchange_0;
        let at = self.stage->Exchange_1;
        let f = plugins[p as int]->Forward_0;
        &&& after.order == self.order
        &&& if reply.len() < 4 {
            &&& after.stage == Stage::Dropped
            &&& after.msg == self.msg
            &&& samples_after == samples
        } else {
            exists|verdict: Verdict|
                {
                    &&& #[trigger] f.replied(
                        self.msg,
                        after.msg,
                        self.order@[at as int] as int,
                        reply,
                        elapsed,
                        verdict,
                        samples,
                        samples_after,
                    )
                    &&& after.stage == match verdict {
                        Verdict::Answered => Stage::Inbound((p + 1) as usize),
                        Verdict::AskNext => self.after_server(p, at),
                    }
                }
        }
    }

    /// How the run goes on when the server could not be asked.
    pub open spec fn after_failure(
        self,
        after: QueryRun,
        plugins: Seq<PluginInstance>,
        elapsed: u128,
        samples: Seq<Sample>,
        samples_after: Seq<Sample>,
    ) -> bool {
        let p = self.stage->Exchange_0;
        let at = self.stage->Exchange_1;
        let f = plugins[p as int]->Forward_0;
        let addr = forward::address(f.upstreams@[self.order@[at as int] as int]@);
        &&& after.order == self.order
        &&& after.msg == self.msg
        &&& after.stage == self.after_server(p, at)
        &&& samples_after == samples.push(
            forward::exchange_sample("SERVFAIL"@, addr, elapsed),
        )
    }

    /// Goes on once it is known whether there is a permit for the query.
    pub fn on_permit(
        &mut self,
        plugins: &mut Vec<PluginInstance>,
        granted: bool,
        metrics: &mut Vec<Metric>,
    )
        requires
            old(self).fits(old(plugins)@),
            old(self).stage is Permit,
        ensures
            final(self).fits(final(plugins)@),
            final(self).nearer(*old(self), old(plugins)@.len()),
            final(self).started == old(self).started,
            old(self).after_permit(
                *final(self),
                old(plugins)@,
                final(plugins)@,
                granted,
                metrics::samples(old(metrics)@),
                metrics::samples(final(metrics)@),
            ),
    {
        if let Stage::Permit(p) = self.stage {
            let ghost before = plugins@;
            assert(p < plugins.len());
            let progress = match &mut plugins[p] {
                PluginInstance::Forward(f) => f.on_permit(&mut self.msg, granted, metrics),
                _ => Progress::Passed,
            };
            assert(plugins@ =~= before.update(p as int, plugins@[p as int]));
            proof {
                let f = before[p as int]->Forward_0;
                let g = plugins@[p as int]->Forward_0;
                if granted {
                    forward::law_only_known_servers_are_asked(
                        f,
                        g,
                        old(self).msg,
                        self.msg,
                        progress,
                    );
                }
            }
            self.go_on(p, progress);
        }
    }

    /// The number of the server that is to be asked.
    pub open spec fn next_server(self) -> usize {
        self.order@[self.stage->Exchange_1 as int]
    }

    /// What is sent back to the client, once the run is through.
    pub open spec fn sent_back(self) -> Option<Seq<u8>> {
        if self.stage == Stage::Done {
            self.msg.response()
        } else {
            None
        }
    }

    /// The plugin that forwards the query, and the number of the server that
    /// is to be asked.
    pub fn asked<'a>(&self, plugins: &'a Vec<PluginInstance>) -> (r: Option<
        (&'a ForwardPlugin, usize),
    >)
        requires
            self.fits(plugins@),
        ensures
            match self.stage {
                Stage::Exchange(p, at) => {
                    &&& r matches Some((f, idx))
                    &&& *f == plugins@[p as int]->Forward_0
                    &&& idx == self.order@[at as int]
                    &&& idx == self.next_server()
                    &&& idx < f.upstreams@.len()
                },
                _ => r is None,
            },
    {
        match self.stage {
            Stage::Exchange(p, at) => match &plugins[p] {
                PluginInstance::Forward(f) => Some((f, self.order[at])),
                _ => None,
            },
            _ => None,
        }
    }

    /// Takes the reply of the server that was asked. A reply that is too short
    /// to hold a response code ends the run.
    pub fn on_reply(
        &mut self,
        plugins: &Vec<PluginInstance>,
        reply: Vec<u8>,
        elapsed: u128,
        metrics: &mut Vec<Metric>,
    )
        requires
            old(self).fits(plugins@),
            old(self).stage is Exchange,
        ensures
            final(self).fits(plugins@),
            final(self).nearer(*old(self), plugins@.len()),
            final(self).started == old(self).started,
            old(self).after_reply(
                *final(self),
                plugins@,
                reply@,
                elapsed,
                metrics::samples(old(metrics)@),
                metrics::samples(final(metrics)@),
            ),
    {
        if reply.len() < 4 {
            self.stage = Stage::Dropped;
            return;
        }
        if let Stage::Exchange(p, at) = self.stage {
            assert(p < plugins.len());
            let servers: usize = self.order.len();
            let idx: usize = self.order[at];
            let verdict = match &plugins[p] {
                PluginInstance::Forward(f) => f.on_reply(
                    &mut self.msg,
                    idx,
                    reply,
                    elapsed,
                    metrics,
                ),
                _ => Verdict::AskNext,
            };
            self.stage = if verdict == Verdict::AskNext && at + 1 < servers {
                Stage::Exchange(p, at + 1)
            } else {
                Stage::Inbound(p + 1)
            };
        }
    }

    /// Takes note that the server could not be asked, and returns the report.
    pub fn on_failure(
        &mut self,
        plugins: &Vec<PluginInstance>,
        error: &str,
        elapsed: u128,
        metrics: &mut Vec<Metric>,
    ) -> (report: String)
        requires
            old(self).fits(plugins@),
            old(self).stage is Exchange,
        ensures
            final(self).fits(plugins@),
            final(self).nearer(*old(self), plugins@.len()),
            final(self).started == old(self).started,
            old(self).after_failure(
                *final(self),
                plugins@,
                elapsed,
                metrics::samples(old(metrics)@),
                metrics::samples(final(metrics)@),
            ),
            ({
                let p = old(self).stage->Exchange_0;
                let at = old(self).stage->Exchange_1;
                let f = plugins@[p as int]->Forward_0;
                report@ == forward::failure_report(
                    forward::address(f.upstreams@[old(self).order@[at as int] as int]@),
                    forward::shown_name(old(self).msg.raw_query@),
                    error@,
                )
            }),
    {
        let mut report = String::new();
        if let Stage::Exchange(p, at) = self.stage {
            assert(p < plugins.len());
            let servers: usize = self.order.len();
            let idx: usize = self.order[at];
            if let PluginInstance::Forward(f) = &plugins[p] {
                report = f.on_failure(&self.msg, idx, error, elapsed, metrics);
            }
            self.stage = if at + 1 < servers {
                Stage::Exchange(p, at + 1)
            } else {
                Stage::Inbound(p + 1)
            };
        }
        report
    }

    /// The answer, once the run is through.
    pub fn answer(self) -> (r: Option<Vec<u8>>)
        ensures
            r == if self.stage == Stage::Done {
                self.msg.raw_response
            } else {
                None
            },
            match self.sent_back() {
                Some(bytes) => r matches Some(v) && v@ == bytes,
                None => r is None,
            },
    {
        match self.stage {
            Stage::Done => self.msg.raw_response,
            _ => None,
        }
    }
}

/// What happens to a run.
pub enum Event {
    /// A step on the way in or out, at a moment.
    Step(u128),
    /// A permit was granted or not.
    Permit(bool),
    /// A server replied, after some nanoseconds.
    Reply(Seq<u8>, u128),
    /// A server could not be asked, which took some nanoseconds to find out.
    Failure(u128),
}

/// A run with all that it touches, and what happens to it next.
pub struct Moment {
    pub event: Event,
    pub run: QueryRun,
    pub plugins: Seq<PluginInstance>,
    pub kept: Held,
    pub samples: Seq<Sample>,
}

impl Moment {
    /// The pass by a step from this moment to the next one.
    pub open spec fn pass(self, next: Moment) -> Pass {
        pass_of(
            self.event->Step_0,
            self.run.msg,
            next.run.msg,
            self.kept,
            next.kept,
            self.samples,
            next.samples,
        )
    }

    /// Whether what happens leads from this moment to the next one.
    pub open spec fn leads_to(self, next: Moment) -> bool {
        match self.event {
            Event::Step(_) => {
                &&& self.run.stage is Inbound || self.run.stage is Outbound
                &&& self.run.stepped(next.run, self.plugins, next.plugins, self.pass(next))
            },
            Event::Permit(granted) => {
                &&& self.run.stage is Permit
                &&& next.kept == self.kept
                &&& self.run.after_permit(
                    next.run,
                    self.plugins,
                    next.plugins,
                    granted,
                    self.samples,
                    next.samples,
                )
            },
            Event::Reply(reply, elapsed) => {
                &&& self.run.stage is Exchange
                &&& next.kept == self.kept
                &&& next.plugins == self.plugins
                &&& self.run.after_reply(
                    next.run,
                    self.plugins,
                    reply,
                    elapsed,
                    self.samples,
                    next.samples,
                )
            },
            Event::Failure(elapsed) => {
                &&& self.run.stage is Exchange
                &&& next.kept == self.kept
                &&& next.plugins == self.plugins
                &&& self.run.after_failure(
                    next.run,
                    self.plugins,
                    elapsed,
                    self.samples,
                    next.samples,
                )
            },
        }
    }

    /// Whether the server that is asked gives no acceptable answer: it cannot
    /// be asked, or it replies with a code for which the next one is asked.
    pub open spec fn fails_over(self) -> bool {
        &&& self.run.stage matches Stage::Exchange(p, _)
        &&& match self.event {
            Event::Failure(_) => true,
            Event::Reply(reply, _) => reply.len() >= 4 && self.plugins[p as int]
                ->Forward_0.failover_rcodes@.contains(wire::rcode_of(reply)),
            _ => false,
        }
    }
}

/// Whether a moment of a trace leads to the next one.
pub open spec fn goes_from(trace: Seq<Moment>, k: int) -> bool {
    trace[k].leads_to(trace[k + 1])
}

/// Whether each moment but the last leads to the next one, and the run is not
/// given up.
pub open spec fn walked(trace: Seq<Moment>) -> bool {
    &&& forall|k: int| 0 <= k < trace.len() - 1 ==> #[trigger] goes_from(trace, k)
    &&& forall|k: int| 0 <= k < trace.len() ==> (#[trigger] trace[k]).run.stage != Stage::Dropped
}

/// The servers are asked in turn for as long as none gives an acceptable
/// answer, and the message stays as it was; after the last one it goes on to
/// the next plugin.
pub proof fn law_servers_are_asked_in_turn(trace: Seq<Moment>, p: usize, k: int)
    requires
        walked(trace),
        trace[0].run.stage == Stage::Exchange(p, 0),
        trace[0].run.fits(trace[0].plugins),
        0 <= k < trace.len(),
        forall|j: int| 0 <= j < k ==> (#[trigger] trace[j]).fails_over(),
    ensures
        trace[k].run.msg == trace[0].run.msg,
        trace[k].run.order == trace[0].run.order,
        trace[k].plugins == trace[0].plugins,
        trace[k].kept == trace[0].kept,
        k <= trace[0].run.order@.len(),
        trace[k].run.stage == if k < trace[0].run.order@.len() {
            Stage::Exchange(p, k as usize)
        } else {
            Stage::Inbound((p + 1) as usize)
        },
        k < trace[0].run.order@.len() ==> trace[k].run.next_server() == trace[0].run.order@[k],
    decreases k,
{
    assert(trace[0].run.order.len() == trace[0].run.order@.len());
    if k > 0 {
        law_servers_are_asked_in_turn(trace, p, k - 1);
        assert(trace[k - 1].fails_over());
        assert(goes_from(trace, k - 1));
    }
}

/// The first reply that is not one for which the next server is asked becomes
/// the response, and the chain halts unless its code is one with which the
/// message goes on.
pub proof fn law_first_acceptable_reply_is_the_answer(
    trace: Seq<Moment>,
    p: usize,
    k: int,
    reply: Seq<u8>,
    elapsed: u128,
)
    requires
        walked(trace),
        trace[0].run.stage == Stage::Exchange(p, 0),
        trace[0].run.fits(trace[0].plugins),
        0 <= k < trace.len() - 1,
        forall|j: int| 0 <= j < k ==> (#[trigger] trace[j]).fails_over(),
        trace[k].event == Event::Reply(reply, elapsed),
        !trace[k].fails_over(),
    ensures
        k < trace[0].run.order@.len(),
        trace[k].run.stage == Stage::Exchange(p, k as usize),
        reply.len() >= 4,
        trace[k + 1].run.stage == Stage::Inbound((p + 1) as usize),
        trace[0].run.msg.answered(
            trace[k + 1].run.msg,
            reply,
            "forward"@,
            !trace[0].plugins[p as int]->Forward_0.next_rcodes@.contains(wire::rcode_of(reply)),
        ),
{
    law_servers_are_asked_in_turn(trace, p, k);
    assert(goes_from(trace, k));
    assert(trace[k + 1].run.stage != Stage::Dropped);
}

/// Whether a run is on its way in.
pub open spec fn on_way_in(stage: Stage) -> bool {
    stage is Inbound || stage is Permit || stage is Exchange
}

/// The number of the plugin at which a run on its way in is.
pub open spec fn place(stage: Stage) -> int {
    match stage {
        Stage::Inbound(i) => i as int,
        Stage::Permit(p) => p as int,
        Stage::Exchange(p, _) => p as int,
        _ => -1,
    }
}

/// Whether, at a moment of the trace, the message was taken by the plugin with
/// a number, which was as at the beginning, and had not been halted.
pub open spec fn passed_at(trace: Seq<Moment>, j: int, h: int) -> bool {
    &&& 0 <= j < trace.len() - 1
    &&& 0 <= h < trace[0].plugins.len()
    &&& trace[j].run.stage == Stage::Inbound(h as usize)
    &&& !trace[j].run.msg.halt_chain
    &&& exists|progress: Progress|
        #[trigger] trace[0].plugins[h].processed(
            trace[j + 1].plugins[h],
            trace[j].pass(trace[j + 1]),
            progress,
        )
}

/// Whether the message was taken by the plugin with a number before a moment.
pub open spec fn passed_before(trace: Seq<Moment>, k: int, h: int) -> bool {
    exists|j: int| j < k && #[trigger] passed_at(trace, j, h)
}

/// On its way in a message passes the plugins of the zone one by one, in their
/// order, and each at most once: when it is at a plugin it has been taken by
/// every earlier one, no later one has changed, and it is never in front of
/// the same plugin again. This holds whether or not it is forwarded on the
/// way.
pub proof fn law_way_in(trace: Seq<Moment>, k: int)
    requires
        walked(trace),
        0 <= k < trace.len(),
        trace[0].run.stage == Stage::Inbound(0),
        trace[0].plugins.len() <= usize::MAX,
    ensures
        trace[k].plugins.len() == trace[0].plugins.len(),
        on_way_in(trace[k].run.stage) ==> {
            let i = place(trace[k].run.stage);
            &&& 0 <= i <= trace[0].plugins.len()
            &&& trace[k].run.stage is Inbound || i < trace[0].plugins.len()
            &&& forall|h: int|
                0 <= h < i || (h == i && !(trace[k].run.stage is Inbound))
                    ==> #[trigger] passed_before(trace, k, h)
            &&& forall|h: int|
                i < h < trace[0].plugins.len() || (h == i && h < trace[0].plugins.len()
                    && trace[k].run.stage is Inbound) ==> #[trigger] trace[k].plugins[h]
                    == trace[0].plugins[h]
        },
        forall|j: int|
            0 <= j < k && (#[trigger] trace[j]).run.stage is Inbound ==> trace[j].run.stage
                != trace[k].run.stage,
    decreases k,
{
    if k > 0 {
        let a = trace[k - 1];
        let b = trace[k];
        let n = trace[0].plugins.len() as int;
        law_way_in(trace, k - 1);
        assert(goes_from(trace, k - 1));
        assert(b.run.stage != Stage::Dropped);
        if on_way_in(b.run.stage) {
            assert(on_way_in(a.run.stage));
            let i = place(a.run.stage);
            if a.run.stage is Inbound {
                assert(trace[0].plugins[i] == a.plugins[i]);
                assert(passed_at(trace, k - 1, i));
            }
            assert forall|h: int|
                0 <= h < place(b.run.stage) || (h == place(b.run.stage) && !(
                b.run.stage is Inbound)) implies #[trigger] passed_before(trace, k, h) by {
                if a.run.stage is Inbound && h == i {
                    assert(passed_at(trace, k - 1, h));
                } else {
                    assert(passed_before(trace, k - 1, h));
                    let j = choose|j: int| j < k - 1 && #[trigger] passed_at(trace, j, h);
                    assert(passed_at(trace, j, h));
                }
            }
        }
        assert forall|j: int|
            0 <= j < k && (#[trigger] trace[j]).run.stage is Inbound implies trace[j].run.stage
            != b.run.stage by {
            if on_way_in(b.run.stage) {
                lemma_places_ascend(trace, j, k);
            }
        }
    }
}

/// From one moment to the next a run on its way in stays at its plugin, or goes
/// on to the front of the next one.
proof fn lemma_next_place(a: Moment, b: Moment)
    requires
        a.leads_to(b),
        b.run.stage != Stage::Dropped,
        a.plugins.len() <= usize::MAX,
        on_way_in(b.run.stage),
        on_way_in(a.run.stage) ==> a.run.stage is Inbound || place(a.run.stage) < a.plugins.len(),
    ensures
        on_way_in(a.run.stage),
        if b.run.stage is Inbound {
            place(b.run.stage) == place(a.run.stage) + 1
        } else {
            place(b.run.stage) == place(a.run.stage)
        },
{
}

/// A run that leaves the front of a plugin on its way in does not come back to
/// it.
proof fn lemma_places_ascend(trace: Seq<Moment>, j: int, k: int)
    requires
        walked(trace),
        0 <= j < k < trace.len(),
        trace[0].run.stage == Stage::Inbound(0),
        trace[0].plugins.len() <= usize::MAX,
        trace[j].run.stage is Inbound,
        on_way_in(trace[k].run.stage),
    ensures
        place(trace[k].run.stage) >= place(trace[j].run.stage),
        trace[k].run.stage is Inbound ==> place(trace[k].run.stage) > place(trace[j].run.stage),
    decreases k,
{
    lemma_way_in_bounds(trace, k - 1);
    assert(goes_from(trace, k - 1));
    assert(trace[k].run.stage != Stage::Dropped);
    lemma_next_place(trace[k - 1], trace[k]);
    if j < k - 1 {
        lemma_places_ascend(trace, j, k - 1);
    }
}

/// The place of a run on its way in is that of a plugin or behind the last one.
proof fn lemma_way_in_bounds(trace: Seq<Moment>, k: int)
    requires
        walked(trace),
        0 <= k < trace.len(),
        trace[0].run.stage == Stage::Inbound(0),
        trace[0].plugins.len() <= usize::MAX,
    ensures
        trace[k].plugins.len() == trace[0].plugins.len(),
        on_way_in(trace[k].run.stage) ==> {
            let i = place(trace[k].run.stage);
            &&& 0 <= i <= trace[0].plugins.len()
            &&& trace[k].run.stage is Inbound || i < trace[0].plugins.len()
        },
    decreases k,
{
    if k > 0 {
        lemma_way_in_bounds(trace, k - 1);
        assert(goes_from(trace, k - 1));
        assert(trace[k].run.stage != Stage::Dropped);
    }
}

/// On its way out a message passes every plugin of the zone exactly once, in
/// the reverse of their order, and is done after the first plugin.
pub proof fn law_way_out(trace: Seq<Moment>, n: usize, k: int)
    requires
        walked(trace),
        trace.len() <= n + 2,
        0 <= k < trace.len(),
        trace[0].run.stage == Stage::Outbound(n),
        trace[0].plugins.len() == n,
    ensures
        trace[k].plugins == trace[0].plugins,
        trace[k].run.stage == if k <= n {
            Stage::Outbound((n - k) as usize)
        } else {
            Stage::Done
        },
        k < n && k + 1 < trace.len() ==> trace[0].plugins[n - k - 1].post_processed(
            trace[k].pass(trace[k + 1]),
        ),
    decreases k,
{
    if k > 0 {
        law_way_out(trace, n, k - 1);
        assert(goes_from(trace, k - 1));
        assert(trace[k].run.stage != Stage::Dropped);
    }
    if k + 1 < trace.len() {
        assert(goes_from(trace, k));
        assert(trace[k + 1].run.stage != Stage::Dropped);
    }
}

/// A run on its way out turned back in front of all plugins as many moments
/// ago as it has passed on its way out.
proof fn lemma_turned_back(trace: Seq<Moment>, k: int, left: usize)
    requires
        walked(trace),
        0 <= k < trace.len(),
        trace[0].run.stage == Stage::Inbound(0),
        trace[0].plugins.len() <= usize::MAX,
        trace[k].run.stage == Stage::Outbound(left),
    ensures
        left <= trace[0].plugins.len(),
        0 < k - (trace[0].plugins.len() - left),
        trace[k - (trace[0].plugins.len() - left)].run.stage == Stage::Outbound(
            trace[0].plugins.len() as usize,
        ),
    decreases k,
{
    lemma_way_in_bounds(trace, k - 1);
    assert(goes_from(trace, k - 1));
    if let Stage::Outbound(more) = trace[k - 1].run.stage {
        lemma_turned_back(trace, k - 1, more);
    }
}

/// Whether, `h` moments after the turn, the message was taken by the plugin on
/// its way out that is next after `h` others.
pub open spec fn taken_back(trace: Seq<Moment>, turn: int, h: int) -> bool {
    trace[turn].plugins[trace[turn].plugins.len() - h - 1].post_processed(
        trace[turn + h].pass(trace[turn + h + 1]),
    )
}

/// The chain has the shape of an onion: whatever happened on the way in, a
/// message that is done has, in the last moments before, passed all plugins of
/// the zone in the reverse of their order.
pub proof fn law_onion(trace: Seq<Moment>, k: int)
    requires
        walked(trace),
        0 <= k < trace.len(),
        trace[0].run.stage == Stage::Inbound(0),
        trace[0].plugins.len() <= usize::MAX,
        trace[k].run.stage == Stage::Done,
    ensures
        ({
            let n = trace[0].plugins.len() as int;
            let turn = k - n - 1;
            &&& turn > 0
            &&& trace[turn].run.stage == Stage::Outbound(n as usize)
            &&& trace[turn].plugins.len() == n
            &&& forall|h: int| 0 <= h < n ==> #[trigger] taken_back(trace, turn, h)
        }),
{
    let n = trace[0].plugins.len() as int;
    let turn = k - n - 1;
    assert(goes_from(trace, k - 1));
    lemma_turned_back(trace, k - 1, 0);
    lemma_way_in_bounds(trace, turn);
    let out = trace.subrange(turn, k + 1);
    assert(walked(out)) by {
        assert forall|j: int| 0 <= j < out.len() - 1 implies #[trigger] goes_from(out, j) by {
            assert(goes_from(trace, turn + j));
            assert(out[j] == trace[turn + j] && out[j + 1] == trace[turn + j + 1]);
        }
    }
    assert forall|h: int| 0 <= h < n implies #[trigger] taken_back(trace, turn, h) by {
        law_way_out(out, n as usize, h);
        assert(out[h] == trace[turn + h] && out[h + 1] == trace[turn + h + 1]);
    }
}

/// A halted message skips the plugins that are left on the way in and turns
/// back at once, unchanged, to pass all plugins on the way out.
pub proof fn law_halted_message_turns_back(a: Moment, b: Moment)
    requires
        a.leads_to(b),
        a.run.stage is Inbound,
        a.run.msg.halt_chain,
    ensures
        b.run.stage == Stage::Outbound(a.plugins.len() as usize),
        b.run.msg == a.run.msg,
        b.plugins == a.plugins,
        b.kept == a.kept,
        b.samples == a.samples,
{
}

} // verus!
