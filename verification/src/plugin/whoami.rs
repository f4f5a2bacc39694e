//! The whoami plugin: it tells a client its own address, port and transport.

use crate::config::{Directive, PluginConfig};
use crate::metrics::Metric;
use crate::plugin::cache::CacheStore;
use crate::plugin::{Pass, Plugin, PluginError, Progress, Setting, SharedState};
use crate::text::same_text;
use crate::types::{ClientAddr, ClientIp, DnsMessage};
use crate::wire;
use crate::wire::{question_type_of, skip_name};
use vstd::array::array_as_slice;
use vstd::prelude::*;
use vstd::slice::slice_subrange;

verus! {

/// The record with the address of the client: owner is the name in question,
/// class IN, no time to live.
pub open spec fn address_record(ip: ClientIp) -> Seq<u8> {
    match ip {
        ClientIp::V4(octets) => seq![
            0xc0u8,
            0x0c,
            0x00,
            0x01,
            0x00,
            0x01,
            0x00,
            0x00,
            0x00,
            0x00,
            0x00,
            0x04,
        ] + octets@,
        ClientIp::V6(octets) => seq![
            0xc0u8,
            0x0c,
            0x00,
            0x1c,
            0x00,
            0x01,
            0x00,
            0x00,
            0x00,
            0x00,
            0x00,
            0x10,
        ] + octets@,
    }
}

/// The record with the port of the client: owner is the transport below the
/// name in question, type SRV, class IN, no time to live, root as target.
pub open spec fn service_record(port: u16, tcp: bool) -> Seq<u8> {
    let transport = if tcp {
        seq![0x04u8, 0x5f, 0x74, 0x63, 0x70]
    } else {
        seq![0x04u8, 0x5f, 0x75, 0x64, 0x70]
    };
    transport + seq![
        0xc0u8,
        0x0c,
        0x00,
        0x21,
        0x00,
        0x01,
        0x00,
        0x00,
        0x00,
        0x00,
        0x00,
        0x07,
        0x00,
        0x00,
        0x00,
        0x00,
        (port / 256) as u8,
        (port % 256) as u8,
        0x00,
    ]
}

/// The answer to a query of a client: its identifier, a header that announces
/// one question and two additional records, the question and the records.
pub open spec fn introduction(query: Seq<u8>, client: ClientAddr, tcp: bool) -> Seq<u8> {
    query.take(2) + seq![0x81u8, 0x80, 0x00, 0x01, 0x00, 0x00, 0x00, 0x00, 0x00, 0x02]
        + wire::question_bytes(query)->0 + address_record(client.ip) + service_record(
        client.port,
        tcp,
    )
}

/// Whether a message asks for an address on behalf of a known client and is
/// not answered yet.
pub open spec fn asks_for_address(msg: DnsMessage) -> bool {
    &&& !msg.halt_chain
    &&& msg.raw_query@.len() >= wire::HEADER_LEN
    &&& msg.client_addr is Some
    &&& (wire::question_type(msg.raw_query@) == Some(1u16) || wire::question_type(msg.raw_query@)
        == Some(28u16))
}

/// Whether a message that asks for an address has a whole question, and so can
/// be answered.
pub fn can_introduce(msg: &DnsMessage) -> (r: bool)
    ensures
        r == (asks_for_address(*msg) ==> wire::question_bytes(msg.raw_query@) is Some),
{
    if msg.halt_chain || msg.raw_query.len() < wire::HEADER_LEN || msg.client_addr.is_none() {
        return true;
    }
    match question_type_of(msg.raw_query.as_slice()) {
        Some(qtype) => (qtype != 1 && qtype != 28) || match skip_name(msg.raw_query.as_slice()) {
            Some(e) => msg.raw_query.len() - e >= 4,
            None => false,
        },
        None => true,
    }
}

/// Appends the record with the address of the client.
fn push_address(resp: &mut Vec<u8>, ip: ClientIp)
    ensures
        final(resp)@ == old(resp)@ + address_record(ip),
{
    match ip {
        ClientIp::V4(octets) => {
            resp.extend_from_slice(
                array_as_slice(
                    &[
                        0xc0,
                        0x0c,
                        0x00,
                        0x01,
                        0x00,
                        0x01,
                        0x00,
                        0x00,
                        0x00,
                        0x00,
                        0x00,
                        0x04,
                    ],
                ),
            );
            resp.extend_from_slice(array_as_slice(&octets));
        },
        ClientIp::V6(octets) => {
            resp.extend_from_slice(
                array_as_slice(
                    &[
                        0xc0,
                        0x0c,
                        0x00,
                        0x1c,
                        0x00,
                        0x01,
                        0x00,
                        0x00,
                        0x00,
                        0x00,
                        0x00,
                        0x10,
                    ],
                ),
            );
            resp.extend_from_slice(array_as_slice(&octets));
        },
    }
    assert(resp@ =~= old(resp)@ + address_record(ip));
}

/// Appends the record with the port of the client.
fn push_service(resp: &mut Vec<u8>, port: u16, tcp: bool)
    ensures
        final(resp)@ == old(resp)@ + service_record(port, tcp),
{
    if tcp {
        resp.extend_from_slice(array_as_slice(&[0x04, 0x5f, 0x74, 0x63, 0x70]));
    } else {
        resp.extend_from_slice(array_as_slice(&[0x04, 0x5f, 0x75, 0x64, 0x70]));
    }
    resp.extend_from_slice(
        array_as_slice(
            &[
                0xc0,
                0x0c,
                0x00,
                0x21,
                0x00,
                0x01,
                0x00,
                0x00,
                0x00,
                0x00,
                0x00,
                0x07,
                0x00,
                0x00,
                0x00,
                0x00,
            ],
        ),
    );
    resp.push((port / 256) as u8);
    resp.push((port % 256) as u8);
    resp.push(0x00);
    assert(resp@ =~= old(resp)@ + service_record(port, tcp));
}

/// A plugin that answers address queries with the address of the client.
#[derive(Debug)]
pub struct WhoamiPlugin;

impl Plugin for WhoamiPlugin {
    open spec fn called() -> Seq<char> {
        "whoami"@
    }

    open spec fn rank() -> u8 {
        200
    }

    open spec fn reads_errors() -> bool {
        false
    }

    open spec fn configured(self, config: Directive, shared: Setting) -> bool {
        true
    }

    open spec fn accepts(self, msg: DnsMessage) -> bool {
        asks_for_address(msg) ==> wire::question_bytes(msg.raw_query@) is Some
    }

    open spec fn processed(self, after: Self, pass: Pass, progress: Progress) -> bool {
        &&& after == self
        &&& progress is Passed
        &&& pass.only_message()
        &&& if asks_for_address(pass.msg) {
            pass.msg.answered(
                pass.msg_after,
                introduction(
                    pass.msg.raw_query@,
                    pass.msg.client_addr->0,
                    pass.msg.protocol@ == "tcp"@,
                ),
                pass.msg.answered_by@,
                true,
            )
        } else {
            pass.msg_after == pass.msg
        }
    }

    open spec fn accepts_back(self, msg: DnsMessage) -> bool {
        true
    }

    open spec fn post_processed(self, pass: Pass) -> bool {
        pass.untouched()
    }

    fn name(&self) -> (r: &'static str) {
        "whoami"
    }

    fn priority(&self) -> (r: u8) {
        200
    }

    fn from_config(_config: &PluginConfig, _shared: &mut SharedState) -> (r: Result<
        Self,
        PluginError,
    >) {
        Ok(WhoamiPlugin)
    }

    fn process(
        &mut self,
        msg: &mut DnsMessage,
        _store: &mut CacheStore,
        _now: u128,
        _metrics: &mut Vec<Metric>,
    ) -> (progress: Progress) {
        if msg.halt_chain || msg.raw_query.len() < wire::HEADER_LEN {
            return Progress::Passed;
        }
        let client: ClientAddr = match msg.client_addr {
            Some(addr) => addr,
            None => {
                return Progress::Passed;
            },
        };
        match question_type_of(msg.raw_query.as_slice()) {
            Some(t) => {
                if t != 1 && t != 28 {
                    return Progress::Passed;
                }
            },
            None => {
                return Progress::Passed;
            },
        }
        let end: usize = match skip_name(msg.raw_query.as_slice()) {
            Some(e) => e,
            None => {
                return Progress::Passed;
            },
        };
        let query = msg.raw_query.as_slice();
        let mut resp: Vec<u8> = Vec::new();
        resp.extend_from_slice(slice_subrange(query, 0, 2));
        resp.extend_from_slice(
            array_as_slice(&[0x81, 0x80, 0x00, 0x01, 0x00, 0x00, 0x00, 0x00, 0x00, 0x02]),
        );
        resp.extend_from_slice(slice_subrange(query, wire::HEADER_LEN, end + 4));
        assert(resp@ =~= query@.take(2) + seq![
            0x81u8,
            0x80,
            0x00,
            0x01,
            0x00,
            0x00,
            0x00,
            0x00,
            0x00,
            0x02,
        ] + wire::question_bytes(query@)->0);
        push_address(&mut resp, client.ip);
        push_service(&mut resp, client.port, same_text(msg.protocol.as_str(), "tcp"));
        msg.raw_response = Some(resp);
        msg.halt_chain = true;
        Progress::Passed
    }

    fn post_process(
        &self,
        _msg: &mut DnsMessage,
        _store: &mut CacheStore,
        _now: u128,
        _metrics: &mut Vec<Metric>,
    ) {
    }
}

} // verus!
