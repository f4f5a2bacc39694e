//! The data that travels through the plugin chain.

use vstd::prelude::*;

verus! {

/// Query types by name.
#[derive(Debug, Clone, Copy, PartialEq, Eq, Structural)]
pub enum QType {
    A,
    AAAA,
    MX,
    TXT,
    CNAME,
    NS,
    SOA,
    PTR,
    SRV,
    ANY,
}

/// Query classes by name.
#[derive(Debug, Clone, Copy, PartialEq, Eq, Structural)]
pub enum QClass {
    IN,
    CH,
    HS,
}

/// A resource record; addresses are kept as their octets.
#[derive(Debug, Clone)]
#[allow(inconsistent_fields)]
pub enum Record {
    A { addr: [u8; 4] },
    AAAA { addr: [u8; 16] },
    TXT { text: Vec<String> },
    CNAME { cname: String },
    MX { preference: u16, exchange: String },
    NS { nsdname: String },
    SOA {
        mname: String,
        rname: String,
        serial: u32,
        refresh: u32,
        retry: u32,
        expire: u32,
        minimum: u32,
    },
    PTR { ptrdname: String },
    SRV { priority: u16, weight: u16, port: u16, target: String },
}

/// The flags of a message header.
#[derive(Debug, Clone, Copy)]
pub struct HeaderFlags {
    pub qr: bool,
    pub opcode: u8,
    pub aa: bool,
    pub tc: bool,
    pub rd: bool,
    pub ra: bool,
    pub rcode: u8,
}

/// A message header.
#[derive(Debug, Clone, Copy)]
pub struct DnsHeader {
    pub id: u16,
    pub flags: HeaderFlags,
    pub question_count: u16,
    pub answer_count: u16,
    pub authority_count: u16,
    pub additional_count: u16,
}

/// One question of a message.
#[derive(Debug, Clone)]
pub struct DnsQuestion {
    pub name: String,
    pub qtype: QType,
    pub qclass: QClass,
}

/// The address of a client, as octets.
#[derive(Debug, Clone, Copy)]
pub enum ClientIp {
    V4([u8; 4]),
    V6([u8; 16]),
}

/// The address and port from which a query came.
#[derive(Debug, Clone, Copy)]
pub struct ClientAddr {
    pub ip: ClientIp,
    pub port: u16,
}

/// A query on its way through the plugin chain, with the answer found so far.
///
/// Points in time are nanoseconds on a clock that never goes back.
#[derive(Debug, Clone)]
pub struct DnsMessage {
    pub header: DnsHeader,
    pub questions: Vec<DnsQuestion>,
    pub answers: Vec<Record>,
    pub authority: Vec<Record>,
    pub additional: Vec<Record>,
    /// The query as it came from the client.
    pub raw_query: Vec<u8>,
    /// The answer, once a plugin has one.
    pub raw_response: Option<Vec<u8>>,
    /// Whether the plugins further down the chain are to be skipped.
    pub halt_chain: bool,
    pub client_addr: Option<ClientAddr>,
    pub protocol: String,
    pub server_port: Option<u16>,
    pub start_time: Option<u128>,
    /// The plugin that gave the answer; empty while there is none.
    pub answered_by: String,
}

impl HeaderFlags {
    /// Flags with every bit and code at zero.
    pub open spec fn zero() -> HeaderFlags {
        HeaderFlags { qr: false, opcode: 0, aa: false, tc: false, rd: false, ra: false, rcode: 0 }
    }
}

impl Default for HeaderFlags {
    fn default() -> (r: Self)
        ensures
            r == HeaderFlags::zero(),
    {
        HeaderFlags { qr: false, opcode: 0, aa: false, tc: false, rd: false, ra: false, rcode: 0 }
    }
}

impl DnsHeader {
    /// A header with the given identifier and everything else at zero.
    pub open spec fn with_id(id: u16) -> DnsHeader {
        DnsHeader {
            id,
            flags: HeaderFlags::zero(),
            question_count: 0,
            answer_count: 0,
            authority_count: 0,
            additional_count: 0,
        }
    }
}

impl Default for DnsHeader {
    fn default() -> (r: Self)
        ensures
            r == DnsHeader::with_id(0),
    {
        DnsHeader {
            id: 0,
            flags: HeaderFlags::default(),
            question_count: 0,
            answer_count: 0,
            authority_count: 0,
            additional_count: 0,
        }
    }
}

impl DnsMessage {
    /// The bytes of the answer, if there is one.
    pub open spec fn response(self) -> Option<Seq<u8>> {
        match self.raw_response {
            Some(r) => Some(r@),
            None => None,
        }
    }

    /// Whether two messages agree on the query and on where it came from, that
    /// is on everything but the answer and the start time.
    pub open spec fn same_query(self, other: DnsMessage) -> bool {
        &&& self.header == other.header
        &&& self.questions == other.questions
        &&& self.answers == other.answers
        &&& self.authority == other.authority
        &&& self.additional == other.additional
        &&& self.raw_query == other.raw_query
        &&& self.client_addr == other.client_addr
        &&& self.protocol == other.protocol
        &&& self.server_port == other.server_port
    }

    /// Whether `after` is this message with an answer put in: the response, by
    /// whom it was given and whether the chain is to halt; the rest is kept.
    pub open spec fn answered(
        self,
        after: DnsMessage,
        response: Seq<u8>,
        by: Seq<char>,
        halt: bool,
    ) -> bool {
        &&& self.same_query(after)
        &&& after.start_time == self.start_time
        &&& after.response() == Some(response)
        &&& after.answered_by@ == by
        &&& after.halt_chain == halt
    }

    /// The port of the listener that took the query, 53 where it is not known.
    pub open spec fn port(self) -> u16 {
        match self.server_port {
            Some(p) => p,
            None => 53,
        }
    }

    /// Whether the message holds nothing yet.
    pub open spec fn is_blank(self) -> bool {
        &&& self.header == DnsHeader::with_id(0)
        &&& self.questions@.len() == 0
        &&& self.answers@.len() == 0
        &&& self.authority@.len() == 0
        &&& self.additional@.len() == 0
        &&& self.raw_query@.len() == 0
        &&& self.raw_response is None
        &&& !self.halt_chain
        &&& self.client_addr is None
        &&& self.protocol@.len() == 0
        &&& self.server_port is None
        &&& self.start_time is None
        &&& self.answered_by@.len() == 0
    }
}

impl Default for DnsMessage {
    fn default() -> (r: Self)
        ensures
            r.is_blank(),
    {
        DnsMessage {
            header: DnsHeader::default(),
            questions: Vec::new(),
            answers: Vec::new(),
            authority: Vec::new(),
            additional: Vec::new(),
            raw_query: Vec::new(),
            raw_response: None,
            halt_chain: false,
            client_addr: None,
            protocol: String::new(),
            server_port: None,
            start_time: None,
            answered_by: String::new(),
        }
    }
}

} // verus!
