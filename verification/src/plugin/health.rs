//! The health plugin: a listener that tells that the server is alive.

use crate::config::{Directive, PluginConfig};
use crate::metrics::Metric;
use crate::plugin::cache::CacheStore;
use crate::plugin::{Pass, Plugin, PluginError, Progress, Setting, SharedState};
use crate::text;
use crate::text::{concat, has_char};
use crate::types::DnsMessage;
use vstd::prelude::*;
use vstd::slice::slice_to_vec;

verus! {

/// The address of a listener on all interfaces, for an argument that is a port
/// or a port behind a colon.
pub open spec fn listen_on(args: Seq<Seq<char>>, default: Seq<char>) -> Seq<char> {
    let port = if args.len() > 0 {
        args[0]
    } else {
        default
    };
    if port.contains(':') {
        "0.0.0.0"@ + port
    } else {
        "0.0.0.0"@ + (":"@ + port)
    }
}

/// The address of a listener on all interfaces.
pub fn listen_address(args: &Vec<String>, default: &str) -> (r: String)
    ensures
        r@ == listen_on(text::texts(args@), default@),
{
    let port = if args.len() > 0 {
        args[0].clone()
    } else {
        default.to_owned()
    };
    if has_char(port.as_str(), ':') {
        concat("0.0.0.0", port.as_str())
    } else {
        concat("0.0.0.0", concat(":", port.as_str()).as_str())
    }
}

/// What the listener says to everyone who connects.
pub open spec fn alive() -> Seq<u8> {
    vstd::utf8::encode_utf8(
        "HTTP/1.1 200 OK\r\nContent-Type: text/plain\r\nContent-Length: 2\r\n\r\nOK"@,
    )
}

/// What the listener says to everyone who connects.
pub fn health_response() -> (r: Vec<u8>)
    ensures
        r@ == alive(),
{
    slice_to_vec(
        "HTTP/1.1 200 OK\r\nContent-Type: text/plain\r\nContent-Length: 2\r\n\r\nOK".as_bytes(),
    )
}

/// A plugin with a listener of its own; it lets every message pass.
#[derive(Debug)]
pub struct HealthPlugin {
    /// Where the listener is to be bound.
    pub addr: String,
}

impl Plugin for HealthPlugin {
    open spec fn called() -> Seq<char> {
        "health"@
    }

    open spec fn rank() -> u8 {
        10
    }

    open spec fn reads_errors() -> bool {
        false
    }

    open spec fn configured(self, config: Directive, shared: Setting) -> bool {
        self.addr@ == listen_on(config.args, ":8080"@)
    }

    open spec fn accepts(self, msg: DnsMessage) -> bool {
        true
    }

    open spec fn processed(self, after: Self, pass: Pass, progress: Progress) -> bool {
        &&& after == self
        &&& progress is Passed
        &&& pass.untouched()
    }

    open spec fn accepts_back(self, msg: DnsMessage) -> bool {
        true
    }

    open spec fn post_processed(self, pass: Pass) -> bool {
        pass.untouched()
    }

    fn name(&self) -> (r: &'static str) {
        "health"
    }

    fn priority(&self) -> (r: u8) {
        10
    }

    fn from_config(config: &PluginConfig, _shared: &mut SharedState) -> (r: Result<
        Self,
        PluginError,
    >) {
        Ok(HealthPlugin { addr: listen_address(&config.args, ":8080") })
    }

    fn process(
        &mut self,
        _msg: &mut DnsMessage,
        _store: &mut CacheStore,
        _now: u128,
        _metrics: &mut Vec<Metric>,
    ) -> (progress: Progress) {
        Progress::Passed
    }

    fn post_process(
        &self,
        _msg: &mut DnsMessage,
        _store: &mut CacheStore,
        _now: u128,
        _metrics: &mut Vec<Metric>,
    ) {
    }
}

} // verus!
