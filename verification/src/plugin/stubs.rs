//! A plugin that does nothing.

use crate::config::{Directive, PluginConfig};
use crate::metrics::Metric;
use crate::plugin::cache::CacheStore;
use crate::plugin::{Pass, Plugin, PluginError, Progress, Setting, SharedState};
use crate::types::DnsMessage;
use vstd::prelude::*;

verus! {

/// A plugin that lets every message pass.
#[derive(Debug)]
pub struct DummyPlugin;

impl Plugin for DummyPlugin {
    open spec fn called() -> Seq<char> {
        "dummy"@
    }

    open spec fn rank() -> u8 {
        0
    }

    open spec fn reads_errors() -> bool {
        false
    }

    open spec fn configured(self, config: Directive, shared: Setting) -> bool {
        true
    }

    open spec fn accepts(self, msg: DnsMessage) -> bool {
        true
    }

    open spec fn processed(self, after: Self, pass: Pass, progress: Progress) -> bool {
        &&& after == self
        &&& progress is Passed
        &&& pass.untouched()
    }

    open spec fn accepts_back(self, msg: DnsMessage) -> bool {
        true
    }

    open spec fn post_processed(self, pass: Pass) -> bool {
        pass.untouched()
    }

    fn name(&self) -> (r: &'static str) {
        "dummy"
    }

    fn priority(&self) -> (r: u8) {
        0
    }

    fn from_config(_config: &PluginConfig, _shared: &mut SharedState) -> (r: Result<
        Self,
        PluginError,
    >) {
        Ok(DummyPlugin)
    }

    fn process(
        &mut self,
        _msg: &mut DnsMessage,
        _store: &mut CacheStore,
        _now: u128,
        _metrics: &mut Vec<Metric>,
    ) -> (progress: Progress) {
        Progress::Passed
    }

    fn post_process(
        &self,
        _msg: &mut DnsMessage,
        _store: &mut CacheStore,
        _now: u128,
        _metrics: &mut Vec<Metric>,
    ) {
    }
}

} // verus!
