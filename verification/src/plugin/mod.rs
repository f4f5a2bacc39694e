//! The plugins and what they have in common.

pub mod cache;
pub mod errors;
pub mod forward;
pub mod health;
pub mod log;
pub mod prometheus;
pub mod reload;
pub mod stubs;
pub mod whoami;

use crate::config::{Directive, PluginConfig};
use crate::metrics::{Metric, Sample};
use crate::metrics;
use crate::plugin::cache::{extract_question_bytes, CachePlugin, CacheStore, Held};
use crate::plugin::errors::ErrorsPlugin;
use crate::plugin::forward::ForwardPlugin;
use crate::plugin::health::HealthPlugin;
use crate::plugin::log::LogPlugin;
use crate::plugin::prometheus::PrometheusPlugin;
use crate::plugin::reload::ReloadPlugin;
use crate::plugin::stubs::DummyPlugin;
use crate::plugin::whoami::WhoamiPlugin;
use crate::text;
use crate::text::{concat, same_text};
use crate::types::DnsMessage;
use vstd::prelude::*;

verus! {

/// Why a plugin could not be made.
#[derive(Debug)]
pub enum PluginError {
    /// No plugin of that name is known.
    Unknown(String),
}

impl PluginError {
    /// The error in words.
    pub fn message(&self) -> (r: String)
        ensures
            r@ == match self {
                PluginError::Unknown(name) => "Unknown plugin: "@ + name@,
            },
    {
        match self {
            PluginError::Unknown(name) => concat("Unknown plugin: ", name.as_str()),
        }
    }
}

/// A zone while its plugins are made: its name and the names of the plugins in
/// its block.
#[derive(Debug)]
pub struct ZoneScope {
    pub name: String,
    pub plugins: Vec<String>,
}

/// What is known of a zone while its plugins are made.
pub struct Scope {
    pub name: Seq<char>,
    pub plugins: Seq<Seq<char>>,
}

impl View for ZoneScope {
    type V = Scope;

    open spec fn view(&self) -> Scope {
        Scope { name: self.name@, plugins: text::texts(self.plugins@) }
    }
}

/// What the plugins of one configuration share.
pub struct SharedState {
    /// The answers kept so far; they outlive a reload.
    pub cache_preserve: CacheStore,
    /// Whether nobody reads the error reports yet.
    pub error_rx: bool,
    /// The path of the configuration file.
    pub config_path: String,
    /// The zone for which plugins are made, if any.
    pub zone: Option<ZoneScope>,
}

/// What a plugin finds when it is made.
pub struct Setting {
    pub error_rx: bool,
    pub config_path: Seq<char>,
    pub zone: Option<Scope>,
}

impl View for SharedState {
    type V = Setting;

    open spec fn view(&self) -> Setting {
        Setting {
            error_rx: self.error_rx,
            config_path: self.config_path@,
            zone: match self.zone {
                Some(z) => Some(z@),
                None => None,
            },
        }
    }
}

impl SharedState {
    /// The shared state of a fresh configuration, with the answers of the
    /// previous one.
    pub fn new_with_cache(cache_preserve: CacheStore, config_path: String) -> (r: SharedState)
        ensures
            r.cache_preserve == cache_preserve,
            r.config_path == config_path,
            r.error_rx,
            r.zone is None,
    {
        SharedState { cache_preserve, error_rx: true, config_path, zone: None }
    }
}

/// How far a plugin came with a message on its own.
#[derive(Debug)]
pub enum Progress {
    /// It is done with the message.
    Passed,
    /// It needs one of a limited number of permits to go on.
    AwaitPermit,
    /// It wants the upstream servers with these numbers to be asked in turn.
    Ask(Vec<usize>),
}

/// One passage of a message through a plugin: the message, the kept answers
/// and the measurements asked for, before and after.
pub struct Pass {
    pub now: u128,
    pub msg: DnsMessage,
    pub msg_after: DnsMessage,
    pub kept: Held,
    pub kept_after: Held,
    pub samples: Seq<Sample>,
    pub samples_after: Seq<Sample>,
}

impl Pass {
    /// Whether nothing but the message may have changed.
    pub open spec fn only_message(self) -> bool {
        &&& self.kept_after == self.kept
        &&& self.samples_after == self.samples
    }

    /// Whether nothing changed.
    pub open spec fn untouched(self) -> bool {
        &&& self.only_message()
        &&& self.msg_after == self.msg
    }
}

/// The latest moment that is accepted as the present.
pub const MAX_NOW: u128 = 0x4000_0000_0000_0000_0000_0000_0000_0000;

/// A link of the plugin chain.
pub trait Plugin: Sized {
    /// The name under which the plugin is configured.
    spec fn called() -> Seq<char>;

    /// The place in the chain: higher ranks come first.
    spec fn rank() -> u8;

    /// Whether the plugin takes over the reading of error reports.
    spec fn reads_errors() -> bool;

    /// Whether this is the plugin that a directive describes.
    spec fn configured(self, config: Directive, shared: Setting) -> bool;

    /// The messages that the plugin can take.
    spec fn accepts(self, msg: DnsMessage) -> bool;

    /// What the plugin does to a message on its way in.
    spec fn processed(self, after: Self, pass: Pass, progress: Progress) -> bool;

    /// The messages that the plugin can take on their way out.
    spec fn accepts_back(self, msg: DnsMessage) -> bool;

    /// What the plugin does to a message on its way out.
    spec fn post_processed(self, pass: Pass) -> bool;

    fn name(&self) -> (r: &'static str)
        ensures
            r@ == Self::called(),
    ;

    fn priority(&self) -> (r: u8)
        ensures
            r == Self::rank(),
    ;

    /// Makes the plugin from its directive; this never fails.
    fn from_config(config: &PluginConfig, shared: &mut SharedState) -> (r: Result<
        Self,
        PluginError,
    >)
        ensures
            r is Ok,
            r->Ok_0.configured(config@, old(shared)@),
            final(shared).cache_preserve == old(shared).cache_preserve,
            final(shared).config_path == old(shared).config_path,
            final(shared).zone == old(shared).zone,
            final(shared).error_rx == (old(shared).error_rx && !Self::reads_errors()),
    ;

    /// Takes a message on its way in.
    fn process(
        &mut self,
        msg: &mut DnsMessage,
        store: &mut CacheStore,
        now: u128,
        metrics: &mut Vec<Metric>,
    ) -> (progress: Progress)
        requires
            old(self).accepts(*old(msg)),
            old(store)@.sound(),
            now <= MAX_NOW,
        ensures
            final(store)@.sound(),
            old(self).processed(
                *final(self),
                (Pass {
                    now,
                    msg: *old(msg),
                    msg_after: *final(msg),
                    kept: old(store)@,
                    kept_after: final(store)@,
                    samples: metrics::samples(old(metrics)@),
                    samples_after: metrics::samples(final(metrics)@),
                }),
                progress,
            ),
    ;

    /// Takes a message on its way out.
    fn post_process(
        &self,
        msg: &mut DnsMessage,
        store: &mut CacheStore,
        now: u128,
        metrics: &mut Vec<Metric>,
    )
        requires
            self.accepts_back(*old(msg)),
            old(store)@.sound(),
            now <= MAX_NOW,
        ensures
            final(store)@.sound(),
            self.post_processed(
                (Pass {
                    now,
                    msg: *old(msg),
                    msg_after: *final(msg),
                    kept: old(store)@,
                    kept_after: final(store)@,
                    samples: metrics::samples(old(metrics)@),
                    samples_after: metrics::samples(final(metrics)@),
                }),
            ),
    ;
}

/// A plugin of one of the known kinds.
pub enum PluginInstance {
    Cache(CachePlugin),
    Forward(ForwardPlugin),
    Prometheus(PrometheusPlugin),
    Log(LogPlugin),
    Errors(ErrorsPlugin),
    Reload(ReloadPlugin),
    Health(HealthPlugin),
    Whoami(WhoamiPlugin),
    Dummy(DummyPlugin),
}

/// Whether a plugin of that name is known.
pub open spec fn known(name: Seq<char>) -> bool {
    ||| name == CachePlugin::called()
    ||| name == ForwardPlugin::called()
    ||| name == PrometheusPlugin::called()
    ||| name == LogPlugin::called()
    ||| name == ErrorsPlugin::called()
    ||| name == ReloadPlugin::called()
    ||| name == HealthPlugin::called()
    ||| name == WhoamiPlugin::called()
    ||| name == DummyPlugin::called()
}

/// The place in the chain of the plugin of that name.
pub open spec fn rank_called(name: Seq<char>) -> u8 {
    if name == CachePlugin::called() {
        CachePlugin::rank()
    } else if name == ForwardPlugin::called() {
        ForwardPlugin::rank()
    } else if name == PrometheusPlugin::called() {
        PrometheusPlugin::rank()
    } else if name == LogPlugin::called() {
        LogPlugin::rank()
    } else if name == ErrorsPlugin::called() {
        ErrorsPlugin::rank()
    } else if name == ReloadPlugin::called() {
        ReloadPlugin::rank()
    } else if name == HealthPlugin::called() {
        HealthPlugin::rank()
    } else if name == WhoamiPlugin::called() {
        WhoamiPlugin::rank()
    } else {
        DummyPlugin::rank()
    }
}

impl PluginInstance {
    /// The name under which the plugin is configured.
    pub open spec fn called(self) -> Seq<char> {
        match self {
            PluginInstance::Cache(_) => CachePlugin::called(),
            PluginInstance::Forward(_) => ForwardPlugin::called(),
            PluginInstance::Prometheus(_) => PrometheusPlugin::called(),
            PluginInstance::Log(_) => LogPlugin::called(),
            PluginInstance::Errors(_) => ErrorsPlugin::called(),
            PluginInstance::Reload(_) => ReloadPlugin::called(),
            PluginInstance::Health(_) => HealthPlugin::called(),
            PluginInstance::Whoami(_) => WhoamiPlugin::called(),
            PluginInstance::Dummy(_) => DummyPlugin::called(),
        }
    }

    /// The place in the chain: higher ranks come first.
    pub open spec fn rank(self) -> u8 {
        match self {
            PluginInstance::Cache(_) => CachePlugin::rank(),
            PluginInstance::Forward(_) => ForwardPlugin::rank(),
            PluginInstance::Prometheus(_) => PrometheusPlugin::rank(),
            PluginInstance::Log(_) => LogPlugin::rank(),
            PluginInstance::Errors(_) => ErrorsPlugin::rank(),
            PluginInstance::Reload(_) => ReloadPlugin::rank(),
            PluginInstance::Health(_) => HealthPlugin::rank(),
            PluginInstance::Whoami(_) => WhoamiPlugin::rank(),
            PluginInstance::Dummy(_) => DummyPlugin::rank(),
        }
    }

    /// Whether this is the plugin that a directive describes.
    pub open spec fn configured(self, config: Directive, shared: Setting) -> bool {
        &&& self.called() == config.name
        &&& match self {
            PluginInstance::Cache(p) => p.configured(config, shared),
            PluginInstance::Forward(p) => p.configured(config, shared),
            PluginInstance::Prometheus(p) => p.configured(config, shared),
            PluginInstance::Log(p) => p.configured(config, shared),
            PluginInstance::Errors(p) => p.configured(config, shared),
            PluginInstance::Reload(p) => p.configured(config, shared),
            PluginInstance::Health(p) => p.configured(config, shared),
            PluginInstance::Whoami(p) => p.configured(config, shared),
            PluginInstance::Dummy(p) => p.configured(config, shared),
        }
    }

    /// The messages that the plugin can take.
    pub open spec fn accepts(self, msg: DnsMessage) -> bool {
        match self {
            PluginInstance::Cache(p) => p.accepts(msg),
            PluginInstance::Forward(p) => p.accepts(msg),
            PluginInstance::Prometheus(p) => p.accepts(msg),
            PluginInstance::Log(p) => p.accepts(msg),
            PluginInstance::Errors(p) => p.accepts(msg),
            PluginInstance::Reload(p) => p.accepts(msg),
            PluginInstance::Health(p) => p.accepts(msg),
            PluginInstance::Whoami(p) => p.accepts(msg),
            PluginInstance::Dummy(p) => p.accepts(msg),
        }
    }

    /// What the plugin does to a message on its way in.
    pub open spec fn processed(self, after: Self, pass: Pass, progress: Progress) -> bool {
        match (self, after) {
            (PluginInstance::Cache(p), PluginInstance::Cache(q)) => p.processed(q, pass, progress),
            (PluginInstance::Forward(p), PluginInstance::Forward(q)) => p.processed(q, pass, progress),
            (PluginInstance::Prometheus(p), PluginInstance::Prometheus(q)) => p.processed(q, pass, progress),
            (PluginInstance::Log(p), PluginInstance::Log(q)) => p.processed(q, pass, progress),
            (PluginInstance::Errors(p), PluginInstance::Errors(q)) => p.processed(q, pass, progress),
            (PluginInstance::Reload(p), PluginInstance::Reload(q)) => p.processed(q, pass, progress),
            (PluginInstance::Health(p), PluginInstance::Health(q)) => p.processed(q, pass, progress),
            (PluginInstance::Whoami(p), PluginInstance::Whoami(q)) => p.processed(q, pass, progress),
            (PluginInstance::Dummy(p), PluginInstance::Dummy(q)) => p.processed(q, pass, progress),
            _ => false,
        }
    }

    /// The messages that the plugin can take on their way out.
    pub open spec fn accepts_back(self, msg: DnsMessage) -> bool {
        match self {
            PluginInstance::Cache(p) => p.accepts_back(msg),
            PluginInstance::Forward(p) => p.accepts_back(msg),
            PluginInstance::Prometheus(p) => p.accepts_back(msg),
            PluginInstance::Log(p) => p.accepts_back(msg),
            PluginInstance::Errors(p) => p.accepts_back(msg),
            PluginInstance::Reload(p) => p.accepts_back(msg),
            PluginInstance::Health(p) => p.accepts_back(msg),
            PluginInstance::Whoami(p) => p.accepts_back(msg),
            PluginInstance::Dummy(p) => p.accepts_back(msg),
        }
    }

    /// What the plugin does to a message on its way out.
    pub open spec fn post_processed(self, pass: Pass) -> bool {
        match self {
            PluginInstance::Cache(p) => p.post_processed(pass),
            PluginInstance::Forward(p) => p.post_processed(pass),
            PluginInstance::Prometheus(p) => p.post_processed(pass),
            PluginInstance::Log(p) => p.post_processed(pass),
            PluginInstance::Errors(p) => p.post_processed(pass),
            PluginInstance::Reload(p) => p.post_processed(pass),
            PluginInstance::Health(p) => p.post_processed(pass),
            PluginInstance::Whoami(p) => p.post_processed(pass),
            PluginInstance::Dummy(p) => p.post_processed(pass),
        }
    }

    /// The name of the plugin.
    pub fn name(&self) -> (r: &'static str)
        ensures
            r@ == self.called(),
    {
        match self {
            PluginInstance::Cache(p) => p.name(),
            PluginInstance::Forward(p) => p.name(),
            PluginInstance::Prometheus(p) => p.name(),
            PluginInstance::Log(p) => p.name(),
            PluginInstance::Errors(p) => p.name(),
            PluginInstance::Reload(p) => p.name(),
            PluginInstance::Health(p) => p.name(),
            PluginInstance::Whoami(p) => p.name(),
            PluginInstance::Dummy(p) => p.name(),
        }
    }

    /// The place of the plugin in the chain.
    pub fn priority(&self) -> (r: u8)
        ensures
            r == self.rank(),
    {
        match self {
            PluginInstance::Cache(p) => p.priority(),
            PluginInstance::Forward(p) => p.priority(),
            PluginInstance::Prometheus(p) => p.priority(),
            PluginInstance::Log(p) => p.priority(),
            PluginInstance::Errors(p) => p.priority(),
            PluginInstance::Reload(p) => p.priority(),
            PluginInstance::Health(p) => p.priority(),
            PluginInstance::Whoami(p) => p.priority(),
            PluginInstance::Dummy(p) => p.priority(),
        }
    }

    /// Whether the plugin can take a message on its way in.
    pub fn can_take(&self, msg: &DnsMessage) -> (r: bool)
        ensures
            r == self.accepts(*msg),
    {
        match self {
            PluginInstance::Whoami(_) => whoami::can_introduce(msg),
            _ => true,
        }
    }

    /// Whether the plugin can take a message on its way out.
    pub fn can_take_back(&self, msg: &DnsMessage) -> (r: bool)
        ensures
            r == self.accepts_back(*msg),
    {
        match &msg.raw_response {
            Some(response) => match self {
                PluginInstance::Cache(_) => response.len() >= 4 || extract_question_bytes(
                    msg.raw_query.as_slice(),
                ).is_none(),
                PluginInstance::Prometheus(_) => response.len() >= 4,
                _ => true,
            },
            None => true,
        }
    }

    /// Takes a message on its way in.
    pub fn process(
        &mut self,
        msg: &mut DnsMessage,
        store: &mut CacheStore,
        now: u128,
        metrics: &mut Vec<Metric>,
    ) -> (progress: Progress)
        requires
            old(self).accepts(*old(msg)),
            old(store)@.sound(),
            now <= MAX_NOW,
        ensures
            final(store)@.sound(),
            old(self).processed(
                *final(self),
                (Pass {
                    now,
                    msg: *old(msg),
                    msg_after: *final(msg),
                    kept: old(store)@,
                    kept_after: final(store)@,
                    samples: metrics::samples(old(metrics)@),
                    samples_after: metrics::samples(final(metrics)@),
                }),
                progress,
            ),
    {
        match self {
            PluginInstance::Cache(p) => p.process(msg, store, now, metrics),
            PluginInstance::Forward(p) => p.process(msg, store, now, metrics),
            PluginInstance::Prometheus(p) => p.process(msg, store, now, metrics),
            PluginInstance::Log(p) => p.process(msg, store, now, metrics),
            PluginInstance::Errors(p) => p.process(msg, store, now, metrics),
            PluginInstance::Reload(p) => p.process(msg, store, now, metrics),
            PluginInstance::Health(p) => p.process(msg, store, now, metrics),
            PluginInstance::Whoami(p) => p.process(msg, store, now, metrics),
            PluginInstance::Dummy(p) => p.process(msg, store, now, metrics),
        }
    }

    /// Takes a message on its way out.
    pub fn post_process(
        &self,
        msg: &mut DnsMessage,
        store: &mut CacheStore,
        now: u128,
        metrics: &mut Vec<Metric>,
    )
        requires
            self.accepts_back(*old(msg)),
            old(store)@.sound(),
            now <= MAX_NOW,
        ensures
            final(store)@.sound(),
            self.post_processed(
                (Pass {
                    now,
                    msg: *old(msg),
                    msg_after: *final(msg),
                    kept: old(store)@,
                    kept_after: final(store)@,
                    samples: metrics::samples(old(metrics)@),
                    samples_after: metrics::samples(final(metrics)@),
                }),
            ),
    {
        match self {
            PluginInstance::Cache(p) => p.post_process(msg, store, now, metrics),
            PluginInstance::Forward(p) => p.post_process(msg, store, now, metrics),
            PluginInstance::Prometheus(p) => p.post_process(msg, store, now, metrics),
            PluginInstance::Log(p) => p.post_process(msg, store, now, metrics),
            PluginInstance::Errors(p) => p.post_process(msg, store, now, metrics),
            PluginInstance::Reload(p) => p.post_process(msg, store, now, metrics),
            PluginInstance::Health(p) => p.post_process(msg, store, now, metrics),
            PluginInstance::Whoami(p) => p.post_process(msg, store, now, metrics),
            PluginInstance::Dummy(p) => p.post_process(msg, store, now, metrics),
        }
    }
}

/// No two names of plugins begin with the same letter, so a name tells the
/// kinds apart.
proof fn lemma_first_letters()
    ensures
        CachePlugin::called()[0] == 'c',
        ForwardPlugin::called()[0] == 'f',
        PrometheusPlugin::called()[0] == 'p',
        LogPlugin::called()[0] == 'l',
        ErrorsPlugin::called()[0] == 'e',
        ReloadPlugin::called()[0] == 'r',
        HealthPlugin::called()[0] == 'h',
        WhoamiPlugin::called()[0] == 'w',
        DummyPlugin::called()[0] == 'd',
{
    reveal_strlit("cache");
    reveal_strlit("forward");
    reveal_strlit("prometheus");
    reveal_strlit("log");
    reveal_strlit("errors");
    reveal_strlit("reload");
    reveal_strlit("health");
    reveal_strlit("whoami");
    reveal_strlit("dummy");
}

/// Makes the plugin that a directive names.
pub fn create_plugin(config: &PluginConfig, shared: &mut SharedState) -> (r: Result<
    PluginInstance,
    PluginError,
>)
    ensures
        match r {
            Ok(p) => {
                &&& known(config@.name)
                &&& p.configured(config@, old(shared)@)
                &&& p.rank() == rank_called(config@.name)
            },
            Err(PluginError::Unknown(name)) => !known(config@.name) && name@ == config@.name,
        },
        final(shared).cache_preserve == old(shared).cache_preserve,
        final(shared).config_path == old(shared).config_path,
        final(shared).zone == old(shared).zone,
        final(shared).error_rx == (old(shared).error_rx && config@.name
            != ErrorsPlugin::called()),
{
    proof {
        lemma_first_letters();
    }
    let name = config.name.as_str();
    if same_text(name, "cache") {
        match CachePlugin::from_config(config, shared) {
            Ok(p) => Ok(PluginInstance::Cache(p)),
            Err(e) => Err(e),
        }
    } else if same_text(name, "forward") {
        match ForwardPlugin::from_config(config, shared) {
            Ok(p) => Ok(PluginInstance::Forward(p)),
            Err(e) => Err(e),
        }
    } else if same_text(name, "prometheus") {
        match PrometheusPlugin::from_config(config, shared) {
            Ok(p) => Ok(PluginInstance::Prometheus(p)),
            Err(e) => Err(e),
        }
    } else if same_text(name, "log") {
        match LogPlugin::from_config(config, shared) {
            Ok(p) => Ok(PluginInstance::Log(p)),
            Err(e) => Err(e),
        }
    } else if same_text(name, "errors") {
        match ErrorsPlugin::from_config(config, shared) {
            Ok(p) => Ok(PluginInstance::Errors(p)),
            Err(e) => Err(e),
        }
    } else if same_text(name, "reload") {
        match ReloadPlugin::from_config(config, shared) {
            Ok(p) => Ok(PluginInstance::Reload(p)),
            Err(e) => Err(e),
        }
    } else if same_text(name, "health") {
        match HealthPlugin::from_config(config, shared) {
            Ok(p) => Ok(PluginInstance::Health(p)),
            Err(e) => Err(e),
        }
    } else if same_text(name, "whoami") {
        match WhoamiPlugin::from_config(config, shared) {
            Ok(p) => Ok(PluginInstance::Whoami(p)),
            Err(e) => Err(e),
        }
    } else if same_text(name, "dummy") {
        match DummyPlugin::from_config(config, shared) {
            Ok(p) => Ok(PluginInstance::Dummy(p)),
            Err(e) => Err(e),
        }
    } else {
        Err(PluginError::Unknown(config.name.clone()))
    }
}

} // verus!
