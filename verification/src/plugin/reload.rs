//! The reload plugin: the configuration file is watched for changes.

use crate::config::{Directive, PluginConfig};
use crate::duration;
use crate::duration::MAX_MILLIS;
use crate::metrics;
use crate::metrics::{record, Amount, Family, Metric, Sample};
use crate::outside;
use crate::outside::{hex_encode, random_up_to, sha512_digest};
use crate::plugin::cache::CacheStore;
use crate::plugin::{Pass, Plugin, PluginError, Progress, Setting, SharedState};
use crate::text;
use crate::text::same_text;
use crate::types::DnsMessage;
use vstd::prelude::*;

verus! {

/// Reads a length of time with one of the units `ms`, `s`, `m` and `h`.
pub fn parse_duration(s: &str) -> (r: Option<u128>)
    ensures
        match duration::duration_of(s@, true) {
            Some(k) => r == Some(k as u128) && 0 <= k <= MAX_MILLIS,
            None => r is None,
        },
{
    duration::parse_duration(s, true)
}

/// The length of time that an argument stands for, or `usual` where there is no
/// such argument or it cannot be read. What the argument says is raised to
/// `least`.
pub open spec fn time_at(args: Seq<Seq<char>>, i: int, usual: u128, least: u128) -> u128 {
    if i < args.len() {
        let said = match duration::duration_of(args[i], true) {
            Some(ms) => ms as u128,
            None => usual,
        };
        if said < least {
            least
        } else {
            said
        }
    } else {
        usual
    }
}

/// The time between two looks at the file: 30 seconds, or the first argument
/// and at least two seconds.
pub open spec fn interval_of(args: Seq<Seq<char>>) -> u128 {
    time_at(args, 0, 30_000, 2_000)
}

/// By how much that time may vary: 15 seconds, or the second argument and at
/// least one second, but never more than half the time.
pub open spec fn jitter_of(args: Seq<Seq<char>>) -> u128 {
    let wanted = time_at(args, 1, 15_000, 1_000);
    let half = interval_of(args) / 2;
    if wanted > half {
        half
    } else {
        wanted
    }
}

/// Reads the length of time that an argument stands for.
fn read_time(args: &Vec<String>, i: usize, usual: u128, least: u128) -> (r: u128)
    requires
        usual <= MAX_MILLIS,
        least <= MAX_MILLIS,
    ensures
        r == time_at(text::texts(args@), i as int, usual, least),
        r <= MAX_MILLIS,
{
    if i < args.len() {
        assert(text::texts(args@)[i as int] == args@[i as int]@);
        let said: u128 = match parse_duration(args[i].as_str()) {
            Some(ms) => ms,
            None => usual,
        };
        if said < least {
            least
        } else {
            said
        }
    } else {
        usual
    }
}

/// The fingerprint of a file: the SHA-512 digest of its content in hexadecimal
/// digits.
pub open spec fn fingerprint(content: Seq<u8>) -> Seq<char> {
    outside::hex(outside::sha512(content))
}

/// The fingerprint of a file with the given content.
pub fn hash_content(content: &[u8]) -> (r: String)
    ensures
        r@ == fingerprint(content@),
        r@.len() == 128,
{
    let digest = sha512_digest(content);
    hex_encode(digest.as_slice())
}

/// The measurement that tells whether a version of the file is in use.
pub open spec fn version_sample(hash: Seq<char>, level: u64) -> Sample {
    metrics::sample(Family::ReloadVersionInfo, seq!["sha512"@, hash], Amount::Level(level))
}

/// Records whether a version of the file is in use.
fn record_version(hash: &str, level: u64, metrics: &mut Vec<Metric>)
    ensures
        metrics::samples(final(metrics)@) == metrics::samples(old(metrics)@).push(
            version_sample(hash@, level),
        ),
{
    record(metrics, Family::ReloadVersionInfo, &["sha512", hash], Amount::Level(level));
    assert(metrics::samples(metrics@).last().labels =~= seq!["sha512"@, hash@]);
}

/// What to do after a look at the file.
#[derive(Debug, Clone, Copy, PartialEq, Eq, Structural)]
pub enum WatchStep {
    /// Look again later.
    Watch,
    /// Load the configuration anew, and stop watching.
    Reload,
}

/// The content of a file, where it could be read.
pub open spec fn content_of(content: Option<&Vec<u8>>) -> Option<Seq<u8>> {
    match content {
        Some(bytes) => Some(bytes@),
        None => None,
    }
}

/// The fingerprint with which a watch starts; it is empty where the file could
/// not be read.
pub open spec fn first_hash(content: Option<Seq<u8>>) -> Seq<char> {
    match content {
        Some(bytes) => fingerprint(bytes),
        None => Seq::empty(),
    }
}

/// What a look at the file leads to, while a version with the fingerprint
/// `hash` is in use.
pub open spec fn looked(
    hash: Seq<char>,
    content: Option<Seq<u8>>,
    step: WatchStep,
    samples: Seq<Sample>,
    samples_after: Seq<Sample>,
) -> bool {
    match content {
        Some(bytes) => if fingerprint(bytes) == hash {
            step == WatchStep::Watch && samples_after == samples
        } else {
            &&& step == WatchStep::Reload
            &&& samples_after == samples.push(version_sample(hash, 0)).push(
                version_sample(fingerprint(bytes), 1),
            )
        },
        None => {
            &&& step == WatchStep::Watch
            &&& samples_after == samples.push(
                metrics::sample(Family::ReloadFailed, Seq::empty(), Amount::Inc),
            )
        },
    }
}

/// The pause before the next look, for a number drawn from zero to twice the
/// variation.
pub open spec fn pause(interval: u128, jitter: u128, drawn: int) -> int {
    interval + drawn - jitter
}

/// A watch over the file, with the fingerprint of the version in use.
#[derive(Debug)]
pub struct FileWatch {
    pub hash: String,
}

impl FileWatch {
    /// Starts with the content of the file, or with nothing where it could not
    /// be read; the fingerprint is then empty.
    pub fn start(content: Option<&Vec<u8>>, metrics: &mut Vec<Metric>) -> (r: FileWatch)
        ensures
            r.hash@ == match content {
                Some(bytes) => fingerprint(bytes@),
                None => ""@,
            },
            r.hash@ == first_hash(content_of(content)),
            metrics::samples(final(metrics)@) == metrics::samples(old(metrics)@).push(
                version_sample(r.hash@, 1),
            ),
    {
        let hash = match content {
            Some(bytes) => hash_content(bytes.as_slice()),
            None => {
                proof {
                    reveal_strlit("");
                    assert(""@ =~= Seq::empty());
                }
                "".to_owned()
            },
        };
        record_version(hash.as_str(), 1, metrics);
        FileWatch { hash }
    }

    /// Takes the fingerprint of the file as it is now.
    pub fn on_hash(&self, hash: &str, metrics: &mut Vec<Metric>) -> (r: WatchStep)
        ensures
            if hash@ == self.hash@ {
                r == WatchStep::Watch && final(metrics)@ == old(metrics)@
            } else {
                &&& r == WatchStep::Reload
                &&& metrics::samples(final(metrics)@) == metrics::samples(old(metrics)@).push(
                    version_sample(self.hash@, 0),
                ).push(version_sample(hash@, 1))
            },
    {
        if same_text(hash, self.hash.as_str()) {
            WatchStep::Watch
        } else {
            record_version(self.hash.as_str(), 0, metrics);
            record_version(hash, 1, metrics);
            WatchStep::Reload
        }
    }

    /// Takes the content of the file as it is now; where it could not be read
    /// the failure is counted and the watch goes on.
    pub fn on_look(&self, content: Option<&Vec<u8>>, metrics: &mut Vec<Metric>) -> (r: WatchStep)
        ensures
            looked(
                self.hash@,
                content_of(content),
                r,
                metrics::samples(old(metrics)@),
                metrics::samples(final(metrics)@),
            ),
            match content {
                Some(bytes) => if fingerprint(bytes@) == self.hash@ {
                    r == WatchStep::Watch && final(metrics)@ == old(metrics)@
                } else {
                    &&& r == WatchStep::Reload
                    &&& metrics::samples(final(metrics)@) == metrics::samples(old(metrics)@).push(
                        version_sample(self.hash@, 0),
                    ).push(version_sample(fingerprint(bytes@), 1))
                },
                None => {
                    &&& r == WatchStep::Watch
                    &&& metrics::samples(final(metrics)@) == metrics::samples(old(metrics)@).push(
                        metrics::sample(Family::ReloadFailed, Seq::empty(), Amount::Inc),
                    )
                },
            },
    {
        match content {
            Some(bytes) => {
                let hash = hash_content(bytes.as_slice());
                self.on_hash(hash.as_str(), metrics)
            },
            None => {
                record(metrics, Family::ReloadFailed, &[], Amount::Inc);
                assert(metrics::samples(metrics@).last().labels =~= Seq::empty());
                WatchStep::Watch
            },
        }
    }
}

/// The reload plugin; times are in milliseconds.
#[derive(Debug)]
pub struct ReloadPlugin {
    pub interval: u128,
    pub jitter: u128,
    /// The path of the file.
    pub path: String,
}

impl ReloadPlugin {
    /// Whether the times can be reckoned with: the variation is at most half
    /// the time between two looks, and the longest pause is a length of time
    /// that there is.
    pub open spec fn times_fit(self) -> bool {
        &&& self.jitter <= self.interval / 2
        &&& self.jitter < 0x4000_0000_0000_0000
        &&& self.interval + self.jitter <= MAX_MILLIS
    }

    /// Whether the times can be reckoned with.
    pub fn has_fitting_times(&self) -> (r: bool)
        ensures
            r == self.times_fit(),
    {
        self.jitter <= self.interval / 2 && self.jitter < 0x4000_0000_0000_0000 && self.interval
            <= MAX_MILLIS && self.jitter <= MAX_MILLIS - self.interval
    }

    /// The pause before the next look, for a number drawn from zero to twice
    /// the variation.
    pub fn pause_for(&self, drawn: u64) -> (r: u128)
        requires
            self.times_fit(),
            drawn <= 2 * self.jitter,
        ensures
            r == self.interval + drawn - self.jitter,
            r == pause(self.interval, self.jitter, drawn as int),
    {
        if drawn as u128 > self.jitter {
            self.interval + (drawn as u128 - self.jitter)
        } else {
            self.interval - (self.jitter - drawn as u128)
        }
    }

    /// The pause before the next look, drawn at random.
    pub fn next_pause(&self) -> (r: u128)
        requires
            self.times_fit(),
        ensures
            self.interval - self.jitter <= r <= self.interval + self.jitter,
            exists|drawn: int|
                0 <= drawn <= 2 * self.jitter && r == #[trigger] pause(
                    self.interval,
                    self.jitter,
                    drawn,
                ),
    {
        let drawn: u64 = random_up_to(self.jitter as u64 * 2);
        self.pause_for(drawn)
    }
}

impl Plugin for ReloadPlugin {
    open spec fn called() -> Seq<char> {
        "reload"@
    }

    open spec fn rank() -> u8 {
        190
    }

    open spec fn reads_errors() -> bool {
        false
    }

    open spec fn configured(self, config: Directive, shared: Setting) -> bool {
        &&& self.interval == interval_of(config.args)
        &&& self.jitter == jitter_of(config.args)
        &&& self.path@ == shared.config_path
    }

    open spec fn accepts(self, msg: DnsMessage) -> bool {
        true
    }

    open spec fn processed(self, after: Self, pass: Pass, progress: Progress) -> bool {
        &&& after == self
        &&& progress is Passed
        &&& pass.untouched()
    }

    open spec fn accepts_back(self, msg: DnsMessage) -> bool {
        true
    }

    open spec fn post_processed(self, pass: Pass) -> bool {
        pass.untouched()
    }

    fn name(&self) -> (r: &'static str) {
        "reload"
    }

    fn priority(&self) -> (r: u8) {
        190
    }

    fn from_config(config: &PluginConfig, shared: &mut SharedState) -> (r: Result<
        Self,
        PluginError,
    >) {
        let interval: u128 = read_time(&config.args, 0, 30_000, 2_000);
        let wanted: u128 = read_time(&config.args, 1, 15_000, 1_000);
        let half: u128 = interval / 2;
        let jitter: u128 = if wanted > half {
            half
        } else {
            wanted
        };
        Ok(ReloadPlugin { interval, jitter, path: shared.config_path.clone() })
    }

    fn process(
        &mut self,
        _msg: &mut DnsMessage,
        _store: &mut CacheStore,
        _now: u128,
        _metrics: &mut Vec<Metric>,
    ) -> (progress: Progress) {
        Progress::Passed
    }

    fn post_process(
        &self,
        _msg: &mut DnsMessage,
        _store: &mut CacheStore,
        _now: u128,
        _metrics: &mut Vec<Metric>,
    ) {
    }
}

/// However it is configured, the plugin never looks at the file more than
/// twice as often as its interval says, and leaves at least one second
/// between two looks.
pub proof fn law_pause_is_bounded(args: Seq<Seq<char>>, pause: int)
    requires
        interval_of(args) - jitter_of(args) <= pause <= interval_of(args) + jitter_of(args),
    ensures
        interval_of(args) >= 2_000,
        pause >= 1_000,
        2 * pause >= interval_of(args),
        2 * pause <= 3 * interval_of(args),
{
}

} // verus!
