//! Settings of the program: log level, pacing, and the backend instances.

use vstd::prelude::*;
use crate::text::text_option;
use crate::schedule::{effective_interval, DEFAULT_INTERVAL_SECS, MIN_INTERVAL_SECS};

verus! {

/// The address of a backend instance that nothing configures.
pub const DEFAULT_URL: &'static str = "http://localhost:8989";

/// The instance that command-line overrides apply to.
pub const PRIMARY_INSTANCE: u8 = 1;

/// A log level that can be asked for on the command line.
#[derive(Clone, Copy, Debug, PartialEq, Eq, Structural)]
pub enum Level {
    Trace,
    Debug,
    Info,
    Warn,
    Error,
}

/// The most verbose level that is logged; `Off` logs nothing.
#[derive(Clone, Copy, Debug, PartialEq, Eq, Structural)]
pub enum LogLevel {
    Off,
    Error,
    Warn,
    Info,
    Debug,
    Trace,
}

pub open spec fn level_filter(l: Level) -> LogLevel {
    match l {
        Level::Trace => LogLevel::Trace,
        Level::Debug => LogLevel::Debug,
        Level::Info => LogLevel::Info,
        Level::Warn => LogLevel::Warn,
        Level::Error => LogLevel::Error,
    }
}

impl Level {
    /// The filter that logs this level and everything more severe.
    pub fn to_filter(self) -> (r: LogLevel)
        ensures
            r == level_filter(self),
    {
        match self {
            Level::Trace => LogLevel::Trace,
            Level::Debug => LogLevel::Debug,
            Level::Info => LogLevel::Info,
            Level::Warn => LogLevel::Warn,
            Level::Error => LogLevel::Error,
        }
    }
}

/// How to reach one backend instance.
#[derive(Clone, Debug)]
pub struct InstanceSettings {
    /// Path prefix in front of the API's paths.
    pub base: Option<String>,
    /// API key; the instance cannot be used without one.
    pub key: Option<String>,
    pub url: String,
}

pub struct InstanceView {
    pub base: Option<Seq<char>>,
    pub key: Option<Seq<char>>,
    pub url: Seq<char>,
}

impl View for InstanceSettings {
    type V = InstanceView;

    open spec fn view(&self) -> InstanceView {
        InstanceView { base: text_option(self.base), key: text_option(self.key), url: self.url@ }
    }
}

pub open spec fn default_instance() -> InstanceView {
    InstanceView { base: None, key: None, url: DEFAULT_URL@ }
}

impl Default for InstanceSettings {
    fn default() -> (r: InstanceSettings)
        ensures
            r@ == default_instance(),
    {
        InstanceSettings { base: None, key: None, url: String::from_str(DEFAULT_URL) }
    }
}

/// Settings given on the command line; each one that is present wins.
#[derive(Clone, Debug)]
pub struct Overrides {
    pub api_key: Option<String>,
    pub log_level: Option<Level>,
    pub url: Option<String>,
    pub base_path: Option<String>,
    pub interval: Option<u64>,
    pub verbose: Option<bool>,
}

impl Overrides {
    /// No setting was given.
    pub fn is_empty(&self) -> (r: bool)
        ensures
            r <==> self.api_key is None && self.log_level is None && self.url is None
                && self.base_path is None && self.interval is None && self.verbose is None,
    {
        self.api_key.is_none() && self.log_level.is_none() && self.url.is_none()
            && self.base_path.is_none() && self.interval.is_none() && self.verbose.is_none()
    }
}

/// An instance with the overrides that concern it applied.
pub open spec fn overridden(inst: InstanceView, args: Overrides) -> InstanceView {
    InstanceView {
        base: match args.base_path {
            Some(b) => Some(b@),
            None => inst.base,
        },
        key: match args.api_key {
            Some(k) => Some(k@),
            None => inst.key,
        },
        url: match args.url {
            Some(u) => u@,
            None => inst.url,
        },
    }
}

/// All settings. Instances keep the order in which they were configured, and
/// each cycle visits them in that order.
pub struct Settings {
    pub log_level: LogLevel,
    /// Seconds between the starts of two ticks.
    pub interval: u64,
    pub instances: Vec<(u8, InstanceSettings)>,
    /// Log every HTTP exchange.
    pub verbose: bool,
}

pub open spec fn instances_view(s: Seq<(u8, InstanceSettings)>) -> Seq<(u8, InstanceView)> {
    s.map_values(|e: (u8, InstanceSettings)| (e.0, e.1@))
}

/// `p` is the first position of instance `idx` in `s`.
pub open spec fn first_position(s: Seq<(u8, InstanceView)>, idx: u8, p: int) -> bool {
    &&& 0 <= p < s.len()
    &&& s[p].0 == idx
    &&& forall|q: int| 0 <= q < p ==> s[q].0 != idx
}

impl Default for Settings {
    fn default() -> (r: Settings)
        ensures
            r.log_level == LogLevel::Info,
            r.interval == DEFAULT_INTERVAL_SECS,
            instances_view(r.instances@) == seq![(PRIMARY_INSTANCE, default_instance())],
            !r.verbose,
    {
        let mut instances = Vec::new();
        instances.push((PRIMARY_INSTANCE, InstanceSettings::default()));
        let r = Settings {
            log_level: LogLevel::Info,
            interval: DEFAULT_INTERVAL_SECS,
            instances,
            verbose: false,
        };
        assert(instances_view(r.instances@) =~= seq![(PRIMARY_INSTANCE, default_instance())]);
        r
    }
}

impl Settings {
    /// Applies command-line overrides. Those for an instance go to the primary
    /// one, which is added with default settings if it is missing; an interval
    /// is raised to the floor.
    pub fn merge(&mut self, args: Overrides)
        ensures
            final(self).log_level == (match args.log_level {
                Some(l) => level_filter(l),
                None => old(self).log_level,
            }),
            final(self).interval == (match args.interval {
                Some(i) => if i < MIN_INTERVAL_SECS {
                    MIN_INTERVAL_SECS
                } else {
                    i
                },
                None => old(self).interval,
            }),
            final(self).verbose == (match args.verbose {
                Some(v) => v,
                None => old(self).verbose,
            }),
            forall|p: int|
                first_position(instances_view(old(self).instances@), PRIMARY_INSTANCE, p)
                    ==> instances_view(final(self).instances@) == instances_view(
                    old(self).instances@,
                ).update(p, (PRIMARY_INSTANCE, overridden(old(self).instances@[p].1@, args))),
            (forall|p: int|
                0 <= p < old(self).instances@.len() ==> old(self).instances@[p].0 != PRIMARY_INSTANCE)
                ==> instances_view(final(self).instances@) == instances_view(
                old(self).instances@,
            ).push((PRIMARY_INSTANCE, overridden(default_instance(), args))),
    {
        let ghost before = instances_view(self.instances@);
        let mut i: usize = 0;
        while i < self.instances.len()
            invariant
                i <= self.instances@.len(),
                self.instances@ == old(self).instances@,
                before == instances_view(self.instances@),
                forall|q: int| 0 <= q < i ==> self.instances@[q].0 != PRIMARY_INSTANCE,
            ensures
                i <= self.instances@.len(),
                i < self.instances@.len() ==> self.instances@[i as int].0 == PRIMARY_INSTANCE,
                forall|q: int| 0 <= q < i ==> self.instances@[q].0 != PRIMARY_INSTANCE,
            decreases self.instances@.len() - i,
        {
            if self.instances[i].0 == PRIMARY_INSTANCE {
                break;
            }
            i += 1;
        }
        if i == self.instances.len() {
            self.instances.push((PRIMARY_INSTANCE, InstanceSettings::default()));
        }
        assert(forall|q: int| 0 <= q < i ==> before[q].0 != PRIMARY_INSTANCE);
        let ghost mid = self.instances@;
        let (idx, mut inst) = self.instances.remove(i);
        let ghost orig = inst@;
        if let Some(key) = args.api_key {
            inst.key = Some(key);
        }
        if let Some(url) = args.url {
            inst.url = url;
        }
        if let Some(base) = args.base_path {
            inst.base = Some(base);
        }
        assert(inst@ == overridden(orig, args));
        self.instances.insert(i, (idx, inst));
        assert(self.instances@ =~= mid.update(i as int, (idx, inst)));
        assert(instances_view(self.instances@) =~= instances_view(mid).update(
            i as int,
            (PRIMARY_INSTANCE, inst@),
        ));
        proof {
            assert forall|p: int| first_position(before, PRIMARY_INSTANCE, p) implies p == i by {
                if i < p {
                    assert(before[i as int].0 == PRIMARY_INSTANCE);
                }
            }
            if i < before.len() {
                assert(mid == old(self).instances@);
            } else {
                assert(instances_view(mid) =~= before.push((PRIMARY_INSTANCE, default_instance())));
            }
        }
        if let Some(level) = args.log_level {
            self.log_level = level.to_filter();
        }
        if let Some(interval) = args.interval {
            self.interval = effective_interval(interval);
        }
        if let Some(verbose) = args.verbose {
            self.verbose = verbose;
        }
    }

    /// The first configured instance that has no API key.
    pub fn instance_without_key(&self) -> (r: Option<u8>)
        ensures
            r is None <==> forall|p: int|
                0 <= p < self.instances@.len() ==> (#[trigger] self.instances@[p]).1.key is Some,
            r matches Some(idx) ==> exists|p: int|
                0 <= p < self.instances@.len() && self.instances@[p].0 == idx
                    && (#[trigger] self.instances@[p]).1.key is None && forall|q: int|
                    0 <= q < p ==> (#[trigger] self.instances@[q]).1.key is Some,
    {
        let mut i: usize = 0;
        while i < self.instances.len()
            invariant
                i <= self.instances@.len(),
                forall|q: int| 0 <= q < i ==> (#[trigger] self.instances@[q]).1.key is Some,
            decreases self.instances@.len() - i,
        {
            if self.instances[i].1.key.is_none() {
                return Some(self.instances[i].0);
            }
            i += 1;
        }
        None
    }
}

} // verus!
