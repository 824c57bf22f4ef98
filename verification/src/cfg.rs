//! Configuration consumed by the engine.
//!
//! The values here arrive already merged and validated by an external
//! loader; the engine treats them as read-only for its whole lifetime.

use vstd::prelude::*;
use vstd::string::*;

verus! {

/// Default priority of a detection strategy that does not set one.
pub const DEFAULT_PRIORITY: u32 = 100;

/// Default number of provider updates allowed to run at once.
pub const DEFAULT_CONCURRENCY: usize = 4;

/// Configuration of one DNS provider: vendor kind, record identity and
/// vendor-specific credentials.
#[derive(Debug)]
pub struct ProviderCfg {
    pub kind: String,
    pub zone: String,
    pub record: String,
    pub alias: Option<String>,
    pub record_type: String,
    pub ttl: u32,
    pub token: String,
    pub access_key: Option<String>,
    pub access_secret: Option<String>,
    pub region: Option<String>,
}

/// A configured way of discovering the current public IP address.
#[derive(Debug)]
pub enum DetectCfg {
    /// Fetch a URL and treat the trimmed response body as the address.
    Http { url: String, timeout: Option<u64>, priority: Option<u32> },
    /// Read the first IPv4 address bound to a named network interface.
    Interface { iface: String, priority: Option<u32> },
    /// Run a shell command and treat its trimmed standard output as the address.
    Command { cmd: String, timeout: Option<u64>, priority: Option<u32> },
}

/// Scheduling: an optional cron expression (absent means run exactly
/// once) and an optional concurrency limit for provider updates.
#[derive(Debug)]
pub struct SchedulerCfg {
    pub cron: Option<String>,
    pub concurrency: Option<usize>,
}

/// Dashboard login credentials.
#[derive(Debug)]
pub struct AuthCfg {
    pub username: String,
    pub password: String,
}

/// Dashboard/HTTP settings.
#[derive(Debug)]
pub struct HttpCfg {
    pub listen: String,
    pub intranet_only: bool,
    pub jwt_secret: String,
    pub token_ttl_sec: u64,
    pub auth: Option<AuthCfg>,
}

/// The whole merged configuration.
#[derive(Debug)]
pub struct AppConfig {
    pub http: HttpCfg,
    pub scheduler: SchedulerCfg,
    pub detect: Vec<DetectCfg>,
    pub provider: Vec<ProviderCfg>,
}

pub fn default_listen() -> (s: String)
    ensures
        s@ == "0.0.0.0:8080"@,
{
    String::from_str("0.0.0.0:8080")
}

pub fn default_true() -> (b: bool)
    ensures
        b,
{
    true
}

pub fn default_secret() -> (s: String)
    ensures
        s@ == "dev_only_change_me"@,
{
    String::from_str("dev_only_change_me")
}

pub fn default_ttl() -> (t: u64)
    ensures
        t == 86400,
{
    24 * 60 * 60
}

impl Default for HttpCfg {
    /// The settings used when the configuration has no `http` section.
    fn default() -> (c: Self)
        ensures
            c.listen@ == "0.0.0.0:8080"@,
            c.intranet_only,
            c.jwt_secret@ == "dev_only_change_me"@,
            c.token_ttl_sec == 86400,
            c.auth is None,
    {
        HttpCfg {
            listen: default_listen(),
            intranet_only: default_true(),
            jwt_secret: default_secret(),
            token_ttl_sec: default_ttl(),
            auth: None,
        }
    }
}

/// The key under which a provider's health is tracked: its alias when
/// one is configured, else its vendor kind.
pub open spec fn spec_display_key(p: ProviderCfg) -> Seq<char> {
    match p.alias {
        Some(a) => a@,
        None => p.kind@,
    }
}

/// The key under which a provider's health is tracked.
pub fn display_key(p: &ProviderCfg) -> (k: String)
    ensures
        k@ == spec_display_key(*p),
{
    match &p.alias {
        Some(a) => a.clone(),
        None => p.kind.clone(),
    }
}

/// The concurrency limit actually applied: the configured value when it
/// is a positive integer, else the default.
pub open spec fn spec_effective_concurrency(c: Option<usize>) -> usize {
    match c {
        Some(n) => if n == 0 {
            DEFAULT_CONCURRENCY
        } else {
            n
        },
        None => DEFAULT_CONCURRENCY,
    }
}

impl SchedulerCfg {
    /// The concurrency limit actually applied, always positive.
    pub fn effective_concurrency(&self) -> (n: usize)
        ensures
            n == spec_effective_concurrency(self.concurrency),
            n >= 1,
    {
        match self.concurrency {
            Some(n) => if n == 0 {
                DEFAULT_CONCURRENCY
            } else {
                n
            },
            None => DEFAULT_CONCURRENCY,
        }
    }
}

/// The priority under which a strategy is tried: its configured value,
/// else the default.  Lower values are tried first.
pub open spec fn spec_priority(d: DetectCfg) -> u32 {
    match d {
        DetectCfg::Http { priority, .. } => spec_priority_or_default(priority),
        DetectCfg::Interface { priority, .. } => spec_priority_or_default(priority),
        DetectCfg::Command { priority, .. } => spec_priority_or_default(priority),
    }
}

pub open spec fn spec_priority_or_default(p: Option<u32>) -> u32 {
    match p {
        Some(v) => v,
        None => DEFAULT_PRIORITY,
    }
}

impl DetectCfg {
    /// The priority under which this strategy is tried.
    pub fn priority(&self) -> (p: u32)
        ensures
            p == spec_priority(*self),
    {
        match self {
            DetectCfg::Http { priority, .. } => priority_or_default(priority),
            DetectCfg::Interface { priority, .. } => priority_or_default(priority),
            DetectCfg::Command { priority, .. } => priority_or_default(priority),
        }
    }
}

fn priority_or_default(p: &Option<u32>) -> (r: u32)
    ensures
        r == spec_priority_or_default(*p),
{
    match p {
        Some(v) => *v,
        None => DEFAULT_PRIORITY,
    }
}

} // verus!
