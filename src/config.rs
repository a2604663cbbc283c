use vstd::prelude::*;

use crate::api::{SecurityConfig, ServerConfig};
use crate::auth::AuthConfig;
use crate::rate_limit::RateLimitConfig;

verus! {

/// The `server` section of the configuration file.
#[derive(Debug, Clone)]
pub struct ServerSection {
    pub host: String,
    pub port: u16,
    pub graceful_shutdown: bool,
}

impl Default for ServerSection {
    fn default() -> (r: ServerSection)
        ensures
            r.host@ == "127.0.0.1"@,
            r.port == 3000,
            r.graceful_shutdown,
    {
        ServerSection { host: String::from_str("127.0.0.1"), port: 3000, graceful_shutdown: true }
    }
}

/// The `security.auth` section.
#[derive(Debug, Clone)]
pub struct AuthSection {
    pub enabled: bool,
    pub api_keys: Vec<String>,
}

impl Default for AuthSection {
    fn default() -> (r: AuthSection)
        ensures
            !r.enabled,
            r.api_keys@.len() == 0,
    {
        AuthSection { enabled: false, api_keys: Vec::new() }
    }
}

/// The `security.rate_limit` section.
#[derive(Debug, Clone)]
pub struct RateLimitSection {
    pub enabled: bool,
    pub requests_per_window: u32,
    pub window_secs: u64,
}

impl Default for RateLimitSection {
    fn default() -> (r: RateLimitSection)
        ensures
            r.enabled,
            r.requests_per_window == 100,
            r.window_secs == 60,
    {
        RateLimitSection { enabled: true, requests_per_window: 100, window_secs: 60 }
    }
}

/// The `security` section.
#[derive(Debug, Clone)]
pub struct SecuritySection {
    pub auth: AuthSection,
    pub rate_limit: RateLimitSection,
}

impl Default for SecuritySection {
    fn default() -> (r: SecuritySection)
        ensures
            !r.auth.enabled,
            r.auth.api_keys@.len() == 0,
            r.rate_limit.enabled,
            r.rate_limit.requests_per_window == 100,
            r.rate_limit.window_secs == 60,
    {
        SecuritySection { auth: AuthSection::default(), rate_limit: RateLimitSection::default() }
    }
}

/// The `logging` section.
#[derive(Debug, Clone)]
pub struct LoggingSection {
    pub level: String,
}

impl Default for LoggingSection {
    fn default() -> (r: LoggingSection)
        ensures
            r.level@ == "info"@,
    {
        LoggingSection { level: String::from_str("info") }
    }
}

/// The whole configuration; every field has a default.
#[derive(Debug, Clone)]
pub struct Config {
    pub server: ServerSection,
    pub security: SecuritySection,
    pub logging: LoggingSection,
}

impl Default for Config {
    fn default() -> (r: Config)
        ensures
            r.server.host@ == "127.0.0.1"@,
            r.server.port == 3000,
            r.server.graceful_shutdown,
            !r.security.auth.enabled,
            r.security.auth.api_keys@.len() == 0,
            r.security.rate_limit.enabled,
            r.security.rate_limit.requests_per_window == 100,
            r.security.rate_limit.window_secs == 60,
            r.logging.level@ == "info"@,
    {
        Config {
            server: ServerSection::default(),
            security: SecuritySection::default(),
            logging: LoggingSection::default(),
        }
    }
}

/// `keys` holds `k`.
pub open spec fn holds_key(keys: Seq<String>, k: Seq<char>) -> bool {
    exists|i: int| 0 <= i < keys.len() && keys[i]@ == k
}

impl Config {
    /// The log filter directive.
    pub fn log_filter(&self) -> (r: &str)
        ensures
            r@ == self.logging.level@,
    {
        self.logging.level.as_str()
    }

    /// Takes in a key from outside: a non-empty key switches authentication on and is
    /// added unless already listed; an empty one changes nothing.
    pub fn add_api_key(&mut self, key: &str)
        ensures
            key@.len() == 0 ==> *final(self) == *old(self),
            key@.len() > 0 ==> final(self).security.auth.enabled,
            key@.len() > 0 ==> holds_key(final(self).security.auth.api_keys@, key@),
            key@.len() > 0 && holds_key(old(self).security.auth.api_keys@, key@) ==> final(self).security.auth.api_keys@
                == old(self).security.auth.api_keys@,
            key@.len() > 0 && !holds_key(old(self).security.auth.api_keys@, key@) ==> final(self).security.auth.api_keys@
                == old(self).security.auth.api_keys@.push(final(self).security.auth.api_keys@.last()),
            final(self).server == old(self).server,
            final(self).logging == old(self).logging,
    {
        if key.is_empty() {
            return;
        }
        self.security.auth.enabled = true;
        let k = String::from_str(key);
        let mut i: usize = 0;
        while i < self.security.auth.api_keys.len()
            invariant
                k@ == key@,
                key@.len() > 0,
                self.security.auth.enabled,
                self.server == old(self).server,
                self.logging == old(self).logging,
                self.security.auth.api_keys == old(self).security.auth.api_keys,
                forall|j: int| 0 <= j < i ==> self.security.auth.api_keys@[j]@ != key@,
            decreases self.security.auth.api_keys.len() - i,
        {
            if self.security.auth.api_keys[i] == k {
                assert(holds_key(self.security.auth.api_keys@, key@));
                return;
            }
            i = i + 1;
        }
        self.security.auth.api_keys.push(k);
        proof {
            let n = self.security.auth.api_keys@.len() - 1;
            assert(self.security.auth.api_keys@[n]@ == key@);
        }
    }

    /// The server settings this configuration describes: its address, its
    /// authentication switch and keys, and its rate limit (at most 10000 sources).
    pub fn to_server_config(&self) -> (r: ServerConfig)
        requires
            self.security.rate_limit.window_secs <= u64::MAX / 1000,
        ensures
            r.host@ == self.server.host@,
            r.port == self.server.port,
            r.graceful_shutdown == self.server.graceful_shutdown,
            r.security.auth.enabled == self.security.auth.enabled,
            r.security.auth.prefix@ == "Bearer "@,
            r.security.rate_limit.enabled == self.security.rate_limit.enabled,
            r.security.rate_limit.max_requests == self.security.rate_limit.requests_per_window,
            r.security.rate_limit.window_ms == self.security.rate_limit.window_secs * 1000,
            r.security.rate_limit.max_tracked_ips == 10000,
            r.security.api_keys@.len() == self.security.auth.api_keys@.len(),
            forall|i: int| 0 <= i < r.security.api_keys@.len() ==> (#[trigger] r.security.api_keys@[i])@
                == self.security.auth.api_keys@[i]@,
    {
        let mut auth = AuthConfig::new();
        auth.enabled = self.security.auth.enabled;
        let mut rate_limit = RateLimitConfig::custom(
            self.security.rate_limit.requests_per_window,
            self.security.rate_limit.window_secs,
        );
        rate_limit.enabled = self.security.rate_limit.enabled;
        let mut keys: Vec<String> = Vec::new();
        let mut i: usize = 0;
        while i < self.security.auth.api_keys.len()
            invariant
                i <= self.security.auth.api_keys@.len(),
                keys@.len() == i,
                forall|j: int| 0 <= j < i ==> (#[trigger] keys@[j])@ == self.security.auth.api_keys@[j]@,
            decreases self.security.auth.api_keys.len() - i,
        {
            keys.push(self.security.auth.api_keys[i].clone());
            i = i + 1;
        }
        let security = SecurityConfig { auth, rate_limit, api_keys: keys };
        let mut server = ServerConfig::new(self.server.host.as_str(), self.server.port).with_security(security);
        if !self.server.graceful_shutdown {
            server = server.without_graceful_shutdown();
        }
        server
    }
}

} // verus!
